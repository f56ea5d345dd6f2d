//! The loop in which an agent asks its model, runs the tools that the model
//! calls for, and ends with an answer.
//!
//! [`AgentRun`] holds what the loop knows. Each of its methods takes what has
//! just happened and says what to tell those who watch, what to add to the
//! conversation and what to do next. Whoever drives it talks to the model, the
//! tools and the user.

use crate::critic::Verdict;
use crate::deltas::{deltas, head_chars, head_text, reasoning, reasoning_of, text_deltas};
use crate::events::{
    event_models, lemma_events_empty, lemma_events_push, no_usage, zero_usage, AgentEvent,
    EventModel, SessionPhase, StopReason, TokenUsage,
};
use crate::message::{plain_message, Message, MessageModel, ToolResult, ToolUse};
use crate::numeral::{byte_count, byte_len, decimal, decimal_text};
use crate::prompt::TokenBudget;
use crate::split::{join, join_texts};
use crate::text::{contains_text, lemma_contains_part, lemma_texts_push, texts};
use vstd::prelude::*;
use vstd::string::*;

verus! {

broadcast use {lemma_texts_push, lemma_events_push, lemma_events_empty};

// ── State ──────────────────────────────────────────────────────────────────
/// How a run is limited.
#[derive(Debug, Clone, Copy, PartialEq, Eq, Structural)]
pub struct RunConfig {
    /// How often the model may be asked with tools.
    pub max_tool_rounds: usize,
    /// How often a critic may send an answer back.
    pub critic_max_iters: u32,
    /// There is a critic.
    pub has_critic: bool,
}

/// After how many failures in a row a run is stopped.
pub const BREAKER_FAILURES: u32 = 5;

/// What the loop knows.
#[derive(Debug)]
pub struct AgentRun {
    pub config: RunConfig,
    /// How many rounds have begun.
    pub rounds: usize,
    pub consecutive_failures: u32,
    /// The names of the tools called so far.
    pub tool_sequence: Vec<String>,
    pub critic_iters: u32,
    /// The step that has begun and not ended.
    pub active_step: Option<u64>,
    pub next_step: u64,
    pub final_text: String,
    pub budget: TokenBudget,
    pub turn_count: u32,
    pub phase: SessionPhase,
}

/// The model of an [`AgentRun`].
pub struct RunModel {
    pub config: RunConfig,
    pub rounds: nat,
    pub consecutive_failures: nat,
    pub tool_sequence: Seq<Seq<char>>,
    pub critic_iters: nat,
    pub active_step: Option<u64>,
    pub next_step: nat,
    pub final_text: Seq<char>,
    pub budget: TokenBudget,
    pub turn_count: nat,
    pub phase: SessionPhase,
}

impl View for AgentRun {
    type V = RunModel;

    open spec fn view(&self) -> RunModel {
        RunModel {
            config: self.config,
            rounds: self.rounds as nat,
            consecutive_failures: self.consecutive_failures as nat,
            tool_sequence: texts(self.tool_sequence@),
            critic_iters: self.critic_iters as nat,
            active_step: self.active_step,
            next_step: self.next_step as nat,
            final_text: self.final_text@,
            budget: self.budget,
            turn_count: self.turn_count as nat,
            phase: self.phase,
        }
    }
}

/// A failure more, as far as it can be counted.
pub open spec fn one_more(n: nat) -> nat {
    if n < u32::MAX {
        n + 1
    } else {
        n
    }
}

/// What an answer from the model holds.
#[derive(Debug)]
pub struct ModelReply {
    pub content: String,
    pub tool_calls: Vec<ToolUse>,
    pub stop_reason: StopReason,
    pub usage: TokenUsage,
    pub logprobs: Option<Logprobs>,
}

/// How probable a model found the tokens of an answer. The probabilities are numbers
/// in digits.
#[derive(Debug)]
pub struct Logprobs {
    pub n_tokens: u32,
    pub min_token_p: String,
    pub mean_token_p: String,
    pub confidence: String,
}

/// What is told of how probable a model found its tokens.
pub open spec fn logprob_events(p: Option<Logprobs>) -> Seq<EventModel> {
    match p {
        Some(p) => seq![
            EventModel::TokenLogprobSummary {
                n_tokens: p.n_tokens,
                min_token_p: p.min_token_p@,
                mean_token_p: p.mean_token_p@,
                confidence: p.confidence@,
            },
        ],
        None => Seq::empty(),
    }
}

/// Which instructions were found for the user's words, and which of them count. The
/// threshold is a number in digits.
#[derive(Debug)]
pub struct Routing {
    pub candidates: Vec<String>,
    pub activated: Vec<String>,
    pub threshold: String,
}

/// What is told of the instructions that were found, if some were.
pub open spec fn routing_events(r: Option<Routing>) -> Seq<EventModel> {
    match r {
        Some(r) => if r.candidates@.len() > 0 {
            seq![
                EventModel::RoutingDecision {
                    candidates: texts(r.candidates@),
                    activated: texts(r.activated@),
                    threshold: r.threshold@,
                },
            ]
        } else {
            Seq::empty()
        },
        None => Seq::empty(),
    }
}

/// The id of the node of the current round in the execution tree.
pub open spec fn turn_node(rounds: nat) -> Seq<char> {
    "turn-"@ + decimal((rounds - 1) as nat)
}

/// The id of the node of a tool call in the execution tree.
pub open spec fn tool_node(id: Seq<char>) -> Seq<char> {
    "tool-"@ + id
}

fn turn_node_text(rounds: usize) -> (r: String)
    requires
        rounds > 0,
    ensures
        r@ == turn_node(rounds as nat),
{
    let mut out = "turn-".to_owned();
    let n = decimal_text((rounds - 1) as u64);
    out.append(n.as_str());
    out
}

fn tool_node_text(id: &str) -> (r: String)
    ensures
        r@ == tool_node(id@),
{
    let mut out = "tool-".to_owned();
    out.append(id);
    out
}

// ── Beginning ──────────────────────────────────────────────────────────────
/// How full the context is.
#[derive(Debug, Clone, Copy, PartialEq, Eq, Structural)]
pub enum WarningLevel {
    Clear,
    Warning70,
    Warning85,
    Critical95,
}

/// The name of a level that is worth a warning.
pub open spec fn level_name(w: WarningLevel) -> Option<Seq<char>> {
    match w {
        WarningLevel::Clear => None,
        WarningLevel::Warning70 => Some("warning_70"@),
        WarningLevel::Warning85 => Some("warning_85"@),
        WarningLevel::Critical95 => Some("critical_95"@),
    }
}

/// What is told when a run begins.
pub open spec fn beginning(
    b: TokenBudget,
    w: WarningLevel,
    routing: Option<Routing>,
) -> Seq<EventModel> {
    let first = seq![EventModel::SessionPhaseChanged { phase: SessionPhase::Running }]
        + routing_events(routing);
    match level_name(w) {
        Some(level) => first.push(
            EventModel::ContextWarning {
                level,
                used_tokens: (b.used_input + b.used_output) as u32,
                max_tokens: b.context_limit,
            },
        ),
        None => first,
    }
}

impl AgentRun {
    /// A run that has not begun, with what the session has used so far.
    pub fn new(config: RunConfig, budget: TokenBudget, turn_count: u32, next_step: u64) -> (r:
        AgentRun)
        ensures
            r@ == (RunModel {
                config,
                rounds: 0,
                consecutive_failures: 0,
                tool_sequence: Seq::empty(),
                critic_iters: 0,
                active_step: None,
                next_step: next_step as nat,
                final_text: Seq::empty(),
                budget,
                turn_count: turn_count as nat,
                phase: SessionPhase::Idle,
            }),
    {
        let tools: Vec<String> = Vec::new();
        assert(texts(tools@) =~= Seq::<Seq<char>>::empty());
        AgentRun {
            config,
            rounds: 0,
            consecutive_failures: 0,
            tool_sequence: tools,
            critic_iters: 0,
            active_step: None,
            next_step,
            final_text: String::new(),
            budget,
            turn_count,
            phase: SessionPhase::Idle,
        }
    }

    /// The run begins.
    pub fn begin(&mut self, warning: WarningLevel, routing: Option<Routing>) -> (r: Vec<
        AgentEvent,
    >)
        requires
            old(self).budget.used_input + old(self).budget.used_output <= u32::MAX,
        ensures
            final(self)@ == (RunModel { phase: SessionPhase::Running, ..old(self)@ }),
            event_models(r@) == beginning(old(self).budget, warning, routing),
    {
        self.phase = SessionPhase::Running;
        let mut out: Vec<AgentEvent> = Vec::new();
        out.push(AgentEvent::SessionPhaseChanged { phase: SessionPhase::Running });
        let ghost first = seq![EventModel::SessionPhaseChanged { phase: SessionPhase::Running }];
        assert(event_models(out@) =~= first);
        match routing {
            Some(r) => {
                if r.candidates.len() > 0 {
                    out.push(
                        AgentEvent::RoutingDecision {
                            candidates: r.candidates,
                            activated: r.activated,
                            threshold: r.threshold,
                        },
                    );
                }
            },
            None => {},
        }
        assert(event_models(out@) =~= first + routing_events(routing));
        let level = match warning {
            WarningLevel::Clear => {
                return out;
            },
            WarningLevel::Warning70 => "warning_70",
            WarningLevel::Warning85 => "warning_85",
            WarningLevel::Critical95 => "critical_95",
        };
        out.push(
            AgentEvent::ContextWarning {
                level: level.to_owned(),
                used_tokens: self.budget.used_input + self.budget.used_output,
                max_tokens: self.budget.context_limit,
            },
        );
        out
    }
}

// ── Rounds ─────────────────────────────────────────────────────────────────
/// What to do at the beginning of a round.
#[derive(Debug, Clone, Copy, PartialEq, Eq, Structural)]
pub enum RoundNext {
    /// Ask the model.
    Ask,
    /// The rounds are used up: leave the loop.
    OutOfRounds,
    /// The run was cancelled: give up.
    Cancelled,
    /// The turn ran out of its budget: add the breach to the conversation, it
    /// is the answer.
    BudgetExceeded,
    /// Too many tool calls have failed: leave the loop.
    BreakerTripped,
}

/// What a round begins with.
#[verifier::ext_equal]
pub struct RoundStart {
    pub run: RunModel,
    pub events: Seq<EventModel>,
    pub next: RoundNext,
}

/// The last five of the names, the latest first.
pub open spec fn last_five(names: Seq<Seq<char>>) -> Seq<Seq<char>> {
    Seq::new(
        if names.len() < 5 {
            names.len()
        } else {
            5
        },
        |i: int| names[names.len() - 1 - i],
    )
}

/// The latest of the names.
pub open spec fn latest(names: Seq<Seq<char>>) -> Seq<char> {
    if names.len() == 0 {
        "none"@
    } else {
        names.last()
    }
}

/// The answer of a run that was stopped after too many failures.
pub open spec fn breaker_text(failures: nat, names: Seq<Seq<char>>) -> Seq<char> {
    "🛑 Circuit breaker triggered after "@ + decimal(failures)
        + " consecutive tool failures.\nLast tools: "@ + join(last_five(names), ", "@)
        + "\nPlease simplify the request or check the working directory."@
}

/// What is told when a run is stopped after too many failures.
pub open spec fn breaker_message(failures: nat, names: Seq<Seq<char>>) -> Seq<char> {
    "Circuit breaker: "@ + decimal(failures) + " consecutive tool failures. Last: "@ + latest(names)
}

/// What is told when a step ends and the next begins.
pub open spec fn step_events(run: RunModel) -> Seq<EventModel> {
    let begun = EventModel::StepStarted { step_id: run.next_step as u64 };
    match run.active_step {
        Some(prev) => seq![EventModel::StepCompleted { step_id: prev, ok: true }, begun],
        None => seq![begun],
    }
}

/// How a round begins. `breach` says how the turn ran out of its budget, if it
/// did.
pub open spec fn round_start(
    run: RunModel,
    cancelled: bool,
    breach: Option<Seq<char>>,
) -> RoundStart {
    if run.rounds >= run.config.max_tool_rounds {
        RoundStart { run, events: Seq::empty(), next: RoundNext::OutOfRounds }
    } else if cancelled {
        RoundStart { run, events: Seq::empty(), next: RoundNext::Cancelled }
    } else {
        let begun = RunModel {
            rounds: run.rounds + 1,
            active_step: Some(run.next_step as u64),
            next_step: run.next_step + 1,
            ..run
        };
        let events = step_events(run);
        match breach {
            Some(msg) => RoundStart {
                run: RunModel { phase: SessionPhase::Idle, ..begun },
                events: events + seq![
                    EventModel::Error { message: msg },
                    EventModel::TurnComplete {
                        stop_reason: StopReason::BudgetExceeded,
                        usage: no_usage(),
                    },
                ],
                next: RoundNext::BudgetExceeded,
            },
            None => if run.consecutive_failures >= BREAKER_FAILURES {
                RoundStart {
                    run: RunModel {
                        final_text: breaker_text(run.consecutive_failures, run.tool_sequence),
                        ..begun
                    },
                    events: events + seq![
                        EventModel::CircuitBreakerTriggered {
                            consecutive_failures: run.consecutive_failures as u32,
                            last_tools: last_five(run.tool_sequence),
                        },
                        EventModel::Error {
                            message: breaker_message(run.consecutive_failures, run.tool_sequence),
                        },
                    ],
                    next: RoundNext::BreakerTripped,
                }
            } else {
                RoundStart {
                    run: begun,
                    events: events + seq![
                        EventModel::ThinkingStarted {
                            iteration: (run.rounds % 0x1_0000_0000) as u32,
                        },
                        EventModel::ExecutionTreeNode {
                            id: turn_node(begun.rounds),
                            parent_id: None,
                            label: "Turn "@ + decimal(begun.rounds) + " — Thinking"@,
                            status: "running"@,
                        },
                    ],
                    next: RoundNext::Ask,
                }
            },
        }
    }
}

fn last_five_names(names: &Vec<String>) -> (r: Vec<String>)
    ensures
        texts(r@) == last_five(texts(names@)),
{
    let mut out: Vec<String> = Vec::new();
    let n: usize = names.len();
    let ghost all = texts(names@);
    let mut i: usize = 0;
    while i < n && i < 5
        invariant
            all == texts(names@),
            n == all.len(),
            i <= n,
            i <= 5,
            texts(out@) == last_five(all).take(i as int),
        decreases n - i,
    {
        assert(all[n - 1 - i] == names@[n - 1 - i]@);
        out.push(names[n - 1 - i].clone());
        assert(texts(out@) =~= last_five(all).take(i + 1));
        i += 1;
    }
    assert(texts(out@) =~= last_five(all));
    out
}

impl AgentRun {
    /// A round begins. `cancelled` tells whether the run was cancelled, and
    /// `breach` how the turn ran out of its budget, if it did.
    pub fn begin_round(&mut self, cancelled: bool, breach: Option<&str>) -> (r: (
        Vec<AgentEvent>,
        RoundNext,
    ))
        requires
            old(self).next_step < u64::MAX,
        ensures
            ({
                let s = round_start(
                    old(self)@,
                    cancelled,
                    match breach {
                        Some(m) => Some(m@),
                        None => None,
                    },
                );
                &&& final(self)@ == s.run
                &&& event_models(r.0@) == s.events
                &&& r.1 == s.next
            }),
    {
        let mut out: Vec<AgentEvent> = Vec::new();
        if self.rounds >= self.config.max_tool_rounds {
            return (out, RoundNext::OutOfRounds);
        }
        if cancelled {
            return (out, RoundNext::Cancelled);
        }
        let ghost before = self@;
        match self.active_step {
            Some(prev) => {
                out.push(AgentEvent::StepCompleted { step_id: prev, ok: true });
            },
            None => {},
        }
        let step: u64 = self.next_step;
        out.push(AgentEvent::StepStarted { step_id: step });
        assert(event_models(out@) =~= step_events(before));
        self.active_step = Some(step);
        self.next_step = step + 1;
        let iteration: usize = self.rounds;
        self.rounds = self.rounds + 1;
        let ghost events = event_models(out@);
        match breach {
            Some(msg) => {
                out.push(AgentEvent::Error { message: msg.to_owned() });
                out.push(
                    AgentEvent::TurnComplete {
                        stop_reason: StopReason::BudgetExceeded,
                        usage: zero_usage(),
                    },
                );
                self.phase = SessionPhase::Idle;
                assert(event_models(out@) =~= round_start(before, cancelled, Some(msg@)).events);
                (out, RoundNext::BudgetExceeded)
            },
            None => {
                if self.consecutive_failures >= BREAKER_FAILURES {
                    let n = decimal_text(self.consecutive_failures as u64);
                    let names = last_five_names(&self.tool_sequence);
                    let list = join_texts(names.as_slice(), ", ");
                    out.push(
                        AgentEvent::CircuitBreakerTriggered {
                            consecutive_failures: self.consecutive_failures,
                            last_tools: names,
                        },
                    );
                    let mut message = "Circuit breaker: ".to_owned();
                    message.append(n.as_str());
                    message.append(" consecutive tool failures. Last: ");
                    if self.tool_sequence.len() == 0 {
                        message.append("none");
                    } else {
                        let k: usize = self.tool_sequence.len() - 1;
                        assert(texts(self.tool_sequence@)[k as int]
                            == self.tool_sequence@[k as int]@);
                        message.append(self.tool_sequence[k].as_str());
                    }
                    out.push(AgentEvent::Error { message });
                    let mut text = "🛑 Circuit breaker triggered after ".to_owned();
                    text.append(n.as_str());
                    text.append(" consecutive tool failures.\nLast tools: ");
                    text.append(list.as_str());
                    text.append("\nPlease simplify the request or check the working directory.");
                    self.final_text = text;
                    assert(event_models(out@) =~= round_start(before, cancelled, None).events);
                    (out, RoundNext::BreakerTripped)
                } else {
                    let small: u64 = iteration as u64 % 0x1_0000_0000;
                    out.push(AgentEvent::ThinkingStarted { iteration: small as u32 });
                    let mut label = "Turn ".to_owned();
                    let n = decimal_text(self.rounds as u64);
                    label.append(n.as_str());
                    label.append(" — Thinking");
                    out.push(
                        AgentEvent::ExecutionTreeNode {
                            id: turn_node_text(self.rounds),
                            parent_id: None,
                            label,
                            status: "running".to_owned(),
                        },
                    );
                    assert(event_models(out@) =~= round_start(before, cancelled, None).events);
                    (out, RoundNext::Ask)
                }
            },
        }
    }

    /// The loop is left: its last step ends.
    pub fn close_step(&mut self) -> (r: Vec<AgentEvent>)
        ensures
            final(self)@ == (RunModel { active_step: None, ..old(self)@ }),
            event_models(r@) == (match old(self)@.active_step {
                Some(prev) => seq![EventModel::StepCompleted { step_id: prev, ok: true }],
                None => Seq::empty(),
            }),
    {
        let mut out: Vec<AgentEvent> = Vec::new();
        match self.active_step {
            Some(prev) => {
                out.push(AgentEvent::StepCompleted { step_id: prev, ok: true });
                assert(event_models(out@) =~= seq![
                    EventModel::StepCompleted { step_id: prev, ok: true },
                ]);
            },
            None => {},
        }
        self.active_step = None;
        out
    }
}

// ── Answers ────────────────────────────────────────────────────────────────
/// The pieces of a text as events.
pub open spec fn delta_events(s: Seq<char>) -> Seq<EventModel> {
    deltas(s, 0).map_values(|t: Seq<char>| EventModel::TextDelta { text: t })
}

fn push_deltas(out: &mut Vec<AgentEvent>, content: &str)
    ensures
        event_models(final(out)@) == event_models(old(out)@) + delta_events(content@),
{
    let ghost before = event_models(out@);
    let ghost all = delta_events(content@);
    let pieces = text_deltas(content);
    let mut i: usize = 0;
    assert(event_models(out@) =~= before + all.take(0));
    while i < pieces.len()
        invariant
            all == delta_events(content@),
            texts(pieces@) == deltas(content@, 0),
            pieces@.len() == all.len(),
            i <= all.len(),
            event_models(out@) == before + all.take(i as int),
        decreases all.len() - i,
    {
        assert(texts(pieces@)[i as int] == pieces@[i as int]@);
        out.push(AgentEvent::TextDelta { text: pieces[i].clone() });
        assert(event_models(out@) =~= before + all.take(i + 1));
        i += 1;
    }
    assert(all.take(i as int) =~= all);
}

/// The run after an answer has come.
pub open spec fn after_reply(run: RunModel, usage: TokenUsage) -> RunModel {
    RunModel {
        budget: TokenBudget {
            used_input: (run.budget.used_input + usage.input_tokens) as u32,
            used_output: (run.budget.used_output + usage.output_tokens) as u32,
            ..run.budget
        },
        turn_count: run.turn_count + 1,
        ..run
    }
}

/// What an answer costs can be added to what has been used.
pub open spec fn reply_fits(run: RunModel, usage: TokenUsage) -> bool {
    &&& run.budget.used_input + usage.input_tokens + run.budget.used_output + usage.output_tokens
        <= u32::MAX
    &&& run.turn_count < u32::MAX
}

/// More than 85 percent of the context is used, and there is something to
/// drop.
pub open spec fn compaction_due(run: RunModel, history_len: nat) -> bool {
    &&& run.budget.context_limit > 0
    &&& (run.budget.used_input + run.budget.used_output) * 100 > 85 * run.budget.context_limit
    &&& history_len > 10
}

/// What is told of the reasoning in an answer, which took `ms` milliseconds to
/// find.
pub open spec fn reasoning_events(content: Seq<char>, ms: u64) -> Seq<EventModel> {
    match reasoning(content) {
        Some(t) => seq![
            EventModel::ReasoningDelta { content: t },
            EventModel::ReasoningComplete { content: t, duration_ms: ms },
        ],
        None => Seq::empty(),
    }
}

/// What is told when the model cannot be asked.
pub open spec fn provider_error_events(error: Seq<char>) -> Seq<EventModel> {
    seq![
        EventModel::TurnComplete { stop_reason: StopReason::Error, usage: no_usage() },
        EventModel::SessionPhaseChanged { phase: SessionPhase::Idle },
        EventModel::Error { message: "Provider error: "@ + error },
    ]
}

impl AgentRun {
    /// The model could not be asked.
    pub fn provider_failed(&mut self, error: &str) -> (r: Vec<AgentEvent>)
        ensures
            final(self)@ == (RunModel { phase: SessionPhase::Idle, ..old(self)@ }),
            event_models(r@) == provider_error_events(error@),
    {
        self.phase = SessionPhase::Idle;
        let mut out: Vec<AgentEvent> = Vec::new();
        out.push(
            AgentEvent::TurnComplete { stop_reason: StopReason::Error, usage: zero_usage() },
        );
        out.push(AgentEvent::SessionPhaseChanged { phase: SessionPhase::Idle });
        let mut message = "Provider error: ".to_owned();
        message.append(error);
        out.push(AgentEvent::Error { message });
        assert(event_models(out@) =~= provider_error_events(error@));
        out
    }

    /// Whether what an answer costs can be added to what has been used.
    pub fn can_take(&self, usage: &TokenUsage) -> (r: bool)
        ensures
            r == reply_fits(self@, *usage),
    {
        let sum: u64 = self.budget.used_input as u64 + usage.input_tokens as u64
            + self.budget.used_output as u64 + usage.output_tokens as u64;
        sum <= u32::MAX as u64 && self.turn_count < u32::MAX
    }

    /// An answer has come: it is shown piece by piece, then how probable its tokens
    /// are, and what it cost is added.
    pub fn reply_received(&mut self, reply: &ModelReply) -> (r: Vec<AgentEvent>)
        requires
            reply_fits(old(self)@, reply.usage),
        ensures
            final(self)@ == after_reply(old(self)@, reply.usage),
            event_models(r@) == delta_events(reply.content@) + logprob_events(reply.logprobs),
    {
        let mut out: Vec<AgentEvent> = Vec::new();
        push_deltas(&mut out, reply.content.as_str());
        assert(event_models(out@) =~= delta_events(reply.content@));
        match &reply.logprobs {
            Some(p) => {
                out.push(
                    AgentEvent::TokenLogprobSummary {
                        n_tokens: p.n_tokens,
                        min_token_p: p.min_token_p.clone(),
                        mean_token_p: p.mean_token_p.clone(),
                        confidence: p.confidence.clone(),
                    },
                );
            },
            None => {},
        }
        assert(event_models(out@) =~= delta_events(reply.content@) + logprob_events(
            reply.logprobs,
        ));
        self.budget.used_input = self.budget.used_input + reply.usage.input_tokens;
        self.budget.used_output = self.budget.used_output + reply.usage.output_tokens;
        self.turn_count = self.turn_count + 1;
        out
    }

    /// The run goes on with the model `model_id`, which has these limits.
    pub fn model_applied(&mut self, model_id: &str, context_limit: u32, reserved_output: u32) -> (r:
        Vec<AgentEvent>)
        ensures
            final(self)@ == (RunModel {
                budget: TokenBudget { context_limit, reserved_output, ..old(self)@.budget },
                ..old(self)@
            }),
            event_models(r@) == (if final(self)@.budget == old(self)@.budget {
                Seq::empty()
            } else {
                seq![
                    EventModel::BudgetUpdated {
                        model_id: model_id@,
                        context_limit,
                        reserved_output,
                    },
                ]
            }),
    {
        let mut out: Vec<AgentEvent> = Vec::new();
        if self.budget.apply_model(context_limit, reserved_output) {
            out.push(
                AgentEvent::BudgetUpdated {
                    model_id: model_id.to_owned(),
                    context_limit,
                    reserved_output,
                },
            );
            assert(event_models(out@) =~= seq![
                EventModel::BudgetUpdated { model_id: model_id@, context_limit, reserved_output },
            ]);
        }
        out
    }

    /// Whether the conversation is to be made smaller now.
    pub fn should_compact(&self, history_len: usize) -> (r: bool)
        requires
            self.budget.used_input + self.budget.used_output <= u32::MAX,
        ensures
            r == compaction_due(self@, history_len as nat),
    {
        let used: u64 = self.budget.used_input as u64 + self.budget.used_output as u64;
        self.budget.context_limit > 0 && used * 100 > 85 * (self.budget.context_limit as u64)
            && history_len > 10
    }

    /// What is told of the reasoning in an answer.
    pub fn reasoning_shown(&self, content: &str, duration_ms: u64) -> (r: Vec<AgentEvent>)
        ensures
            event_models(r@) == reasoning_events(content@, duration_ms),
    {
        let mut out: Vec<AgentEvent> = Vec::new();
        match reasoning_of(content) {
            Some(t) => {
                out.push(AgentEvent::ReasoningDelta { content: t.clone() });
                out.push(AgentEvent::ReasoningComplete { content: t, duration_ms });
            },
            None => {},
        }
        assert(event_models(out@) =~= reasoning_events(content@, duration_ms));
        out
    }
}

// ── Ends of turns ──────────────────────────────────────────────────────────
/// What to do after an answer.
#[derive(Debug, Clone, Copy, PartialEq, Eq, Structural)]
pub enum ReplyNext {
    /// Show the answer to the critic.
    AskCritic,
    /// Leave the loop.
    LeaveLoop,
    /// Run the tools.
    RunTools,
    /// Begin another round.
    NextRound,
    /// Give up: the model said that it failed.
    ProviderError,
    /// Give up: the model said what only the loop may say.
    ReservedStop,
}

/// The error for a model that said that it failed.
pub open spec fn stop_error_text() -> Seq<char> {
    "Provider reported StopReason::Error in successful response"@
}

/// The error for a model that said what only the loop may say.
pub open spec fn reserved_stop_text() -> Seq<char> {
    "Provider returned StopReason::BudgetExceeded; this variant is reserved for orchestrator-side TurnBudget enforcement"@
}

/// The text of the error, where there is one.
pub fn stop_error(next: ReplyNext) -> (r: Option<String>)
    ensures
        match next {
            ReplyNext::ProviderError => r is Some && r->0@ == stop_error_text(),
            ReplyNext::ReservedStop => r is Some && r->0@ == reserved_stop_text(),
            _ => r is None,
        },
{
    match next {
        ReplyNext::ProviderError => Some(
            "Provider reported StopReason::Error in successful response".to_owned(),
        ),
        ReplyNext::ReservedStop => Some(
            "Provider returned StopReason::BudgetExceeded; this variant is reserved for orchestrator-side TurnBudget enforcement".to_owned(),
        ),
        _ => None,
    }
}

/// What follows an answer: the run, what is told, what is added to the
/// conversation, and what to do next.
pub struct ReplyStep {
    pub run: RunModel,
    pub events: Seq<EventModel>,
    pub append: Option<MessageModel>,
    pub next: ReplyNext,
}

/// What is told when a turn ends with an answer.
pub open spec fn turn_end_events(
    rounds: nat,
    stop_reason: StopReason,
    usage: TokenUsage,
    answer: Seq<char>,
) -> Seq<EventModel> {
    seq![
        EventModel::TurnComplete { stop_reason, usage },
        EventModel::ExecutionTreeUpdate {
            id: turn_node(rounds),
            status: "completed"@,
            detail: Some(decimal(byte_len(answer)) + "B response"@),
        },
    ]
}

/// An answer goes to the critic.
pub open spec fn critic_due(run: RunModel) -> bool {
    run.config.has_critic && run.critic_iters < run.config.critic_max_iters
}

/// What follows an answer.
pub open spec fn reply_step(run: RunModel, reply: ModelReply) -> ReplyStep {
    let answered = RunModel { final_text: reply.content@, ..run };
    let said = plain_message("assistant"@, reply.content@);
    match reply.stop_reason {
        StopReason::EndTurn | StopReason::MaxTokens | StopReason::StopSequence => if critic_due(
            run,
        ) {
            ReplyStep {
                run: answered,
                events: Seq::empty(),
                append: Some(said),
                next: ReplyNext::AskCritic,
            }
        } else {
            ReplyStep {
                run: answered,
                events: turn_end_events(
                    run.rounds,
                    reply.stop_reason,
                    reply.usage,
                    reply.content@,
                ),
                append: Some(said),
                next: ReplyNext::LeaveLoop,
            }
        },
        StopReason::ToolUse => if reply.tool_calls@.len() == 0 {
            ReplyStep {
                run: answered,
                events: Seq::empty(),
                append: Some(said),
                next: ReplyNext::LeaveLoop,
            }
        } else {
            ReplyStep {
                run,
                events: Seq::empty(),
                append: Some(MessageModel { tool_calls: reply.tool_calls@, ..said }),
                next: ReplyNext::RunTools,
            }
        },
        StopReason::Error => ReplyStep {
            run,
            events: seq![
                EventModel::TurnComplete { stop_reason: StopReason::Error, usage: no_usage() },
            ],
            append: None,
            next: ReplyNext::ProviderError,
        },
        StopReason::BudgetExceeded => ReplyStep {
            run,
            events: seq![
                EventModel::TurnComplete { stop_reason: StopReason::Error, usage: no_usage() },
            ],
            append: None,
            next: ReplyNext::ReservedStop,
        },
    }
}

/// What follows a verdict on the answer `reply`.
pub open spec fn verdict_step(run: RunModel, reply: ModelReply, verdict: Verdict) -> ReplyStep {
    match verdict {
        Verdict::Reject { feedback } => ReplyStep {
            run: RunModel {
                critic_iters: run.critic_iters + 1,
                final_text: Seq::empty(),
                ..run
            },
            events: seq![
                EventModel::CriticVerdict {
                    accepted: false,
                    feedback: feedback@,
                    iteration: run.critic_iters as u32,
                },
            ],
            append: Some(plain_message("user"@, "[Critic feedback] "@ + feedback@)),
            next: ReplyNext::NextRound,
        },
        Verdict::Accept => ReplyStep {
            run,
            events: seq![
                EventModel::CriticVerdict {
                    accepted: true,
                    feedback: Seq::empty(),
                    iteration: run.critic_iters as u32,
                },
            ] + turn_end_events(run.rounds, reply.stop_reason, reply.usage, run.final_text),
            append: None,
            next: ReplyNext::LeaveLoop,
        },
    }
}

/// The model of a message that may be there.
pub open spec fn opt_message(m: Option<Message>) -> Option<MessageModel> {
    match m {
        Some(x) => Some(x@),
        None => None,
    }
}

/// What the driver of a run is told after an answer.
#[derive(Debug)]
pub struct ReplyActions {
    pub events: Vec<AgentEvent>,
    pub append: Option<Message>,
    pub next: ReplyNext,
}

impl AgentRun {
    fn push_turn_end(
        &self,
        out: &mut Vec<AgentEvent>,
        stop_reason: StopReason,
        usage: TokenUsage,
        answer: &str,
    )
        requires
            self.rounds > 0,
        ensures
            event_models(final(out)@) == event_models(old(out)@) + turn_end_events(
                self.rounds as nat,
                stop_reason,
                usage,
                answer@,
            ),
    {
        let ghost before = event_models(out@);
        out.push(AgentEvent::TurnComplete { stop_reason, usage });
        let mut detail = decimal_text(byte_count(answer) as u64);
        detail.append("B response");
        out.push(
            AgentEvent::ExecutionTreeUpdate {
                id: turn_node_text(self.rounds),
                status: "completed".to_owned(),
                detail: Some(detail),
            },
        );
        assert(event_models(out@) =~= before + turn_end_events(
            self.rounds as nat,
            stop_reason,
            usage,
            answer@,
        ));
    }

    /// An answer has come and been counted: what to do next.
    pub fn answered(&mut self, reply: &ModelReply) -> (r: ReplyActions)
        requires
            old(self).rounds > 0,
        ensures
            ({
                let s = reply_step(old(self)@, *reply);
                &&& final(self)@ == s.run
                &&& event_models(r.events@) == s.events
                &&& opt_message(r.append) == s.append
                &&& r.next == s.next
            }),
    {
        let mut out: Vec<AgentEvent> = Vec::new();
        let mut said = Message::assistant(reply.content.as_str());
        match reply.stop_reason {
            StopReason::EndTurn | StopReason::MaxTokens | StopReason::StopSequence => {
                self.final_text = reply.content.clone();
                if self.config.has_critic && self.critic_iters < self.config.critic_max_iters {
                    return ReplyActions {
                        events: out,
                        append: Some(said),
                        next: ReplyNext::AskCritic,
                    };
                }
                self.push_turn_end(
                    &mut out,
                    reply.stop_reason,
                    reply.usage,
                    reply.content.as_str(),
                );
                assert(event_models(out@) =~= turn_end_events(
                    self.rounds as nat,
                    reply.stop_reason,
                    reply.usage,
                    reply.content@,
                ));
                ReplyActions { events: out, append: Some(said), next: ReplyNext::LeaveLoop }
            },
            StopReason::ToolUse => {
                if reply.tool_calls.is_empty() {
                    self.final_text = reply.content.clone();
                    return ReplyActions {
                        events: out,
                        append: Some(said),
                        next: ReplyNext::LeaveLoop,
                    };
                }
                said.tool_calls = reply.tool_calls.clone();
                ReplyActions { events: out, append: Some(said), next: ReplyNext::RunTools }
            },
            StopReason::Error => {
                out.push(
                    AgentEvent::TurnComplete {
                        stop_reason: StopReason::Error,
                        usage: zero_usage(),
                    },
                );
                assert(event_models(out@) =~= reply_step(old(self)@, *reply).events);
                ReplyActions { events: out, append: None, next: ReplyNext::ProviderError }
            },
            StopReason::BudgetExceeded => {
                out.push(
                    AgentEvent::TurnComplete {
                        stop_reason: StopReason::Error,
                        usage: zero_usage(),
                    },
                );
                assert(event_models(out@) =~= reply_step(old(self)@, *reply).events);
                ReplyActions { events: out, append: None, next: ReplyNext::ReservedStop }
            },
        }
    }

    /// The critic has judged the answer: what to do next.
    pub fn judged(&mut self, reply: &ModelReply, verdict: &Verdict) -> (r: ReplyActions)
        requires
            old(self).rounds > 0,
            critic_due(old(self)@),
        ensures
            ({
                let s = verdict_step(old(self)@, *reply, *verdict);
                &&& final(self)@ == s.run
                &&& event_models(r.events@) == s.events
                &&& opt_message(r.append) == s.append
                &&& r.next == s.next
            }),
    {
        let mut out: Vec<AgentEvent> = Vec::new();
        match verdict {
            Verdict::Reject { feedback } => {
                out.push(
                    AgentEvent::CriticVerdict {
                        accepted: false,
                        feedback: feedback.clone(),
                        iteration: self.critic_iters,
                    },
                );
                assert(event_models(out@) =~= verdict_step(old(self)@, *reply, *verdict).events);
                let mut text = "[Critic feedback] ".to_owned();
                text.append(feedback.as_str());
                self.critic_iters = self.critic_iters + 1;
                self.final_text = String::new();
                ReplyActions {
                    events: out,
                    append: Some(Message::user(text.as_str())),
                    next: ReplyNext::NextRound,
                }
            },
            Verdict::Accept => {
                out.push(
                    AgentEvent::CriticVerdict {
                        accepted: true,
                        feedback: String::new(),
                        iteration: self.critic_iters,
                    },
                );
                let ghost first = event_models(out@);
                self.push_turn_end(
                    &mut out,
                    reply.stop_reason,
                    reply.usage,
                    self.final_text.as_str(),
                );
                assert(event_models(out@) =~= verdict_step(old(self)@, *reply, *verdict).events);
                ReplyActions { events: out, append: None, next: ReplyNext::LeaveLoop }
            },
        }
    }
}

// ── Tool calls ─────────────────────────────────────────────────────────────
/// What is told when a tool call begins.
pub open spec fn call_events(rounds: nat, call: ToolUse, looped: bool) -> Seq<EventModel> {
    let start = seq![
        EventModel::ToolCallStart { id: call.id@, name: call.name@ },
        EventModel::ExecutionTreeNode {
            id: tool_node(call.id@),
            parent_id: Some(turn_node(rounds)),
            label: "🔧 "@ + call.name@,
            status: "running"@,
        },
    ];
    if looped {
        seq![EventModel::LoopDetected { tool_name: call.name@, consecutive_count: 3 }] + start
    } else {
        start
    }
}

/// The run once a tool call has begun: one that repeats itself counts as a
/// failure.
pub open spec fn after_call(run: RunModel, name: Seq<char>, looped: bool) -> RunModel {
    RunModel {
        consecutive_failures: if looped {
            one_more(run.consecutive_failures)
        } else {
            run.consecutive_failures
        },
        tool_sequence: run.tool_sequence.push(name),
        ..run
    }
}

/// The run once a tool call has its result. A call that was skipped does not
/// count, whatever its result is; one that worked ends the failures in a row.
pub open spec fn after_result(run: RunModel, skipped: bool, is_error: bool) -> RunModel {
    RunModel {
        consecutive_failures: if is_error {
            if skipped {
                run.consecutive_failures
            } else {
                one_more(run.consecutive_failures)
            }
        } else {
            0
        },
        ..run
    }
}

/// What is told when a tool call has its result.
pub open spec fn result_events(id: Seq<char>, content: Seq<char>, is_error: bool) -> Seq<
    EventModel,
> {
    seq![
        EventModel::ToolResultEnd { id, content, is_error },
        EventModel::ExecutionTreeUpdate {
            id: tool_node(id),
            status: if is_error {
                "failed"@
            } else {
                "completed"@
            },
            detail: Some(
                if is_error {
                    head_text(content, 100)
                } else {
                    decimal(byte_len(content)) + "B output"@
                },
            ),
        },
    ]
}

/// The message that hands a result to the model.
pub open spec fn is_result_message(m: Message, id: Seq<char>, content: Seq<char>, is_error: bool) -> bool {
    &&& m.role@ == "tool"@
    &&& m.content@ == content
    &&& m.content_blocks is None
    &&& m.tool_calls@.len() == 0
    &&& !m.cache_breakpoint
    &&& m.tool_result matches Some(t) && t.content@ == content && t.is_error == is_error
        && t.tool_use_id is Some && t.tool_use_id->0@ == id
}

/// What became of a tool call that was made.
#[derive(Debug)]
pub enum ToolSpawnOutcome {
    Completed { content: String, is_error: bool },
    TimedOut,
    Cancelled,
}

/// The result that the model is told.
pub open spec fn spawn_result(name: Seq<char>, timeout_secs: u64, outcome: ToolSpawnOutcome) -> (
    Seq<char>,
    bool,
) {
    match outcome {
        ToolSpawnOutcome::Completed { content, is_error } => (content@, is_error),
        ToolSpawnOutcome::TimedOut => (
            "Tool '"@ + name + "' timed out after "@ + decimal(timeout_secs as nat) + "s"@,
            true,
        ),
        ToolSpawnOutcome::Cancelled => ("Tool '"@ + name + "' cancelled by user"@, true),
    }
}

/// What is told of a tool call that did not complete.
pub open spec fn spawn_events(
    name: Seq<char>,
    timeout_secs: u64,
    elapsed_ms: u64,
    outcome: ToolSpawnOutcome,
) -> Seq<EventModel> {
    match outcome {
        ToolSpawnOutcome::Completed { .. } => Seq::empty(),
        ToolSpawnOutcome::TimedOut => seq![
            EventModel::ToolTimedOut { tool: name, timeout_secs, elapsed_ms },
        ],
        ToolSpawnOutcome::Cancelled => seq![EventModel::ToolCancelled { tool: name, elapsed_ms }],
    }
}

/// The result that the model is told, and what the others are told, of a tool
/// call that was made.
pub fn settle_call(name: &str, timeout_secs: u64, elapsed_ms: u64, outcome: ToolSpawnOutcome) -> (r:
    (String, bool, Vec<AgentEvent>))
    ensures
        (r.0@, r.1) == spawn_result(name@, timeout_secs, outcome),
        event_models(r.2@) == spawn_events(name@, timeout_secs, elapsed_ms, outcome),
{
    let mut events: Vec<AgentEvent> = Vec::new();
    match outcome {
        ToolSpawnOutcome::Completed { content, is_error } => (content, is_error, events),
        ToolSpawnOutcome::TimedOut => {
            events.push(
                AgentEvent::ToolTimedOut { tool: name.to_owned(), timeout_secs, elapsed_ms },
            );
            assert(event_models(events@) =~= spawn_events(name@, timeout_secs, elapsed_ms, outcome));
            let mut text = "Tool '".to_owned();
            text.append(name);
            text.append("' timed out after ");
            let n = decimal_text(timeout_secs);
            text.append(n.as_str());
            text.append("s");
            (text, true, events)
        },
        ToolSpawnOutcome::Cancelled => {
            events.push(AgentEvent::ToolCancelled { tool: name.to_owned(), elapsed_ms });
            assert(event_models(events@) =~= spawn_events(name@, timeout_secs, elapsed_ms, outcome));
            let mut text = "Tool '".to_owned();
            text.append(name);
            text.append("' cancelled by user");
            (text, true, events)
        },
    }
}

/// How many of the first `n` calls are errors.
pub open spec fn error_count(errors: Seq<bool>, n: nat) -> nat
    decreases n,
{
    if n == 0 {
        0
    } else {
        error_count(errors, (n - 1) as nat) + (if errors[n - 1] {
            1nat
        } else {
            0nat
        })
    }
}

proof fn lemma_error_count(errors: Seq<bool>, n: nat)
    ensures
        error_count(errors, n) <= n,
    decreases n,
{
    if n > 0 {
        lemma_error_count(errors, (n - 1) as nat);
    }
}

/// What is told when a batch of tool calls begins.
pub fn batch_started(approved: usize) -> (r: AgentEvent)
    ensures
        r@ == (EventModel::ParallelToolBatchStarted {
            tool_count: approved,
            parallelisable: approved > 1,
        }),
{
    AgentEvent::ParallelToolBatchStarted { tool_count: approved, parallelisable: approved > 1 }
}

/// What is told when a batch of tool calls has ended. `errors` says of each
/// call that came back whether its result is an error.
pub fn batch_completed(approved: usize, errors: &[bool], duration_ms: u64) -> (r: AgentEvent)
    ensures
        r@ == (EventModel::ParallelToolBatchCompleted {
            tool_count: approved,
            ok_count: (errors@.len() - error_count(errors@, errors@.len())) as usize,
            error_count: error_count(errors@, errors@.len()) as usize,
            duration_ms,
        }),
{
    let n: usize = errors.len();
    let mut bad: usize = 0;
    let mut i: usize = 0;
    while i < n
        invariant
            n == errors@.len(),
            i <= n,
            bad <= i,
            bad == error_count(errors@, i as nat),
        decreases n - i,
    {
        if errors[i] {
            bad += 1;
        }
        i += 1;
    }
    AgentEvent::ParallelToolBatchCompleted {
        tool_count: approved,
        ok_count: n - bad,
        error_count: bad,
        duration_ms,
    }
}

/// What the user is asked before a tool is called. `raw_input` is the input of the
/// call without its secrets.
pub open spec fn permission_request(call: ToolUse, raw_input: Seq<char>) -> EventModel {
    EventModel::PermissionRequest {
        id: "perm_"@ + call.id@,
        capability: call.name@,
        description: call.name@ + " with args: "@ + head_text(call.input@, 200),
        raw_input: Some(raw_input),
    }
}

/// The id of the question whether a tool may be called.
pub fn request_id(id: &str) -> (r: String)
    ensures
        r@ == "perm_"@ + id@,
{
    let mut out = "perm_".to_owned();
    out.append(id);
    out
}

/// What the user is asked before a tool is called. `raw_input` is the input of the
/// call without its secrets.
pub fn ask_permission(call: &ToolUse, raw_input: String) -> (r: AgentEvent)
    ensures
        r@ == permission_request(*call, raw_input@),
{
    let mut description = call.name.clone();
    description.append(" with args: ");
    let head = head_chars(call.input.as_str(), 200);
    description.append(head.as_str());
    AgentEvent::PermissionRequest {
        id: request_id(call.id.as_str()),
        capability: call.name.clone(),
        description,
        raw_input: Some(raw_input),
    }
}

/// The names of the tools in a batch, for the list of checkpoints.
pub fn batch_summary(calls: &[ToolUse]) -> (r: String)
    ensures
        r@ == join(calls@.map_values(|c: ToolUse| c.name@), " + "@),
{
    let ghost all = calls@.map_values(|c: ToolUse| c.name@);
    let mut names: Vec<String> = Vec::new();
    let mut i: usize = 0;
    while i < calls.len()
        invariant
            all == calls@.map_values(|c: ToolUse| c.name@),
            i <= all.len(),
            texts(names@) == all.take(i as int),
        decreases all.len() - i,
    {
        names.push(calls[i].name.clone());
        assert(texts(names@) =~= all.take(i + 1));
        i += 1;
    }
    assert(texts(names@) =~= all);
    join_texts(names.as_slice(), " + ")
}

/// A result with the lesson that was drawn from it.
pub fn with_lesson(result: &str, lesson: &str) -> (r: String)
    ensures
        r@ == result@ + "\n\n[Reflexion lesson: "@ + head_text(lesson@, 512) + "]"@,
{
    let mut out = result.to_owned();
    out.append("\n\n[Reflexion lesson: ");
    let t = head_chars(lesson, 512);
    out.append(t.as_str());
    out.append("]");
    out
}

/// What is told of the lesson that was drawn from a failure.
pub fn lesson_recorded(tool: &str, lesson: &str) -> (r: AgentEvent)
    ensures
        r@ == (EventModel::ReflexionRecorded { tool: tool@, lesson: head_text(lesson@, 512) }),
{
    AgentEvent::ReflexionRecorded { tool: tool.to_owned(), lesson: head_chars(lesson, 512) }
}

/// What is told when `after` of `before` messages are left.
pub fn history_compacted(before: u32, after: u32) -> (r: AgentEvent)
    requires
        after <= before,
    ensures
        r@ == (EventModel::ContextCompacted {
            freed_tokens: (before - after) as u32,
            before,
            after,
        }),
{
    AgentEvent::ContextCompacted { freed_tokens: before - after, before, after }
}

/// The message that hands a result to the model.
pub fn result_message(id: &str, content: &str, is_error: bool) -> (r: Message)
    ensures
        is_result_message(r, id@, content@, is_error),
{
    let mut m = Message::plain("tool", content);
    let t = if is_error {
        ToolResult::error(content)
    } else {
        ToolResult::success(content)
    };
    m.tool_result = Some(t.with_tool_use_id(id));
    m
}

impl AgentRun {
    /// A tool call begins. `looped` tells that it repeats earlier ones.
    pub fn call_begun(&mut self, call: &ToolUse, looped: bool) -> (r: Vec<AgentEvent>)
        requires
            old(self).rounds > 0,
        ensures
            final(self)@ == after_call(old(self)@, call.name@, looped),
            event_models(r@) == call_events(old(self)@.rounds, *call, looped),
    {
        let mut out: Vec<AgentEvent> = Vec::new();
        if looped {
            out.push(
                AgentEvent::LoopDetected { tool_name: call.name.clone(), consecutive_count: 3 },
            );
            self.consecutive_failures = self.consecutive_failures.saturating_add(1);
        }
        self.tool_sequence.push(call.name.clone());
        out.push(AgentEvent::ToolCallStart { id: call.id.clone(), name: call.name.clone() });
        let mut label = "🔧 ".to_owned();
        label.append(call.name.as_str());
        out.push(
            AgentEvent::ExecutionTreeNode {
                id: tool_node_text(call.id.as_str()),
                parent_id: Some(turn_node_text(self.rounds)),
                label,
                status: "running".to_owned(),
            },
        );
        assert(event_models(out@) =~= call_events(old(self)@.rounds, *call, looped));
        out
    }

    /// A tool call has its result. `skipped` tells that it was not made.
    pub fn call_settled(&mut self, id: &str, content: &str, is_error: bool, skipped: bool) -> (r:
        Vec<AgentEvent>)
        ensures
            final(self)@ == after_result(old(self)@, skipped, is_error),
            event_models(r@) == result_events(id@, content@, is_error),
    {
        if is_error {
            if !skipped {
                self.consecutive_failures = self.consecutive_failures.saturating_add(1);
            }
        } else {
            self.consecutive_failures = 0;
        }
        let mut out: Vec<AgentEvent> = Vec::new();
        out.push(
            AgentEvent::ToolResultEnd { id: id.to_owned(), content: content.to_owned(), is_error },
        );
        let detail = if is_error {
            head_chars(content, 100)
        } else {
            let mut d = decimal_text(byte_count(content) as u64);
            d.append("B output");
            d
        };
        let status = if is_error {
            "failed"
        } else {
            "completed"
        };
        out.push(
            AgentEvent::ExecutionTreeUpdate {
                id: tool_node_text(id),
                status: status.to_owned(),
                detail: Some(detail),
            },
        );
        assert(event_models(out@) =~= result_events(id@, content@, is_error));
        out
    }
}

// ── The end ────────────────────────────────────────────────────────────────
/// The answer of a run that used up its rounds without one.
pub open spec fn exhausted_text(rounds: nat, names: Seq<Seq<char>>) -> Seq<char> {
    "⚠️ Agent used all "@ + decimal(rounds) + " tool iterations without a final answer.\nTools used: "@
        + join(names, ", "@) + "\nTry /compact to free context, or simplify your request."@
}

impl AgentRun {
    /// Whether the model is to be asked for a summary, without tools: the loop
    /// ended without an answer.
    pub fn needs_summary(&self) -> (r: bool)
        ensures
            r == (self@.final_text.len() == 0),
    {
        self.final_text.as_str().is_empty()
    }

    /// The model was asked for a summary. `summary` is what it said, or `None`
    /// if it could not be asked.
    pub fn summarised(&mut self, summary: Option<&str>) -> (r: Vec<AgentEvent>)
        ensures
            ({
                let fallback = exhausted_text(
                    old(self).config.max_tool_rounds as nat,
                    old(self)@.tool_sequence,
                );
                match summary {
                    Some(s) => if s@.len() > 0 {
                        &&& final(self)@ == (RunModel { final_text: s@, ..old(self)@ })
                        &&& event_models(r@) == delta_events(s@)
                    } else {
                        &&& final(self)@ == (RunModel { final_text: fallback, ..old(self)@ })
                        &&& event_models(r@) == seq![EventModel::TextDelta { text: fallback }]
                    },
                    None => {
                        &&& final(self)@ == (RunModel { final_text: fallback, ..old(self)@ })
                        &&& event_models(r@) == seq![EventModel::TextDelta { text: fallback }]
                    },
                }
            }),
    {
        let mut out: Vec<AgentEvent> = Vec::new();
        match summary {
            Some(s) => {
                if !s.is_empty() {
                    self.final_text = s.to_owned();
                    push_deltas(&mut out, s);
                    assert(event_models(out@) =~= delta_events(s@));
                    return out;
                }
            },
            None => {},
        }
        let mut text = "⚠️ Agent used all ".to_owned();
        let n = decimal_text(self.config.max_tool_rounds as u64);
        text.append(n.as_str());
        text.append(" tool iterations without a final answer.\nTools used: ");
        let list = join_texts(self.tool_sequence.as_slice(), ", ");
        text.append(list.as_str());
        text.append("\nTry /compact to free context, or simplify your request.");
        out.push(AgentEvent::TextDelta { text: text.clone() });
        assert(event_models(out@) =~= seq![EventModel::TextDelta { text: text@ }]);
        self.final_text = text;
        out
    }

    /// The answer was voted on. `voted` is the winner, if there was a vote.
    pub fn verified(&mut self, voted: Option<&str>)
        ensures
            final(self)@ == (RunModel {
                final_text: match voted {
                    Some(s) => s@,
                    None => old(self)@.final_text,
                },
                ..old(self)@
            }),
    {
        match voted {
            Some(s) => {
                self.final_text = s.to_owned();
            },
            None => {},
        }
    }

    /// The run ends.
    pub fn end(&mut self) -> (r: Vec<AgentEvent>)
        ensures
            final(self)@ == (RunModel { phase: SessionPhase::Idle, ..old(self)@ }),
            event_models(r@) == seq![
                EventModel::SessionPhaseChanged { phase: SessionPhase::Idle },
            ],
    {
        self.phase = SessionPhase::Idle;
        let mut out: Vec<AgentEvent> = Vec::new();
        out.push(AgentEvent::SessionPhaseChanged { phase: SessionPhase::Idle });
        assert(event_models(out@) =~= seq![
            EventModel::SessionPhaseChanged { phase: SessionPhase::Idle },
        ]);
        out
    }
}

// ── Laws ───────────────────────────────────────────────────────────────────
/// A run never begins more rounds than it may, and each round that asks the
/// model uses one of them up.
pub proof fn law_rounds_are_bounded(run: RunModel, cancelled: bool, breach: Option<Seq<char>>)
    requires
        run.rounds <= run.config.max_tool_rounds,
    ensures
        ({
            let s = round_start(run, cancelled, breach);
            &&& s.run.rounds <= run.config.max_tool_rounds
            &&& s.next == RoundNext::Ask ==> s.run.rounds == run.rounds + 1
        }),
{
}

/// Once five tool calls have failed in a row, the model is not asked again.
pub proof fn law_breaker_stops_the_run(run: RunModel, cancelled: bool, breach: Option<Seq<char>>)
    requires
        run.consecutive_failures >= BREAKER_FAILURES,
    ensures
        round_start(run, cancelled, breach).next != RoundNext::Ask,
{
}

/// A cancelled run does not ask the model.
pub proof fn law_cancelled_runs_stop(run: RunModel, breach: Option<Seq<char>>)
    ensures
        round_start(run, true, breach).next != RoundNext::Ask,
{
}

/// A call that the user declined does not count as a failure, and one that
/// worked ends the failures in a row.
pub proof fn law_only_failures_count(run: RunModel, is_error: bool)
    ensures
        after_result(run, true, true).consecutive_failures == run.consecutive_failures,
        after_result(run, is_error, false).consecutive_failures == 0,
{
}

/// A critic sends an answer back at most as often as it may: once it has, it
/// is not asked again.
pub proof fn law_critic_is_bounded(run: RunModel, reply: ModelReply)
    requires
        run.critic_iters >= run.config.critic_max_iters,
    ensures
        reply_step(run, reply).next != ReplyNext::AskCritic,
{
}

/// How many steps begin in the events.
pub open spec fn steps_begun(events: Seq<EventModel>) -> int
    decreases events.len(),
{
    if events.len() == 0 {
        0
    } else {
        steps_begun(events.drop_last()) + (if events.last() is StepStarted {
            1int
        } else {
            0int
        })
    }
}

/// How many steps end in the events.
pub open spec fn steps_ended(events: Seq<EventModel>) -> int
    decreases events.len(),
{
    if events.len() == 0 {
        0
    } else {
        steps_ended(events.drop_last()) + (if events.last() is StepCompleted {
            1int
        } else {
            0int
        })
    }
}

/// 1 if a step has begun and not ended.
pub open spec fn open_steps(run: RunModel) -> int {
    if run.active_step is Some {
        1
    } else {
        0
    }
}

proof fn lemma_step_counts(a: Seq<EventModel>, b: Seq<EventModel>)
    ensures
        steps_begun(a + b) == steps_begun(a) + steps_begun(b),
        steps_ended(a + b) == steps_ended(a) + steps_ended(b),
    decreases b.len(),
{
    if b.len() == 0 {
        assert(a + b =~= a);
    } else {
        assert((a + b).drop_last() =~= a + b.drop_last());
        lemma_step_counts(a, b.drop_last());
    }
}

/// Steps are bracketed: whatever a round begins with, the steps that begin and
/// those that end in what is told account for the one that is open.
pub proof fn law_steps_are_bracketed(run: RunModel, cancelled: bool, breach: Option<Seq<char>>)
    ensures
        ({
            let s = round_start(run, cancelled, breach);
            open_steps(run) + steps_begun(s.events) - steps_ended(s.events) == open_steps(s.run)
        }),
{
    let s = round_start(run, cancelled, breach);
    reveal_with_fuel(steps_begun, 4);
    reveal_with_fuel(steps_ended, 4);
    if run.rounds < run.config.max_tool_rounds && !cancelled {
        let first = step_events(run);
        let rest = s.events.subrange(first.len() as int, s.events.len() as int);
        assert(s.events =~= first + rest);
        lemma_step_counts(first, rest);
        match run.active_step {
            Some(prev) => {
                assert(first.drop_last() =~= seq![
                    EventModel::StepCompleted { step_id: prev, ok: true },
                ]);
                assert(first.drop_last().drop_last() =~= Seq::<EventModel>::empty());
            },
            None => {
                assert(first.drop_last() =~= Seq::<EventModel>::empty());
            },
        }
        assert(rest.len() == 2);
        assert(rest.drop_last() =~= seq![rest[0]]);
        assert(rest.drop_last().drop_last() =~= Seq::<EventModel>::empty());
    }
}

/// The model is asked in a round exactly if there are rounds left, nobody cancelled, the
/// budget is kept, and fewer than five tool calls failed in a row. Otherwise the run ends
/// for the first of these reasons.
pub proof fn law_rounds_begin_for_a_reason(
    run: RunModel,
    cancelled: bool,
    breach: Option<Seq<char>>,
)
    ensures
        ({
            let s = round_start(run, cancelled, breach);
            let left = run.rounds < run.config.max_tool_rounds;
            &&& s.next is OutOfRounds <==> !left
            &&& s.next is Cancelled <==> left && cancelled
            &&& s.next is BudgetExceeded <==> left && !cancelled && breach is Some
            &&& s.next is BreakerTripped <==> left && !cancelled && breach is None
                && run.consecutive_failures >= 5
            &&& s.next is Ask <==> left && !cancelled && breach is None
                && run.consecutive_failures < 5
            &&& !left || cancelled ==> s.run == run && s.events.len() == 0
            &&& left && !cancelled ==> s.run.rounds == run.rounds + 1 && s.run.next_step
                == run.next_step + 1 && s.run.active_step == Some(run.next_step as u64)
            &&& s.run.consecutive_failures == run.consecutive_failures
            &&& s.run.tool_sequence == run.tool_sequence
            &&& s.run.budget == run.budget
        }),
{
}

/// What is told when a round begins: that the step before has ended and the next begins,
/// and last why the run stops, if it does.
pub proof fn law_rounds_tell_what_happens(run: RunModel, breach: Option<Seq<char>>)
    requires
        run.rounds < run.config.max_tool_rounds,
    ensures
        ({
            let s = round_start(run, false, breach);
            let n = if run.active_step is Some {
                1int
            } else {
                0int
            };
            &&& s.events.len() == n + 3
            &&& run.active_step is Some ==> s.events[0] == (EventModel::StepCompleted {
                step_id: run.active_step->0,
                ok: true,
            })
            &&& s.events[n] == (EventModel::StepStarted { step_id: run.next_step as u64 })
            &&& s.next is BudgetExceeded ==> s.events[n + 1] == (EventModel::Error {
                message: breach->0,
            }) && s.events[n + 2] is TurnComplete && s.events[n + 2]->TurnComplete_stop_reason
                == StopReason::BudgetExceeded
            &&& s.next is BreakerTripped ==> s.events[n + 1] is CircuitBreakerTriggered
                && s.events[n + 2] is Error
            &&& s.next is Ask ==> s.events[n + 1] is ThinkingStarted && s.events[n + 2]
                is ExecutionTreeNode
        }),
{
}

/// A call that fails counts as a failure more, and so does one that repeats itself; every
/// call is remembered by its name, behind those before it.
pub proof fn law_failures_are_counted(run: RunModel, name: Seq<char>, looped: bool)
    requires
        run.consecutive_failures < u32::MAX,
    ensures
        after_result(run, false, true).consecutive_failures == run.consecutive_failures + 1,
        after_call(run, name, true).consecutive_failures == run.consecutive_failures + 1,
        after_call(run, name, false).consecutive_failures == run.consecutive_failures,
        after_call(run, name, looped).tool_sequence == run.tool_sequence + seq![name],
{
    assert(run.tool_sequence.push(name) =~= run.tool_sequence + seq![name]);
}

/// The tools that are named last are the latest, the last one first.
pub proof fn law_the_latest_tools_are_named(names: Seq<Seq<char>>)
    ensures
        last_five(names).len() <= 5,
        names.len() <= 5 ==> last_five(names) == names.reverse(),
        names.len() > 5 ==> last_five(names) == names.skip(names.len() - 5).reverse(),
        names.len() > 0 ==> latest(names) == last_five(names)[0],
{
    if names.len() <= 5 {
        assert(last_five(names) =~= names.reverse());
    } else {
        assert(last_five(names) =~= names.skip(names.len() - 5).reverse());
    }
}

/// An answer adds what it cost to what has been used, and one to the turns.
pub proof fn law_replies_are_added_up(run: RunModel, usage: TokenUsage)
    requires
        reply_fits(run, usage),
    ensures
        ({
            let after = after_reply(run, usage);
            &&& after.budget.used_input == run.budget.used_input + usage.input_tokens
            &&& after.budget.used_output == run.budget.used_output + usage.output_tokens
            &&& after.budget.context_limit == run.budget.context_limit
            &&& after.turn_count == run.turn_count + 1
            &&& after.rounds == run.rounds
        }),
{
}

/// A conversation is compacted only if it is long enough and more than 85 of 100 parts of
/// the context are used.
pub proof fn law_full_contexts_are_compacted(run: RunModel, history_len: nat)
    ensures
        compaction_due(run, history_len) <==> history_len > 10 && run.budget.context_limit > 0
            && 20 * (run.budget.used_input + run.budget.used_output) > 17
            * run.budget.context_limit,
{
}

/// A tool that took too long or was cancelled failed, and the model is told its name; what
/// one gave is handed on as it is.
pub proof fn law_unfinished_tools_fail(
    name: Seq<char>,
    timeout_secs: u64,
    elapsed_ms: u64,
    outcome: ToolSpawnOutcome,
)
    ensures
        ({
            let r = spawn_result(name, timeout_secs, outcome);
            &&& outcome matches ToolSpawnOutcome::Completed { content, is_error } ==> r == (
                content@,
                is_error,
            )
            &&& outcome !is Completed ==> r.1 && contains_text(r.0, name)
            &&& outcome is TimedOut ==> contains_text(r.0, decimal(timeout_secs as nat))
            &&& spawn_events(name, timeout_secs, elapsed_ms, outcome).len() == (
            if outcome is Completed {
                0nat
            } else {
                1nat
            })
            &&& outcome is TimedOut ==> spawn_events(name, timeout_secs, elapsed_ms, outcome)[0]
                is ToolTimedOut
            &&& outcome is Cancelled ==> spawn_events(name, timeout_secs, elapsed_ms, outcome)[0]
                is ToolCancelled
        }),
{
    let n = decimal(timeout_secs as nat);
    if outcome is TimedOut {
        lemma_contains_part("Tool '"@, name, "' timed out after "@ + n + "s"@);
        assert("Tool '"@ + name + ("' timed out after "@ + n + "s"@) =~= "Tool '"@ + name
            + "' timed out after "@ + n + "s"@);
        lemma_contains_part("Tool '"@ + name + "' timed out after "@, n, "s"@);
    } else if outcome is Cancelled {
        lemma_contains_part("Tool '"@, name, "' cancelled by user"@);
    }
}

/// What is told of a result is the result, under the id of its call.
pub proof fn law_results_are_told(id: Seq<char>, content: Seq<char>, is_error: bool)
    ensures
        ({
            let told = result_events(id, content, is_error);
            &&& told.len() == 2
            &&& told[0] == (EventModel::ToolResultEnd { id, content, is_error })
            &&& told[1] is ExecutionTreeUpdate
            &&& told[1]->ExecutionTreeUpdate_status == (if is_error {
                "failed"@
            } else {
                "completed"@
            })
        }),
{
}

/// The errors of a batch are counted.
pub proof fn law_errors_are_counted(errors: Seq<bool>)
    ensures
        error_count(errors, errors.len()) == errors.filter(|e: bool| e).len(),
{
    lemma_errors_filtered(errors, errors.len());
    assert(errors.take(errors.len() as int) =~= errors);
}

proof fn lemma_errors_filtered(errors: Seq<bool>, n: nat)
    requires
        n <= errors.len(),
    ensures
        error_count(errors, n) == errors.take(n as int).filter(|e: bool| e).len(),
    decreases n,
{
    reveal(Seq::filter);
    if n > 0 {
        lemma_errors_filtered(errors, (n - 1) as nat);
        assert(errors.take(n as int).drop_last() =~= errors.take(n - 1));
    }
}

} // verus!
