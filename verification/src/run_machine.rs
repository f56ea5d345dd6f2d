//! A run as a machine: it is handed what has happened, and says what to tell,
//! what to add to the conversation, and what to do next.
//!
//! Whoever drives it does one thing at a time and reports back. The order of
//! things is the machine's own.

use crate::agent_run::{
    after_reply, beginning, compaction_due, critic_due, delta_events, exhausted_text,
    logprob_events, opt_message, provider_error_events, reasoning_events, reply_fits, reply_step,
    reserved_stop_text, round_start, stop_error, stop_error_text, verdict_step, AgentRun,
    ModelReply, ReplyActions, ReplyNext, RoundNext, Routing, RunConfig, RunModel, WarningLevel,
    BREAKER_FAILURES,
};
use crate::assembler::message_links;
use crate::critic::Verdict;
use crate::events::{
    event_models, lemma_events_empty, lemma_events_push, AgentEvent, EventModel, SessionPhase,
    StopReason,
};
use crate::memories::{extract_memories, memories};
use crate::message::{opt_text, plain_message, Message, MessageModel, ToolUse};
use crate::pairing::unit_end;
use crate::prompt::TokenBudget;
use crate::text::{contains_text, lemma_contains_part, texts};
use crate::tool_batch::law_a_batch_is_one_unit;
use vstd::prelude::*;
use vstd::string::*;

verus! {

broadcast use {lemma_events_push, lemma_events_empty};

/// What the machine waits for.
#[derive(Debug)]
pub enum Stage {
    /// The run has not begun.
    Start,
    /// A round is about to begin.
    Round,
    /// The model has been asked.
    Asking,
    /// The conversation is being made smaller, with an answer at hand, and how
    /// long it took to read its reasoning.
    Shrinking { reply: ModelReply, reasoning_ms: u64 },
    /// The critic judges an answer.
    Judging { reply: ModelReply },
    /// The tools run.
    Tools,
    /// The model has been asked for a summary.
    Summarising,
    /// It is looked whether the run has been cancelled.
    Checking,
    /// The answer is being verified.
    Verifying,
    /// The run is over.
    Over,
}

/// What has happened.
#[derive(Debug)]
pub enum Input {
    /// Begin, unless the run has been cancelled already, with what was found for the
    /// user's words.
    Go { warning: WarningLevel, cancelled: bool, routing: Option<Routing> },
    /// Whether the run has been cancelled, how the turn has run out of its
    /// budget, and the model with its limits.
    Round {
        cancelled: bool,
        breach: Option<String>,
        model: String,
        context_limit: u32,
        reserved_output: u32,
    },
    /// The model has answered; the conversation has so many messages, and the
    /// reasoning in the answer took so long.
    Reply { reply: ModelReply, history_len: usize, reasoning_ms: u64 },
    /// The model could not be asked.
    Failed { error: String },
    /// The conversation is smaller now.
    Shrunk,
    /// The critic has judged.
    Judged { verdict: Verdict },
    /// The tools have run, and their results are in the conversation.
    ToolsDone,
    /// The summary, if the model could be asked.
    Summary { text: Option<String> },
    /// Whether the run has been cancelled.
    Checked { cancelled: bool },
    /// The answer that takes the place of the other one, if one does.
    Voted { winner: Option<String> },
}

/// Why a run gives no answer.
#[derive(Debug)]
pub enum RunError {
    Cancelled,
    /// The model could not be asked.
    Provider(String),
    /// The model ended in a way that it may not.
    Stopped(String),
}

/// What to do next.
#[derive(Debug)]
pub enum Action {
    /// Look whether a round may begin.
    CheckRound,
    /// Ask the model, with tools.
    AskModel,
    /// Make the conversation smaller.
    Shrink,
    /// Show the answer to the critic.
    AskCritic,
    /// Run the tools.
    RunTools { calls: Vec<ToolUse> },
    /// Ask the model for a summary, without tools.
    AskSummary,
    /// Look whether the run has been cancelled.
    CheckCancelled,
    /// Verify the answer.
    Verify,
    /// Give the answer, and remember what is worth it.
    Finish { answer: String, memories: Vec<String> },
    /// Give up.
    Fail { error: RunError },
}

/// The model of a [`RunError`].
pub enum ErrorModel {
    Cancelled,
    Provider(Seq<char>),
    Stopped(Seq<char>),
}

/// The model of an [`Action`].
pub enum ActionModel {
    CheckRound,
    AskModel,
    Shrink,
    AskCritic,
    RunTools { calls: Seq<ToolUse> },
    AskSummary,
    CheckCancelled,
    Verify,
    Finish { answer: Seq<char>, memories: Seq<Seq<char>> },
    Fail { error: ErrorModel },
}

impl View for RunError {
    type V = ErrorModel;

    open spec fn view(&self) -> ErrorModel {
        match self {
            RunError::Cancelled => ErrorModel::Cancelled,
            RunError::Provider(e) => ErrorModel::Provider(e@),
            RunError::Stopped(e) => ErrorModel::Stopped(e@),
        }
    }
}

impl View for Action {
    type V = ActionModel;

    open spec fn view(&self) -> ActionModel {
        match self {
            Action::CheckRound => ActionModel::CheckRound,
            Action::AskModel => ActionModel::AskModel,
            Action::Shrink => ActionModel::Shrink,
            Action::AskCritic => ActionModel::AskCritic,
            Action::RunTools { calls } => ActionModel::RunTools { calls: calls@ },
            Action::AskSummary => ActionModel::AskSummary,
            Action::CheckCancelled => ActionModel::CheckCancelled,
            Action::Verify => ActionModel::Verify,
            Action::Finish { answer, memories } => ActionModel::Finish {
                answer: answer@,
                memories: texts(memories@),
            },
            Action::Fail { error } => ActionModel::Fail { error: error@ },
        }
    }
}

/// A run, what it waits for, what the user said, and whether answers are
/// verified.
#[derive(Debug)]
pub struct RunMachine {
    pub run: AgentRun,
    pub stage: Stage,
    pub user_input: String,
    pub verifies: bool,
}

/// The model of a [`RunMachine`].
pub struct MachineModel {
    pub run: RunModel,
    pub stage: Stage,
    pub user_input: Seq<char>,
    pub verifies: bool,
}

impl View for RunMachine {
    type V = MachineModel;

    open spec fn view(&self) -> MachineModel {
        MachineModel {
            run: self.run@,
            stage: self.stage,
            user_input: self.user_input@,
            verifies: self.verifies,
        }
    }
}

impl MachineModel {
    /// No more rounds have begun than may; an answer comes in a round; and the
    /// critic judges only as often as it may.
    pub open spec fn wf(self) -> bool {
        &&& self.run.rounds <= self.run.config.max_tool_rounds
        &&& self.stage is Asking || self.stage is Shrinking || self.stage is Judging
            || self.stage is Tools ==> self.run.rounds > 0
        &&& self.stage is Judging ==> critic_due(self.run)
    }

    /// The machine waits for this, and what it counts can be counted.
    pub open spec fn accepts(self, input: Input) -> bool {
        match input {
            Input::Go { cancelled, .. } => self.stage is Start && (cancelled
                || self.run.budget.used_input + self.run.budget.used_output <= u32::MAX),
            Input::Round { .. } => self.stage is Round && self.run.next_step < u64::MAX,
            Input::Reply { reply, .. } => self.stage is Asking && reply_fits(
                self.run,
                reply.usage,
            ),
            Input::Failed { .. } => self.stage is Asking,
            Input::Shrunk => self.stage is Shrinking,
            Input::Judged { .. } => self.stage is Judging,
            Input::ToolsDone => self.stage is Tools,
            Input::Summary { .. } => self.stage is Summarising,
            Input::Checked { .. } => self.stage is Checking,
            Input::Voted { .. } => self.stage is Verifying,
        }
    }
}

/// What follows: the machine, what is told, what is added to the conversation,
/// and what to do next.
pub struct StepModel {
    pub machine: MachineModel,
    pub events: Seq<EventModel>,
    pub append: Option<MessageModel>,
    pub action: ActionModel,
}

/// What the driver is told.
#[derive(Debug)]
pub struct MachineStep {
    pub events: Vec<AgentEvent>,
    pub append: Option<Message>,
    pub action: Action,
}

/// A machine in another state.
pub open spec fn moved(m: MachineModel, run: RunModel, stage: Stage) -> MachineModel {
    MachineModel { run, stage, ..m }
}

/// The run ends with its answer.
pub open spec fn finished(
    m: MachineModel,
    run: RunModel,
    events: Seq<EventModel>,
    append: Option<MessageModel>,
) -> StepModel {
    StepModel {
        machine: moved(m, RunModel { phase: SessionPhase::Idle, ..run }, Stage::Over),
        events: events + seq![EventModel::SessionPhaseChanged { phase: SessionPhase::Idle }],
        append,
        action: ActionModel::Finish {
            answer: run.final_text,
            memories: if run.final_text.len() > 0 {
                memories(m.user_input, run.final_text)
            } else {
                Seq::empty()
            },
        },
    }
}

/// The run has its answer, which is verified if answers are.
pub open spec fn settled(
    m: MachineModel,
    run: RunModel,
    events: Seq<EventModel>,
    append: Option<MessageModel>,
) -> StepModel {
    if m.verifies && run.final_text.len() > 0 {
        StepModel {
            machine: moved(m, run, Stage::Checking),
            events,
            append,
            action: ActionModel::CheckCancelled,
        }
    } else {
        finished(m, run, events, append)
    }
}

/// The rounds are over: the last step ends, and an answer that is missing is
/// asked for.
#[verifier::opaque]
pub open spec fn left_loop(
    m: MachineModel,
    run: RunModel,
    events: Seq<EventModel>,
    append: Option<MessageModel>,
) -> StepModel {
    let closed = RunModel { active_step: None, ..run };
    let told = events + (match run.active_step {
        Some(prev) => seq![EventModel::StepCompleted { step_id: prev, ok: true }],
        None => Seq::empty(),
    });
    if run.final_text.len() == 0 {
        StepModel {
            machine: moved(m, closed, Stage::Summarising),
            events: told,
            append,
            action: ActionModel::AskSummary,
        }
    } else {
        settled(m, closed, told, append)
    }
}

/// What follows from what is to be done after an answer.
#[verifier::opaque]
pub open spec fn followed(
    m: MachineModel,
    run: RunModel,
    events: Seq<EventModel>,
    append: Option<MessageModel>,
    next: ReplyNext,
    reply: ModelReply,
) -> StepModel {
    match next {
        ReplyNext::AskCritic => StepModel {
            machine: moved(m, run, Stage::Judging { reply }),
            events,
            append,
            action: ActionModel::AskCritic,
        },
        ReplyNext::LeaveLoop => left_loop(m, run, events, append),
        ReplyNext::RunTools => StepModel {
            machine: moved(m, run, Stage::Tools),
            events,
            append,
            action: ActionModel::RunTools { calls: reply.tool_calls@ },
        },
        ReplyNext::NextRound => StepModel {
            machine: moved(m, run, Stage::Round),
            events,
            append,
            action: ActionModel::CheckRound,
        },
        ReplyNext::ProviderError => StepModel {
            machine: moved(m, run, Stage::Over),
            events,
            append,
            action: ActionModel::Fail { error: ErrorModel::Stopped(stop_error_text()) },
        },
        ReplyNext::ReservedStop => StepModel {
            machine: moved(m, run, Stage::Over),
            events,
            append,
            action: ActionModel::Fail { error: ErrorModel::Stopped(reserved_stop_text()) },
        },
    }
}

/// What follows an answer, after `events`.
pub open spec fn replied(
    m: MachineModel,
    run: RunModel,
    events: Seq<EventModel>,
    reply: ModelReply,
    reasoning_ms: u64,
) -> StepModel {
    let s = reply_step(run, reply);
    followed(
        m,
        s.run,
        events + reasoning_events(reply.content@, reasoning_ms) + s.events,
        s.append,
        s.next,
        reply,
    )
}

/// The run and what is told once a model with these limits is about to be asked.
pub open spec fn with_model(
    run: RunModel,
    model: Seq<char>,
    context_limit: u32,
    reserved_output: u32,
) -> (RunModel, Seq<EventModel>) {
    let after = RunModel {
        budget: TokenBudget { context_limit, reserved_output, ..run.budget },
        ..run
    };
    if after.budget == run.budget {
        (after, Seq::empty())
    } else {
        (
            after,
            seq![EventModel::BudgetUpdated { model_id: model, context_limit, reserved_output }],
        )
    }
}

/// What follows once it is known whether a round may begin.
pub open spec fn round_checked(
    m: MachineModel,
    cancelled: bool,
    breach: Option<Seq<char>>,
    model: Seq<char>,
    context_limit: u32,
    reserved_output: u32,
) -> StepModel {
    let s = round_start(m.run, cancelled, breach);
    match s.next {
        RoundNext::OutOfRounds | RoundNext::BreakerTripped => left_loop(m, s.run, s.events, None),
        RoundNext::Cancelled => StepModel {
            machine: moved(m, s.run, Stage::Over),
            events: s.events,
            append: None,
            action: ActionModel::Fail { error: ErrorModel::Cancelled },
        },
        RoundNext::BudgetExceeded => StepModel {
            machine: moved(m, s.run, Stage::Over),
            events: s.events,
            append: Some(plain_message("assistant"@, breach->0)),
            action: ActionModel::Finish { answer: breach->0, memories: Seq::empty() },
        },
        RoundNext::Ask => {
            let (run, told) = with_model(s.run, model, context_limit, reserved_output);
            StepModel {
                machine: moved(m, run, Stage::Asking),
                events: s.events + told,
                append: None,
                action: ActionModel::AskModel,
            }
        },
    }
}

/// What follows what has happened.
pub open spec fn transition(m: MachineModel, input: Input) -> StepModel {
    match input {
        Input::Go { warning, cancelled, routing } => if cancelled {
            StepModel {
                machine: moved(m, m.run, Stage::Over),
                events: Seq::empty(),
                append: None,
                action: ActionModel::Fail { error: ErrorModel::Cancelled },
            }
        } else {
            StepModel {
                machine: moved(m, RunModel { phase: SessionPhase::Running, ..m.run }, Stage::Round),
                events: beginning(m.run.budget, warning, routing),
                append: Some(plain_message("user"@, m.user_input)),
                action: ActionModel::CheckRound,
            }
        },
        Input::Round { cancelled, breach, model, context_limit, reserved_output } => round_checked(
            m,
            cancelled,
            opt_text(breach),
            model@,
            context_limit,
            reserved_output,
        ),
        Input::Reply { reply, history_len, reasoning_ms } => {
            let run = after_reply(m.run, reply.usage);
            let told = delta_events(reply.content@) + logprob_events(reply.logprobs);
            if compaction_due(run, history_len as nat) {
                StepModel {
                    machine: moved(m, run, Stage::Shrinking { reply, reasoning_ms }),
                    events: told,
                    append: None,
                    action: ActionModel::Shrink,
                }
            } else {
                replied(m, run, told, reply, reasoning_ms)
            }
        },
        Input::Failed { error } => StepModel {
            machine: moved(m, RunModel { phase: SessionPhase::Idle, ..m.run }, Stage::Over),
            events: provider_error_events(error@),
            append: None,
            action: ActionModel::Fail { error: ErrorModel::Provider(error@) },
        },
        Input::Shrunk => replied(
            m,
            m.run,
            Seq::empty(),
            m.stage->Shrinking_reply,
            m.stage->reasoning_ms,
        ),
        Input::Judged { verdict } => {
            let reply = m.stage->Judging_reply;
            let s = verdict_step(m.run, reply, verdict);
            followed(m, s.run, s.events, s.append, s.next, reply)
        },
        Input::ToolsDone => StepModel {
            machine: moved(m, m.run, Stage::Round),
            events: Seq::empty(),
            append: None,
            action: ActionModel::CheckRound,
        },
        Input::Summary { text } => {
            let fallback = exhausted_text(
                m.run.config.max_tool_rounds as nat,
                m.run.tool_sequence,
            );
            match opt_text(text) {
                Some(s) => if s.len() > 0 {
                    settled(m, RunModel { final_text: s, ..m.run }, delta_events(s), None)
                } else {
                    settled(
                        m,
                        RunModel { final_text: fallback, ..m.run },
                        seq![EventModel::TextDelta { text: fallback }],
                        None,
                    )
                },
                None => settled(
                    m,
                    RunModel { final_text: fallback, ..m.run },
                    seq![EventModel::TextDelta { text: fallback }],
                    None,
                ),
            }
        },
        Input::Checked { cancelled } => if cancelled {
            finished(m, m.run, Seq::empty(), None)
        } else {
            StepModel {
                machine: moved(m, m.run, Stage::Verifying),
                events: Seq::empty(),
                append: None,
                action: ActionModel::Verify,
            }
        },
        Input::Voted { winner } => finished(
            m,
            match winner {
                Some(w) => RunModel { final_text: w@, ..m.run },
                None => m.run,
            },
            Seq::empty(),
            None,
        ),
    }
}

/// The machine and the step are what is to follow.
pub open spec fn is_step(r: (RunMachine, MachineStep), s: StepModel) -> bool {
    &&& r.0@ == s.machine
    &&& event_models(r.1.events@) == s.events
    &&& opt_message(r.1.append) == s.append
    &&& r.1.action@ == s.action
}

/// What follows depends on the run that is given, not on that of the machine.
proof fn lemma_frame(a: MachineModel, b: MachineModel)
    requires
        a.user_input == b.user_input,
        a.verifies == b.verifies,
    ensures
        forall|run: RunModel, events: Seq<EventModel>, append: Option<MessageModel>|
            #![trigger left_loop(a, run, events, append)]
            #![trigger left_loop(b, run, events, append)]
            left_loop(a, run, events, append) == left_loop(b, run, events, append),
        forall|
            run: RunModel,
            events: Seq<EventModel>,
            append: Option<MessageModel>,
            next: ReplyNext,
            reply: ModelReply,
        |
            #![trigger followed(a, run, events, append, next, reply)]
            #![trigger followed(b, run, events, append, next, reply)]
            followed(a, run, events, append, next, reply) == followed(
                b,
                run,
                events,
                append,
                next,
                reply,
            ),
{
    reveal(left_loop);
    reveal(followed);
}

fn add_events(out: &mut Vec<AgentEvent>, more: Vec<AgentEvent>)
    ensures
        event_models(final(out)@) == event_models(old(out)@) + event_models(more@),
{
    let ghost before = out@;
    let ghost all = more@;
    let mut more = more;
    out.append(&mut more);
    assert(event_models(before + all) =~= event_models(before) + event_models(all));
}

impl RunMachine {
    /// A run that has not begun.
    pub fn new(
        config: RunConfig,
        budget: TokenBudget,
        turn_count: u32,
        next_step: u64,
        user_input: &str,
        verifies: bool,
    ) -> (r: RunMachine)
        ensures
            r@.stage == Stage::Start,
            r@.user_input == user_input@,
            r@.verifies == verifies,
            r@.run == (RunModel {
                config,
                rounds: 0,
                consecutive_failures: 0,
                tool_sequence: Seq::empty(),
                critic_iters: 0,
                active_step: None,
                next_step: next_step as nat,
                final_text: Seq::empty(),
                budget,
                turn_count: turn_count as nat,
                phase: SessionPhase::Idle,
            }),
            r@.wf(),
    {
        RunMachine {
            run: AgentRun::new(config, budget, turn_count, next_step),
            stage: Stage::Start,
            user_input: user_input.to_owned(),
            verifies,
        }
    }

    fn into_finished(self, events: Vec<AgentEvent>, append: Option<Message>) -> (r: (
        RunMachine,
        MachineStep,
    ))
        ensures
            is_step(
                r,
                finished(self@, self@.run, event_models(events@), opt_message(append)),
            ),
    {
        let mut m = self;
        let mut events = events;
        let told = m.run.end();
        add_events(&mut events, told);
        let answer = m.run.final_text.clone();
        let memories = if answer.as_str().is_empty() {
            let none: Vec<String> = Vec::new();
            assert(texts(none@) =~= Seq::<Seq<char>>::empty());
            none
        } else {
            extract_memories(m.user_input.as_str(), answer.as_str())
        };
        m.stage = Stage::Over;
        (m, MachineStep { events, append, action: Action::Finish { answer, memories } })
    }

    fn into_settled(self, events: Vec<AgentEvent>, append: Option<Message>) -> (r: (
        RunMachine,
        MachineStep,
    ))
        ensures
            is_step(
                r,
                settled(self@, self@.run, event_models(events@), opt_message(append)),
            ),
    {
        if self.verifies && !self.run.final_text.as_str().is_empty() {
            let mut m = self;
            m.stage = Stage::Checking;
            (m, MachineStep { events, append, action: Action::CheckCancelled })
        } else {
            self.into_finished(events, append)
        }
    }

    fn into_left_loop(self, events: Vec<AgentEvent>, append: Option<Message>) -> (r: (
        RunMachine,
        MachineStep,
    ))
        ensures
            is_step(
                r,
                left_loop(self@, self@.run, event_models(events@), opt_message(append)),
            ),
    {
        reveal(left_loop);
        let mut m = self;
        let mut events = events;
        let told = m.run.close_step();
        add_events(&mut events, told);
        if m.run.needs_summary() {
            m.stage = Stage::Summarising;
            (m, MachineStep { events, append, action: Action::AskSummary })
        } else {
            m.into_settled(events, append)
        }
    }

    /// The answer has been dealt with; `events` have been told before `done`.
    fn into_followed(self, events: Vec<AgentEvent>, done: ReplyActions, reply: ModelReply) -> (r: (
        RunMachine,
        MachineStep,
    ))
        ensures
            is_step(
                r,
                followed(
                    self@,
                    self@.run,
                    event_models(events@) + event_models(done.events@),
                    opt_message(done.append),
                    done.next,
                    reply,
                ),
            ),
    {
        reveal(followed);
        let mut m = self;
        let mut events = events;
        let append = done.append;
        add_events(&mut events, done.events);
        match done.next {
            ReplyNext::AskCritic => {
                m.stage = Stage::Judging { reply };
                (m, MachineStep { events, append, action: Action::AskCritic })
            },
            ReplyNext::LeaveLoop => m.into_left_loop(events, append),
            ReplyNext::RunTools => {
                m.stage = Stage::Tools;
                let action = Action::RunTools { calls: reply.tool_calls };
                (m, MachineStep { events, append, action })
            },
            ReplyNext::NextRound => {
                m.stage = Stage::Round;
                (m, MachineStep { events, append, action: Action::CheckRound })
            },
            ReplyNext::ProviderError | ReplyNext::ReservedStop => {
                m.stage = Stage::Over;
                let error = match stop_error(done.next) {
                    Some(text) => RunError::Stopped(text),
                    None => RunError::Cancelled,
                };
                (m, MachineStep { events, append, action: Action::Fail { error } })
            },
        }
    }

    fn into_replied(self, events: Vec<AgentEvent>, reply: ModelReply, reasoning_ms: u64) -> (r: (
        RunMachine,
        MachineStep,
    ))
        requires
            self@.run.rounds > 0,
        ensures
            is_step(r, replied(self@, self@.run, event_models(events@), reply, reasoning_ms)),
    {
        let mut m = self;
        let mut events = events;
        let told = m.run.reasoning_shown(reply.content.as_str(), reasoning_ms);
        add_events(&mut events, told);
        let done = m.run.answered(&reply);
        proof {
            lemma_frame(self@, m@);
        }
        m.into_followed(events, done, reply)
    }

    fn into_round(
        self,
        cancelled: bool,
        breach: Option<String>,
        model: String,
        context_limit: u32,
        reserved_output: u32,
    ) -> (r: (RunMachine, MachineStep))
        requires
            self@.run.next_step < u64::MAX,
        ensures
            is_step(
                r,
                round_checked(
                    self@,
                    cancelled,
                    opt_text(breach),
                    model@,
                    context_limit,
                    reserved_output,
                ),
            ),
    {
        let mut m = self;
        let (told, next) = match &breach {
            Some(text) => m.run.begin_round(cancelled, Some(text.as_str())),
            None => m.run.begin_round(cancelled, None),
        };
        proof {
            lemma_frame(self@, m@);
        }
        match next {
            RoundNext::OutOfRounds | RoundNext::BreakerTripped => m.into_left_loop(told, None),
            RoundNext::Cancelled => {
                m.stage = Stage::Over;
                let action = Action::Fail { error: RunError::Cancelled };
                (m, MachineStep { events: told, append: None, action })
            },
            RoundNext::BudgetExceeded => {
                m.stage = Stage::Over;
                let answer = match breach {
                    Some(text) => text,
                    None => String::new(),
                };
                let append = Some(Message::assistant(answer.as_str()));
                let none: Vec<String> = Vec::new();
                assert(texts(none@) =~= Seq::<Seq<char>>::empty());
                let action = Action::Finish { answer, memories: none };
                (m, MachineStep { events: told, append, action })
            },
            RoundNext::Ask => {
                let mut events = told;
                let more = m.run.model_applied(model.as_str(), context_limit, reserved_output);
                add_events(&mut events, more);
                m.stage = Stage::Asking;
                (m, MachineStep { events, append: None, action: Action::AskModel })
            },
        }
    }

    /// Something has happened.
    pub fn advance(self, input: Input) -> (r: (RunMachine, MachineStep))
        requires
            self@.wf(),
            self@.accepts(input),
        ensures
            is_step(r, transition(self@, input)),
            r.0@.wf(),
    {
        proof {
            law_machines_stay_well_formed(self@, input);
        }
        let ghost before = self@;
        let mut m = self;
        match input {
            Input::Go { warning, cancelled, routing } => {
                if cancelled {
                    m.stage = Stage::Over;
                    let action = Action::Fail { error: RunError::Cancelled };
                    return (m, MachineStep { events: Vec::new(), append: None, action });
                }
                let events = m.run.begin(warning, routing);
                let append = Some(Message::user(m.user_input.as_str()));
                m.stage = Stage::Round;
                (m, MachineStep { events, append, action: Action::CheckRound })
            },
            Input::Round { cancelled, breach, model, context_limit, reserved_output } => {
                m.into_round(cancelled, breach, model, context_limit, reserved_output)
            },
            Input::Reply { reply, history_len, reasoning_ms } => {
                let told = m.run.reply_received(&reply);
                if m.run.should_compact(history_len) {
                    m.stage = Stage::Shrinking { reply, reasoning_ms };
                    (m, MachineStep { events: told, append: None, action: Action::Shrink })
                } else {
                    proof {
                        lemma_frame(before, m@);
                    }
                    m.into_replied(told, reply, reasoning_ms)
                }
            },
            Input::Failed { error } => {
                let events = m.run.provider_failed(error.as_str());
                m.stage = Stage::Over;
                let action = Action::Fail { error: RunError::Provider(error) };
                (m, MachineStep { events, append: None, action })
            },
            Input::Shrunk => {
                let RunMachine { run, stage, user_input, verifies } = m;
                match stage {
                    Stage::Shrinking { reply, reasoning_ms } => {
                        let m = RunMachine { run, stage: Stage::Round, user_input, verifies };
                        proof {
                            lemma_frame(before, m@);
                        }
                        m.into_replied(Vec::new(), reply, reasoning_ms)
                    },
                    _ => vstd::pervasive::unreached(),
                }
            },
            Input::Judged { verdict } => {
                let RunMachine { run, stage, user_input, verifies } = m;
                match stage {
                    Stage::Judging { reply } => {
                        let mut m = RunMachine { run, stage: Stage::Round, user_input, verifies };
                        let done = m.run.judged(&reply, &verdict);
                        proof {
                            lemma_frame(before, m@);
                            assert(Seq::<EventModel>::empty() + event_models(done.events@)
                                =~= event_models(done.events@));
                        }
                        m.into_followed(Vec::new(), done, reply)
                    },
                    _ => vstd::pervasive::unreached(),
                }
            },
            Input::ToolsDone => {
                m.stage = Stage::Round;
                (
                    m,
                    MachineStep { events: Vec::new(), append: None, action: Action::CheckRound },
                )
            },
            Input::Summary { text } => {
                let told = match &text {
                    Some(s) => m.run.summarised(Some(s.as_str())),
                    None => m.run.summarised(None),
                };
                m.into_settled(told, None)
            },
            Input::Checked { cancelled } => {
                if cancelled {
                    m.into_finished(Vec::new(), None)
                } else {
                    m.stage = Stage::Verifying;
                    (
                        m,
                        MachineStep { events: Vec::new(), append: None, action: Action::Verify },
                    )
                }
            },
            Input::Voted { winner } => {
                match &winner {
                    Some(w) => m.run.verified(Some(w.as_str())),
                    None => m.run.verified(None),
                }
                m.into_finished(Vec::new(), None)
            },
        }
    }
}

// ── Laws ───────────────────────────────────────────────────────────────────
/// The machine goes on from `run` without a new round.
spec fn goes_on(s: StepModel, run: RunModel) -> bool {
    &&& s.machine.run.rounds == run.rounds
    &&& s.machine.run.config == run.config
    &&& s.machine.run.critic_iters == run.critic_iters
    &&& s.machine.stage is Over <==> s.action is Finish || s.action is Fail
    &&& !(s.action is AskModel)
}

proof fn lemma_left_loop(
    m: MachineModel,
    run: RunModel,
    events: Seq<EventModel>,
    append: Option<MessageModel>,
)
    ensures
        goes_on(left_loop(m, run, events, append), run),
        ({
            let stage = left_loop(m, run, events, append).machine.stage;
            stage is Summarising || stage is Checking || stage is Over
        }),
{
    reveal(left_loop);
}

proof fn lemma_followed(
    m: MachineModel,
    run: RunModel,
    events: Seq<EventModel>,
    append: Option<MessageModel>,
    next: ReplyNext,
    reply: ModelReply,
)
    ensures
        goes_on(followed(m, run, events, append, next, reply), run),
        ({
            let stage = followed(m, run, events, append, next, reply).machine.stage;
            match next {
                ReplyNext::AskCritic => stage is Judging,
                ReplyNext::RunTools => stage is Tools,
                ReplyNext::NextRound => stage is Round,
                _ => stage is Summarising || stage is Checking || stage is Over,
            }
        }),
{
    reveal(followed);
    lemma_left_loop(m, run, events, append);
}

/// What follows an answer.
proof fn lemma_replied(
    m: MachineModel,
    run: RunModel,
    events: Seq<EventModel>,
    reply: ModelReply,
    reasoning_ms: u64,
)
    ensures
        goes_on(replied(m, run, events, reply, reasoning_ms), run),
        ({
            let stage = replied(m, run, events, reply, reasoning_ms).machine.stage;
            ||| stage is Judging && critic_due(run)
            ||| stage is Tools
            ||| stage is Summarising
            ||| stage is Checking
            ||| stage is Over
        }),
{
    let s = reply_step(run, reply);
    lemma_followed(
        m,
        s.run,
        events + reasoning_events(reply.content@, reasoning_ms) + s.events,
        s.append,
        s.next,
        reply,
    );
}

/// What follows a verdict.
proof fn lemma_judged(m: MachineModel, reply: ModelReply, verdict: Verdict)
    ensures
        ({
            let s = verdict_step(m.run, reply, verdict);
            let t = followed(m, s.run, s.events, s.append, s.next, reply);
            &&& goes_on(t, s.run)
            &&& s.run.rounds == m.run.rounds
            &&& s.run.config == m.run.config
            &&& t.machine.stage is Round || t.machine.stage is Summarising
                || t.machine.stage is Checking || t.machine.stage is Over
        }),
{
    let s = verdict_step(m.run, reply, verdict);
    lemma_followed(m, s.run, s.events, s.append, s.next, reply);
}

/// What follows a look at the round.
proof fn lemma_round_checked(
    m: MachineModel,
    cancelled: bool,
    breach: Option<Seq<char>>,
    model: Seq<char>,
    context_limit: u32,
    reserved_output: u32,
)
    requires
        m.run.rounds <= m.run.config.max_tool_rounds,
    ensures
        ({
            let s = round_checked(m, cancelled, breach, model, context_limit, reserved_output);
            &&& s.machine.run.config == m.run.config
            &&& m.run.rounds <= s.machine.run.rounds <= m.run.config.max_tool_rounds
            &&& s.machine.stage is Over <==> s.action is Finish || s.action is Fail
            &&& s.machine.stage is Asking <==> s.action is AskModel
            &&& s.machine.stage is Asking ==> {
                &&& s.machine.run.rounds == m.run.rounds + 1
                &&& !cancelled
                &&& breach is None
                &&& m.run.consecutive_failures < BREAKER_FAILURES
            }
            &&& s.machine.stage is Asking || s.machine.stage is Summarising
                || s.machine.stage is Checking || s.machine.stage is Over
        }),
{
    let s = round_start(m.run, cancelled, breach);
    lemma_left_loop(m, s.run, s.events, None);
}

/// The lemmas that are of use for an input.
proof fn lemma_parts(m: MachineModel, input: Input)
    requires
        m.wf(),
    ensures
        ({
            let s = transition(m, input);
            let same = s.machine.run.rounds == m.run.rounds && s.machine.run.config
                == m.run.config && (s.machine.stage is Over <==> s.action is Finish
                || s.action is Fail) && !(s.action is AskModel);
            let ends = s.machine.stage is Summarising || s.machine.stage is Checking
                || s.machine.stage is Over;
            match input {
                Input::Go { cancelled, .. } => same && if cancelled {
                    s.machine.stage is Over
                } else {
                    s.machine.stage is Round
                },
                Input::Round { cancelled, breach, .. } => {
                    &&& s.machine.run.config == m.run.config
                    &&& m.run.rounds <= s.machine.run.rounds <= m.run.config.max_tool_rounds
                    &&& s.machine.stage is Over <==> s.action is Finish || s.action is Fail
                    &&& s.machine.stage is Asking <==> s.action is AskModel
                    &&& s.machine.stage is Asking ==> {
                        &&& s.machine.run.rounds == m.run.rounds + 1
                        &&& !cancelled
                        &&& breach is None
                        &&& m.run.consecutive_failures < BREAKER_FAILURES
                    }
                    &&& s.machine.stage is Asking || ends
                },
                Input::Reply { .. } => {
                    &&& same
                    &&& s.machine.stage is Judging ==> critic_due(s.machine.run)
                    &&& s.machine.stage is Shrinking || s.machine.stage is Judging
                        || s.machine.stage is Tools || ends
                },
                Input::Failed { .. } => same && s.machine.stage is Over,
                Input::Shrunk => {
                    &&& same
                    &&& s.machine.stage is Judging ==> critic_due(s.machine.run)
                    &&& s.machine.stage is Judging || s.machine.stage is Tools || ends
                },
                Input::Judged { .. } => same && (s.machine.stage is Round || ends),
                Input::ToolsDone => same && s.machine.stage is Round,
                Input::Summary { .. } => same && (s.machine.stage is Checking
                    || s.machine.stage is Over),
                Input::Checked { .. } => same && (s.machine.stage is Verifying
                    || s.machine.stage is Over),
                Input::Voted { .. } => same && s.machine.stage is Over,
            }
        }),
{
    match input {
        Input::Round { cancelled, breach, model, context_limit, reserved_output } => {
            lemma_round_checked(
                m,
                cancelled,
                opt_text(breach),
                model@,
                context_limit,
                reserved_output,
            );
        },
        Input::Reply { reply, reasoning_ms, .. } => {
            lemma_replied(
                m,
                after_reply(m.run, reply.usage),
                delta_events(reply.content@) + logprob_events(reply.logprobs),
                reply,
                reasoning_ms,
            );
        },
        Input::Shrunk => {
            lemma_replied(
                m,
                m.run,
                Seq::empty(),
                m.stage->Shrinking_reply,
                m.stage->reasoning_ms,
            );
        },
        Input::Judged { verdict } => {
            lemma_judged(m, m.stage->Judging_reply, verdict);
        },
        _ => {},
    }
}

/// Whatever happens, no more rounds begin than may, an answer comes in a round,
/// and the critic judges only as often as it may.
pub proof fn law_machines_stay_well_formed(m: MachineModel, input: Input)
    requires
        m.wf(),
        m.accepts(input),
    ensures
        transition(m, input).machine.wf(),
{
    lemma_parts(m, input);
}

/// How much of a run is left at most: the rounds that may still begin, and what
/// is left of the present one.
pub open spec fn left_to_do(m: MachineModel) -> int {
    8 * (m.run.config.max_tool_rounds - m.run.rounds) + (match m.stage {
        Stage::Start => 9int,
        Stage::Round => 8,
        Stage::Asking => 12,
        Stage::Shrinking { .. } => 11,
        Stage::Judging { .. } => 10,
        Stage::Tools => 9,
        Stage::Summarising => 3,
        Stage::Checking => 2,
        Stage::Verifying => 1,
        Stage::Over => 0,
    })
}

/// Every run comes to an end: whatever happens, less of it is left.
pub proof fn law_runs_end(m: MachineModel, input: Input)
    requires
        m.wf(),
        m.accepts(input),
    ensures
        0 <= left_to_do(transition(m, input).machine) < left_to_do(m),
{
    lemma_parts(m, input);
}

/// A run is over exactly when it gives its answer or gives up, and then nothing
/// more can happen.
pub proof fn law_over_is_over(m: MachineModel, input: Input)
    requires
        m.wf(),
        m.accepts(input),
    ensures
        ({
            let s = transition(m, input);
            &&& s.machine.stage is Over <==> s.action is Finish || s.action is Fail
            &&& s.machine.stage is Over ==> forall|next: Input| !s.machine.accepts(next)
        }),
{
    lemma_parts(m, input);
}

/// A run that has been cancelled before it begins changes nothing: nothing is
/// told, nothing is added to the conversation, and the run is as it was.
pub proof fn law_cancelled_runs_do_not_begin(
    m: MachineModel,
    warning: WarningLevel,
    routing: Option<Routing>,
)
    requires
        m.wf(),
        m.accepts(Input::Go { warning, cancelled: true, routing }),
    ensures
        ({
            let s = transition(m, Input::Go { warning, cancelled: true, routing });
            &&& s.machine.run == m.run
            &&& s.machine.stage is Over
            &&& s.events.len() == 0
            &&& s.append is None
            &&& s.action == ActionModel::Fail { error: ErrorModel::Cancelled }
        }),
{
}

/// The model is asked with tools only at the beginning of a round of its own, and
/// only if the run has neither been cancelled nor run out of its budget, nor
/// failed too often.
pub proof fn law_asking_takes_a_round(m: MachineModel, input: Input)
    requires
        m.wf(),
        m.accepts(input),
        transition(m, input).action is AskModel,
    ensures
        transition(m, input).machine.run.rounds == m.run.rounds + 1,
        m.run.consecutive_failures < BREAKER_FAILURES,
        input matches Input::Round { cancelled, breach, .. } && !cancelled && breach is None,
{
    lemma_parts(m, input);
}

/// The answer that an input brings up: one that has come, or one that waited until
/// the conversation was smaller.
pub open spec fn reply_in(m: MachineModel, input: Input) -> Option<ModelReply> {
    match input {
        Input::Reply { reply, .. } => Some(reply),
        Input::Shrunk => Some(m.stage->Shrinking_reply),
        _ => None,
    }
}

/// The tools that are run are those that the answer calls for, all of them and in
/// their order, and the message that is added to the conversation says what the
/// answer said and holds exactly these calls.
pub proof fn law_calls_are_added_before_they_are_run(m: MachineModel, input: Input)
    requires
        m.wf(),
        m.accepts(input),
    ensures
        ({
            let s = transition(m, input);
            s.action matches ActionModel::RunTools { calls } ==> {
                let reply = reply_in(m, input)->0;
                &&& reply_in(m, input) is Some
                &&& reply.stop_reason == StopReason::ToolUse
                &&& calls.len() > 0
                &&& calls == reply.tool_calls@
                &&& s.append matches Some(said) && {
                    &&& said.role == "assistant"@
                    &&& said.content == reply.content@
                    &&& said.tool_result is None
                    &&& said.tool_calls.len() == calls.len()
                    &&& forall|i: int|
                        0 <= i < calls.len() ==> #[trigger] said.tool_calls[i] == calls[i]
                }
            }
        }),
{
    reveal(followed);
    reveal(left_loop);
}

/// The message with the calls and the results that answer them, one for each call
/// and in their order, are one unit of the conversation.
pub proof fn law_calls_and_results_are_one_unit(
    m: MachineModel,
    input: Input,
    history: Seq<MessageModel>,
    results: Seq<MessageModel>,
)
    requires
        m.wf(),
        m.accepts(input),
        transition(m, input).action is RunTools,
        results.len() == transition(m, input).action->calls.len(),
        forall|k: int|
            0 <= k < results.len() ==> {
                &&& (#[trigger] results[k]).role == "tool"@
                &&& results[k].tool_result is Some
                &&& results[k].tool_result->0.tool_use_id is Some
                &&& results[k].tool_result->0.tool_use_id->0@ == transition(
                    m,
                    input,
                ).action->calls[k].id@
            },
    ensures
        ({
            let all = history.push(transition(m, input).append->0) + results;
            unit_end(message_links(all), history.len() as int) == all.len()
        }),
{
    law_calls_are_added_before_they_are_run(m, input);
    let said = transition(m, input).append->0;
    let all = history.push(said) + results;
    let at = history.len() as int;
    assert(all[at] == said);
    assert forall|k: int|
        #![trigger all[at + 1 + k]]
        0 <= k < all[at].tool_calls.len() implies {
        let r = all[at + 1 + k];
        &&& r.role == "tool"@
        &&& r.tool_result is Some
        &&& r.tool_result->0.tool_use_id is Some
        &&& r.tool_result->0.tool_use_id->0@ == all[at].tool_calls[k].id@
    } by {
        assert(all[at + 1 + k] == results[k]);
    }
    law_a_batch_is_one_unit(all, at);
}

/// An answer that calls for tools leads to them, unless the conversation is made
/// smaller first; one that ends its turn is added as it is and is what the run
/// answers, unless a critic sends it back.
pub proof fn law_answers_lead_on(m: MachineModel, input: Input)
    requires
        m.wf(),
        m.accepts(input),
        reply_in(m, input) is Some,
        !(transition(m, input).action is Shrink),
    ensures
        ({
            let s = transition(m, input);
            let reply = reply_in(m, input)->0;
            match reply.stop_reason {
                StopReason::ToolUse => if reply.tool_calls@.len() > 0 {
                    s.action is RunTools
                } else {
                    s.append matches Some(said) && said.content == reply.content@
                        && s.machine.run.final_text == reply.content@
                },
                StopReason::Error | StopReason::BudgetExceeded => {
                    &&& s.action is Fail
                    &&& s.append is None
                },
                _ => {
                    &&& s.append matches Some(said) && {
                        &&& said.role == "assistant"@
                        &&& said.content == reply.content@
                        &&& said.tool_calls.len() == 0
                        &&& said.tool_result is None
                    }
                    &&& s.machine.run.final_text == reply.content@
                    &&& s.action matches ActionModel::Finish { answer, .. } ==> answer
                        == reply.content@
                    &&& s.action is AskCritic || s.action is AskSummary || s.action is CheckCancelled
                        || s.action is Finish
                },
            }
        }),
{
    reveal(followed);
    reveal(left_loop);
}

/// A verdict that rejects an answer is handed to the model in the user's name, and
/// the next round begins; one that accepts it changes nothing of the answer.
pub proof fn law_verdicts_are_heeded(m: MachineModel, verdict: Verdict)
    requires
        m.wf(),
        m.accepts(Input::Judged { verdict }),
    ensures
        ({
            let s = transition(m, Input::Judged { verdict });
            match verdict {
                Verdict::Reject { feedback } => {
                    &&& s.action is CheckRound
                    &&& s.append matches Some(said) && said.role == "user"@
                        && contains_text(said.content, feedback@)
                    &&& s.machine.run.final_text.len() == 0
                    &&& s.machine.run.critic_iters == m.run.critic_iters + 1
                },
                Verdict::Accept => {
                    &&& s.append is None
                    &&& s.machine.run.final_text == m.run.final_text
                    &&& s.machine.run.critic_iters == m.run.critic_iters
                    &&& !(s.action is CheckRound)
                },
            }
        }),
{
    reveal(followed);
    reveal(left_loop);
    if let Verdict::Reject { feedback } = verdict {
        lemma_contains_part("[Critic feedback] "@, feedback@, Seq::empty());
        assert("[Critic feedback] "@ + feedback@ + Seq::<char>::empty() =~= "[Critic feedback] "@
            + feedback@);
    }
}

/// What a run ends with is what it has come to, and a vote decides over it.
pub proof fn law_runs_end_with_their_answer(m: MachineModel, input: Input)
    requires
        m.wf(),
        m.accepts(input),
    ensures
        transition(m, input).action is Finish && !(input is Round) ==> transition(
            m,
            input,
        ).action->answer == transition(m, input).machine.run.final_text,
        input matches Input::Voted { winner } ==> {
            &&& transition(m, input).action is Finish
            &&& transition(m, input).machine.run.final_text == (match winner {
                Some(w) => w@,
                None => m.run.final_text,
            })
        },
        input matches Input::Checked { cancelled } ==> transition(m, input).machine.run.final_text
            == m.run.final_text && (transition(m, input).action is Verify <==> !cancelled),
        input matches Input::Summary { text } ==> (text is Some && text->0@.len() > 0
            ==> transition(m, input).machine.run.final_text == text->0@),
{
    reveal(followed);
    reveal(left_loop);
}

/// What the user said goes into the conversation when the run begins, and nothing is
/// added in the user's name later but what a critic says.
pub proof fn law_the_user_speaks_once(m: MachineModel, input: Input)
    requires
        m.wf(),
        m.accepts(input),
    ensures
        transition(m, input).append is Some && transition(m, input).append->0.role == "user"@ ==> (
        input is Go && transition(m, input).append->0.content == m.user_input) || input is Judged,
        input matches Input::Go { cancelled, .. } ==> (!cancelled ==> transition(
            m,
            input,
        ).append == Some(plain_message("user"@, m.user_input))),
{
    reveal(followed);
    reveal(left_loop);
    reveal_strlit("assistant");
    reveal_strlit("user");
    assert("assistant"@.len() != "user"@.len());
}

/// The cost of an answer is added to the budget, and the turn is counted, once.
pub proof fn law_answers_are_paid_for(m: MachineModel, input: Input)
    requires
        m.wf(),
        m.accepts(input),
    ensures
        ({
            let s = transition(m, input);
            match input {
                Input::Reply { reply, .. } => {
                    &&& s.machine.run.budget.used_input == m.run.budget.used_input
                        + reply.usage.input_tokens
                    &&& s.machine.run.budget.used_output == m.run.budget.used_output
                        + reply.usage.output_tokens
                    &&& s.machine.run.turn_count == m.run.turn_count + 1
                },
                _ => {
                    &&& s.machine.run.budget.used_input == m.run.budget.used_input
                    &&& s.machine.run.budget.used_output == m.run.budget.used_output
                    &&& s.machine.run.turn_count == m.run.turn_count
                },
            }
        }),
{
    reveal(followed);
    reveal(left_loop);
}

} // verus!
