//! How an agent is set up: its limits, its prompt, and the stores that it
//! writes to.

use crate::agent_run::RunConfig;
use crate::checkpoint::{
    revert_told, reverted_event, BatchModel, BatchState, CheckpointError, CheckpointId,
    CheckpointStore, FileSnapshot,
};
use crate::context_fold::{
    fold_of, folded_json, folded_json_text, folded_store, ExpandError, TranscriptId,
    TranscriptStore, DEFAULT_FOLD_THRESHOLD_CHARS,
};
use crate::deltas::{head_chars, head_text};
use crate::events::{AgentEvent, EventModel, TokenUsage};
use crate::json::Json;
use crate::numeral::byte_len;
use crate::planner::{
    planted, reports, searched, BranchExpander, BranchScorer, PlanResult, PlannerConfig,
    ThoughtNode, TreeOfThoughts,
};
use crate::preflight::{
    classify_tool_call, outcome_of, preflight_envelope_of, scope_of, Decision, PreflightOutcome,
};
use crate::prompt::{
    behavior_rules, effective_max_tokens, effective_system_prompt, system_prompt,
    with_instructions, EnvelopeSummary, ModePrompt, PromptParts,
};
use crate::telemetry::{last_of_turn, CompactionEvent, CompactionTelemetry};
use crate::test_gate::TestGateConfig;
use crate::text::{holds_text, same_text, texts};
use vstd::prelude::*;
use vstd::string::*;

verus! {

/// How an agent is set up. Times are in seconds.
#[derive(Debug)]
pub struct AgentHarness {
    pub prompt: PromptParts,
    pub max_context_tokens: u32,
    pub max_turns: usize,
    pub max_tool_rounds: usize,
    pub tool_timeout_secs: u64,
    /// The timeouts of single tools. A name may occur more than once; the
    /// last one counts.
    pub tool_timeout_overrides: Vec<(String, u64)>,
    pub approval_required_tools: Vec<String>,
    pub approval_timeout_secs: u64,
    /// How long an answer may be, as the query and as the effort say.
    pub query_max_tokens: Option<u32>,
    pub effort_max_tokens: Option<u32>,
    pub test_gate_config: Option<TestGateConfig>,
    pub tot_config: Option<PlannerConfig>,
    pub has_critic: bool,
    pub critic_max_iters: u32,
    pub self_consistency_n: u32,
    pub request_logprobs: bool,
    pub compaction_telemetry: Option<CompactionTelemetry>,
    pub checkpoint_store: Option<CheckpointStore>,
    pub transcript_store: Option<TranscriptStore>,
}

/// The timeout of a tool among the first `n` overrides: the last one counts.
pub open spec fn override_for(v: Seq<(String, u64)>, name: Seq<char>, n: nat) -> Option<u64>
    decreases n,
{
    if n == 0 {
        None
    } else if v[n - 1].0@ == name {
        Some(v[n - 1].1)
    } else {
        override_for(v, name, (n - 1) as nat)
    }
}

impl AgentHarness {
    /// An agent with default limits and nothing attached.
    pub fn new(max_context_tokens: u32, system_prompt: &str) -> (r: AgentHarness)
        ensures
            r.prompt.mode is None,
            r.prompt.envelope is None,
            r.prompt.base@ == system_prompt@,
            r.prompt.effort is None,
            r.max_context_tokens == max_context_tokens,
            r.max_turns == 100,
            r.max_tool_rounds == 50,
            r.tool_timeout_secs == 120,
            r.tool_timeout_overrides@.len() == 0,
            r.approval_required_tools@.len() == 0,
            r.approval_timeout_secs == 300,
            r.query_max_tokens is None,
            r.effort_max_tokens is None,
            r.test_gate_config is None,
            r.tot_config is None,
            !r.has_critic,
            r.critic_max_iters == 1,
            r.self_consistency_n == 1,
            !r.request_logprobs,
            r.compaction_telemetry is None,
            r.checkpoint_store is None,
            r.transcript_store is None,
    {
        AgentHarness {
            prompt: PromptParts {
                mode: None,
                envelope: None,
                base: system_prompt.to_owned(),
                effort: None,
            },
            max_context_tokens,
            max_turns: 100,
            max_tool_rounds: 50,
            tool_timeout_secs: 120,
            tool_timeout_overrides: Vec::new(),
            approval_required_tools: Vec::new(),
            approval_timeout_secs: 300,
            query_max_tokens: None,
            effort_max_tokens: None,
            test_gate_config: None,
            tot_config: None,
            has_critic: false,
            critic_max_iters: 1,
            self_consistency_n: 1,
            request_logprobs: false,
            compaction_telemetry: None,
            checkpoint_store: None,
            transcript_store: None,
        }
    }

    /// The same with another limit on turns.
    pub fn with_max_turns(self, n: usize) -> (r: AgentHarness)
        ensures
            r == (AgentHarness { max_turns: n, ..self }),
    {
        let mut r = self;
        r.max_turns = n;
        r
    }

    /// The same with another limit on rounds.
    pub fn with_max_tool_rounds(self, n: usize) -> (r: AgentHarness)
        ensures
            r == (AgentHarness { max_tool_rounds: n, ..self }),
    {
        let mut r = self;
        r.max_tool_rounds = n;
        r
    }

    /// The same with another timeout for tools.
    pub fn with_tool_timeout(self, secs: u64) -> (r: AgentHarness)
        ensures
            r == (AgentHarness { tool_timeout_secs: secs, ..self }),
    {
        let mut r = self;
        r.tool_timeout_secs = secs;
        r
    }

    /// The same with a timeout for one tool, in place of an earlier one.
    pub fn with_tool_timeout_for(self, tool_name: &str, secs: u64) -> (r: AgentHarness)
        ensures
            r.tool_timeout_overrides@.len() == self.tool_timeout_overrides@.len() + 1,
            r.tool_timeout_overrides@.drop_last() == self.tool_timeout_overrides@,
            r.tool_timeout_overrides@.last().0@ == tool_name@,
            r.tool_timeout_overrides@.last().1 == secs,
            r == (AgentHarness { tool_timeout_overrides: r.tool_timeout_overrides, ..self }),
    {
        let mut r = self;
        r.tool_timeout_overrides.push((tool_name.to_owned(), secs));
        assert(r.tool_timeout_overrides@.drop_last() =~= self.tool_timeout_overrides@);
        r
    }

    /// The timeout of a tool: its own, else that of all tools.
    pub fn timeout_for(&self, tool_name: &str) -> (r: u64)
        ensures
            r == (match override_for(
                self.tool_timeout_overrides@,
                tool_name@,
                self.tool_timeout_overrides@.len(),
            ) {
                Some(secs) => secs,
                None => self.tool_timeout_secs,
            }),
    {
        let mut n: usize = self.tool_timeout_overrides.len();
        while n > 0
            invariant
                n <= self.tool_timeout_overrides@.len(),
                override_for(
                    self.tool_timeout_overrides@,
                    tool_name@,
                    self.tool_timeout_overrides@.len(),
                ) == override_for(self.tool_timeout_overrides@, tool_name@, n as nat),
            decreases n,
        {
            if same_text(self.tool_timeout_overrides[n - 1].0.as_str(), tool_name) {
                return self.tool_timeout_overrides[n - 1].1;
            }
            n -= 1;
        }
        self.tool_timeout_secs
    }

    /// The same with these tools to be approved by the user.
    pub fn with_approval_flow(self, tools: Vec<String>) -> (r: AgentHarness)
        ensures
            r == (AgentHarness { approval_required_tools: tools, ..self }),
    {
        let mut r = self;
        r.approval_required_tools = tools;
        r
    }

    /// Whether the user has to approve a tool.
    pub fn needs_approval(&self, tool_name: &str) -> (r: bool)
        ensures
            r == texts(self.approval_required_tools@).contains(tool_name@),
    {
        holds_text(self.approval_required_tools.as_slice(), tool_name)
    }

    /// The same with another time to wait for the user, at least a second.
    pub fn with_approval_timeout_secs(self, secs: u64) -> (r: AgentHarness)
        ensures
            r == (AgentHarness {
                approval_timeout_secs: if secs >= 1 {
                    secs
                } else {
                    1
                },
                ..self
            }),
    {
        let mut r = self;
        r.approval_timeout_secs = if secs >= 1 {
            secs
        } else {
            1
        };
        r
    }

    /// The same with a test gate.
    pub fn with_test_gate_config(self, config: TestGateConfig) -> (r: AgentHarness)
        ensures
            r == (AgentHarness { test_gate_config: Some(config), ..self }),
    {
        let mut r = self;
        r.test_gate_config = Some(config);
        r
    }

    /// The same with a planner.
    pub fn with_tot_config(self, cfg: PlannerConfig) -> (r: AgentHarness)
        ensures
            r == (AgentHarness { tot_config: Some(cfg), ..self }),
    {
        let mut r = self;
        r.tot_config = Some(cfg);
        r
    }

    /// The planner that is attached.
    pub fn tot_config(&self) -> (r: Option<&PlannerConfig>)
        ensures
            match r {
                Some(c) => self.tot_config == Some(*c),
                None => self.tot_config is None,
            },
    {
        self.tot_config.as_ref()
    }

    /// The planner to use: the one attached, else the default one.
    pub fn planner(&self) -> (r: PlannerConfig)
        ensures
            r == (match self.tot_config {
                Some(c) => c,
                None => PlannerConfig { branching_factor: 3, beam_width: 2, max_depth: 6 },
            }),
    {
        match self.tot_config {
            Some(c) => c,
            None => PlannerConfig::default(),
        }
    }

    /// Searches for a plan with the planner to use.
    pub fn plan_with_tot<T: Clone, E: BranchExpander<T>, S: BranchScorer<T>>(
        &self,
        root: T,
        expander: E,
        scorer: S,
    ) -> (r: PlanResult<T>)
        ensures
            ({
                let cfg = match self.tot_config {
                    Some(c) => c,
                    None => PlannerConfig { branching_factor: 3, beam_width: 2, max_depth: 6 },
                };
                let unscored = ThoughtNode {
                    depth: 0usize,
                    thought: root,
                    score: 0i64,
                    terminal: false,
                };
                reports(
                    searched(planted(cfg, root, scorer.value(unscored)), expander, scorer),
                    r,
                )
            }),
    {
        let search = TreeOfThoughts::new(self.planner(), expander, scorer);
        search.search(root)
    }

    /// The same in a mode.
    pub fn with_mode(self, mode: ModePrompt) -> (r: AgentHarness)
        ensures
            r == (AgentHarness { prompt: PromptParts { mode: Some(mode), ..self.prompt }, ..self }),
    {
        let mut r = self;
        r.prompt.mode = Some(mode);
        r
    }

    /// The same with what the agent may do, as its prompt tells it.
    pub fn with_permission_envelope(self, envelope: EnvelopeSummary) -> (r: AgentHarness)
        ensures
            r == (AgentHarness {
                prompt: PromptParts { envelope: Some(envelope), ..self.prompt },
                ..self
            }),
    {
        let mut r = self;
        r.prompt.envelope = Some(envelope);
        r
    }

    /// What the agent may do, as its prompt tells it.
    pub fn permission_envelope(&self) -> (r: Option<&EnvelopeSummary>)
        ensures
            match r {
                Some(e) => self.prompt.envelope == Some(*e),
                None => self.prompt.envelope is None,
            },
    {
        self.prompt.envelope.as_ref()
    }

    /// The same with how much effort to spend: what the prompt says of it, and
    /// how long an answer may then be.
    pub fn with_effort_level(self, text: String, max_tokens: u32) -> (r: AgentHarness)
        ensures
            r == (AgentHarness {
                prompt: PromptParts { effort: Some(text), ..self.prompt },
                effort_max_tokens: Some(max_tokens),
                ..self
            }),
    {
        let mut r = self;
        r.prompt.effort = Some(text);
        r.effort_max_tokens = Some(max_tokens);
        r
    }

    /// The same with how long an answer may be, as the query says.
    pub fn with_query_config(self, max_tokens: Option<u32>) -> (r: AgentHarness)
        ensures
            r == (AgentHarness { query_max_tokens: max_tokens, ..self }),
    {
        let mut r = self;
        r.query_max_tokens = max_tokens;
        r
    }

    /// The same with the instructions of a workspace behind its own.
    pub fn with_instructions(self, instructions: &str) -> (r: AgentHarness)
        ensures
            r.prompt.base@ == (if instructions@.len() == 0 {
                self.prompt.base@
            } else {
                self.prompt.base@ + "\n\n"@ + instructions@
            }),
            r == (AgentHarness {
                prompt: PromptParts { base: r.prompt.base, ..self.prompt },
                ..self
            }),
    {
        let mut r = self;
        r.prompt.base = with_instructions(r.prompt.base.as_str(), instructions);
        r
    }

    /// The same with a critic, or without.
    pub fn with_critic(self, present: bool) -> (r: AgentHarness)
        ensures
            r == (AgentHarness { has_critic: present, ..self }),
    {
        let mut r = self;
        r.has_critic = present;
        r
    }

    /// The same with another limit on how often a critic sends answers back.
    pub fn with_critic_max_iters(self, n: u32) -> (r: AgentHarness)
        ensures
            r == (AgentHarness { critic_max_iters: n, ..self }),
    {
        let mut r = self;
        r.critic_max_iters = n;
        r
    }

    /// How often a critic may send an answer back.
    pub fn critic_max_iters(&self) -> (r: u32)
        ensures
            r == self.critic_max_iters,
    {
        self.critic_max_iters
    }

    /// The same with another number of samples for risky tool calls, at least
    /// one.
    pub fn with_self_consistency_n(self, n: u32) -> (r: AgentHarness)
        ensures
            r == (AgentHarness {
                self_consistency_n: if n >= 1 {
                    n
                } else {
                    1
                },
                ..self
            }),
    {
        let mut r = self;
        r.self_consistency_n = if n >= 1 {
            n
        } else {
            1
        };
        r
    }

    /// How many samples are taken for risky tool calls.
    pub fn self_consistency_n(&self) -> (r: u32)
        ensures
            r == self.self_consistency_n,
    {
        self.self_consistency_n
    }

    /// The same with or without asking how sure the model is.
    pub fn with_request_logprobs(self, enable: bool) -> (r: AgentHarness)
        ensures
            r == (AgentHarness { request_logprobs: enable, ..self }),
    {
        let mut r = self;
        r.request_logprobs = enable;
        r
    }

    /// Whether the model is asked how sure it is.
    pub fn request_logprobs(&self) -> (r: bool)
        ensures
            r == self.request_logprobs,
    {
        self.request_logprobs
    }

    /// The same with a record of compactions.
    pub fn with_compaction_telemetry(self, t: CompactionTelemetry) -> (r: AgentHarness)
        ensures
            r == (AgentHarness { compaction_telemetry: Some(t), ..self }),
    {
        let mut r = self;
        r.compaction_telemetry = Some(t);
        r
    }

    /// The record of compactions.
    pub fn compaction_telemetry(&self) -> (r: Option<&CompactionTelemetry>)
        ensures
            match r {
                Some(t) => self.compaction_telemetry == Some(*t),
                None => self.compaction_telemetry is None,
            },
    {
        self.compaction_telemetry.as_ref()
    }

    /// The same with a store for checkpoints.
    pub fn with_checkpoint_store(self, s: CheckpointStore) -> (r: AgentHarness)
        ensures
            r == (AgentHarness { checkpoint_store: Some(s), ..self }),
    {
        let mut r = self;
        r.checkpoint_store = Some(s);
        r
    }

    /// The store for checkpoints.
    pub fn checkpoint_store(&self) -> (r: Option<&CheckpointStore>)
        ensures
            match r {
                Some(s) => self.checkpoint_store == Some(*s),
                None => self.checkpoint_store is None,
            },
    {
        self.checkpoint_store.as_ref()
    }

    /// The same with a store for transcripts.
    pub fn with_transcript_store(self, s: TranscriptStore) -> (r: AgentHarness)
        ensures
            r == (AgentHarness { transcript_store: Some(s), ..self }),
    {
        let mut r = self;
        r.transcript_store = Some(s);
        r
    }

    /// The store for transcripts.
    pub fn transcript_store(&self) -> (r: Option<&TranscriptStore>)
        ensures
            match r {
                Some(s) => self.transcript_store == Some(*s),
                None => self.transcript_store is None,
            },
    {
        self.transcript_store.as_ref()
    }

    /// How a run is limited.
    pub fn run_config(&self) -> (r: RunConfig)
        ensures
            r == (RunConfig {
                max_tool_rounds: self.max_tool_rounds,
                critic_max_iters: self.critic_max_iters,
                has_critic: self.has_critic,
            }),
    {
        RunConfig {
            max_tool_rounds: self.max_tool_rounds,
            critic_max_iters: self.critic_max_iters,
            has_critic: self.has_critic,
        }
    }

    /// The system prompt.
    pub fn effective_system_prompt(&self) -> (r: String)
        ensures
            r@ == system_prompt(self.prompt),
    {
        effective_system_prompt(&self.prompt)
    }

    /// The rules that stand at the head of every system prompt.
    pub fn behavior_rules_preamble() -> (r: String)
        ensures
            r@ == behavior_rules(),
    {
        crate::prompt::behavior_rules_preamble()
    }

    /// How long an answer may be.
    pub fn effective_max_tokens(&self) -> (r: u32)
        ensures
            r == (match self.query_max_tokens {
                Some(n) => n,
                None => match self.effort_max_tokens {
                    Some(m) => m,
                    None => 128_000,
                },
            }),
    {
        effective_max_tokens(self.query_max_tokens, self.effort_max_tokens)
    }

    /// What becomes of a tool call. `decision` is what the envelope says of what
    /// the call does, with the reason in words; `None` if there is no envelope.
    pub fn preflight_envelope(
        &self,
        tool_name: &str,
        input: &Json,
        decision: Option<(Decision, String)>,
    ) -> (r: PreflightOutcome)
        ensures
            match decision {
                Some(d) => r@ == outcome_of(
                    scope_of(tool_name@, input@).capability,
                    d.0,
                    scope_of(tool_name@, input@).resource,
                    d.1@,
                ),
                None => r@ is Allow,
            },
    {
        let scope = classify_tool_call(tool_name, input);
        preflight_envelope_of(&scope, decision)
    }

    /// Notes how the last compaction of a turn went. Returns whether there was
    /// one on record.
    pub fn mark_compaction_re_ask(&mut self, turn_index: u32, re_asked: bool) -> (r: bool)
        ensures
            match old(self).compaction_telemetry {
                Some(t) => {
                    let at = last_of_turn(t@.events, turn_index);
                    &&& r == (at >= 0)
                    &&& final(self).compaction_telemetry matches Some(u) && u@.cap == t@.cap
                        && u@.events == (if at >= 0 {
                        t@.events.update(
                            at,
                            CompactionEvent {
                                downstream_re_ask: Some(re_asked),
                                ..t@.events[at]
                            },
                        )
                    } else {
                        t@.events
                    })
                    &&& *final(self) == (AgentHarness {
                        compaction_telemetry: final(self).compaction_telemetry,
                        ..*old(self)
                    })
                },
                None => !r && *final(self) == *old(self),
            },
    {
        match &mut self.compaction_telemetry {
            Some(t) => t.mark_re_ask(turn_index, re_asked),
            None => false,
        }
    }

    /// Undoes a batch: marks it, and returns what its files held before and
    /// what is told. Without a store no batch is known.
    pub fn revert_checkpoint(&mut self, id: CheckpointId) -> (r: (
        Result<Vec<FileSnapshot>, CheckpointError>,
        AgentEvent,
    ))
        ensures
            match old(self).checkpoint_store {
                Some(s) => {
                    &&& r.1@ == reverted_event(
                        id,
                        match r.0 {
                            Ok(files) => Ok(files@),
                            Err(e) => Err(e),
                        },
                    )
                    &&& r.0 is Ok <==> s@.has(id) && s@.item(id).state
                        == BatchState::Committed
                    &&& r.0 matches Ok(files) ==> files@ == s@.item(id).edits
                    &&& r.0 matches Err(e) ==> e == (if !s@.has(id) {
                        CheckpointError::Unknown(id)
                    } else if s@.item(id).state == BatchState::Open {
                        CheckpointError::StillOpen(id)
                    } else {
                        CheckpointError::AlreadyReverted(id)
                    })
                    &&& final(self).checkpoint_store matches Some(t) && t@ == (if r.0 is Ok {
                        s@.replace(
                            id,
                            BatchModel { state: BatchState::Reverted, ..s@.item(id) },
                        )
                    } else {
                        s@
                    })
                },
                None => {
                    &&& r.0 is Err && r.0->Err_0 == CheckpointError::Unknown(id)
                    &&& r.1@ == (EventModel::CheckpointReverted {
                        id: id.0,
                        ok: false,
                        files: 0,
                        reason: "no checkpoint store attached"@,
                    })
                    &&& *final(self) == *old(self)
                },
            },
            *final(self) == (AgentHarness {
                checkpoint_store: final(self).checkpoint_store,
                ..*old(self)
            }),
    {
        match &mut self.checkpoint_store {
            Some(s) => {
                let res = s.revert(id);
                let told = revert_told(id, &res);
                (res, told)
            },
            None => (
                Err(CheckpointError::Unknown(id)),
                AgentEvent::CheckpointReverted {
                    id: id.0,
                    ok: false,
                    files: 0,
                    reason: "no checkpoint store attached".to_owned(),
                },
            ),
        }
    }

    /// The result of a tool as the model sees it: a long one is folded, if
    /// there is a store for it.
    pub fn fold_tool_result(&mut self, tool_name: &str, content: String) -> (r: String)
        requires
            old(self).transcript_store matches Some(s) ==> s@.wf(),
        ensures
            match old(self).transcript_store {
                Some(s) => if byte_len(content@) >= DEFAULT_FOLD_THRESHOLD_CHARS {
                    let outcome = head_text(content@, 200);
                    &&& r@ == folded_json_text(
                        fold_of(s@.next_id, tool_name@, outcome, content@),
                    )
                    &&& final(self).transcript_store matches Some(t) && t@.wf() && exists|
                        at: std::time::Instant,
                    |
                        t@ == #[trigger] folded_store(s@, tool_name@, outcome, content@, at)
                } else {
                    r@ == content@ && *final(self) == *old(self)
                },
                None => r@ == content@ && *final(self) == *old(self),
            },
            *final(self) == (AgentHarness {
                transcript_store: final(self).transcript_store,
                ..*old(self)
            }),
    {
        match &mut self.transcript_store {
            Some(s) => {
                if !TranscriptStore::should_fold(content.as_str(), DEFAULT_FOLD_THRESHOLD_CHARS) {
                    return content;
                }
                let outcome = head_chars(content.as_str(), 200);
                let folded = s.fold(tool_name, outcome.as_str(), content);
                folded_json(&folded)
            },
            None => content,
        }
    }

    /// The full text of a folded result. Without a store none is known.
    pub fn expand_transcript(&self, id: TranscriptId) -> (r: Result<String, ExpandError>)
        ensures
            match self.transcript_store {
                Some(s) => s@.gives_text(
                    id,
                    match r {
                        Ok(text) => Ok(text@),
                        Err(e) => Err(e),
                    },
                ),
                None => r is Err && r->Err_0 == ExpandError::Unknown(id),
            },
    {
        match &self.transcript_store {
            Some(s) => match s.expand(id) {
                Ok(text) => Ok(text.to_owned()),
                Err(e) => Err(e),
            },
            None => Err(ExpandError::Unknown(id)),
        }
    }
}

// ── Streams ────────────────────────────────────────────────────────────────
/// A piece of a streamed answer.
#[derive(Debug)]
pub struct StreamChunk {
    pub delta: String,
    pub input_tokens: Option<u32>,
    pub output_tokens: Option<u32>,
    pub cache_read_tokens: Option<u32>,
    pub cache_creation_tokens: Option<u32>,
}

/// A streamed answer so far.
#[derive(Debug)]
pub struct StreamedReply {
    pub content: String,
    pub usage: TokenUsage,
}

/// The latest of two numbers.
pub open spec fn newer(n: Option<u32>, before: u32) -> u32 {
    match n {
        Some(m) => m,
        None => before,
    }
}

fn newer_of(n: Option<u32>, before: u32) -> (r: u32)
    ensures
        r == newer(n, before),
{
    match n {
        Some(m) => m,
        None => before,
    }
}

impl StreamedReply {
    /// Nothing so far.
    pub fn new() -> (r: StreamedReply)
        ensures
            r.content@.len() == 0,
            r.usage == crate::events::no_usage(),
    {
        StreamedReply { content: String::new(), usage: crate::events::zero_usage() }
    }

    /// Another piece has come. Returns what is told of it.
    pub fn chunk(&mut self, c: &StreamChunk) -> (r: Option<AgentEvent>)
        ensures
            final(self).content@ == old(self).content@ + c.delta@,
            final(self).usage == (TokenUsage {
                input_tokens: newer(c.input_tokens, old(self).usage.input_tokens),
                output_tokens: newer(c.output_tokens, old(self).usage.output_tokens),
                cache_read_tokens: newer(c.cache_read_tokens, old(self).usage.cache_read_tokens),
                cache_write_tokens: newer(
                    c.cache_creation_tokens,
                    old(self).usage.cache_write_tokens,
                ),
            }),
            c.delta@.len() == 0 ==> r is None,
            c.delta@.len() > 0 ==> r is Some && r->0@ == (EventModel::TextDelta {
                text: c.delta@,
            }),
    {
        let ghost before = self.content@;
        self.usage = TokenUsage {
            input_tokens: newer_of(c.input_tokens, self.usage.input_tokens),
            output_tokens: newer_of(c.output_tokens, self.usage.output_tokens),
            cache_read_tokens: newer_of(c.cache_read_tokens, self.usage.cache_read_tokens),
            cache_write_tokens: newer_of(c.cache_creation_tokens, self.usage.cache_write_tokens),
        };
        if c.delta.as_str().is_empty() {
            assert(before + c.delta@ =~= before);
            return None;
        }
        self.content.append(c.delta.as_str());
        Some(AgentEvent::TextDelta { text: c.delta.clone() })
    }
}

} // verus!
