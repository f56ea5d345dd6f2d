//! What an agent tells those who watch it.

use crate::message::opt_text;
use crate::priority::EvictedGroupRef;
use crate::text::texts;
use vstd::prelude::*;
use vstd::string::*;

verus! {

/// What a session is doing.
#[derive(Debug, Clone, Copy, PartialEq, Eq, Structural)]
pub enum SessionPhase {
    Idle,
    Running,
}

/// Why a model stopped.
#[derive(Debug, Clone, Copy, PartialEq, Eq, Structural)]
pub enum StopReason {
    EndTurn,
    MaxTokens,
    StopSequence,
    ToolUse,
    Error,
    /// Not said by a model: the turn ran out of its budget.
    BudgetExceeded,
}

/// What a turn cost.
#[derive(Debug, Clone, Copy, PartialEq, Eq, Structural)]
pub struct TokenUsage {
    pub input_tokens: u32,
    pub output_tokens: u32,
    pub cache_read_tokens: u32,
    pub cache_write_tokens: u32,
}

/// A turn that cost nothing.
pub open spec fn no_usage() -> TokenUsage {
    TokenUsage { input_tokens: 0, output_tokens: 0, cache_read_tokens: 0, cache_write_tokens: 0 }
}

/// A turn that cost nothing.
pub fn zero_usage() -> (r: TokenUsage)
    ensures
        r == no_usage(),
{
    TokenUsage { input_tokens: 0, output_tokens: 0, cache_read_tokens: 0, cache_write_tokens: 0 }
}

/// What came of asking the user for a permission.
#[derive(Debug)]
pub enum PermissionOutcome {
    Approved,
    Denied,
    TimedOut { waited_secs: u64 },
    ChannelClosed,
    MismatchedId { expected: String, got: String },
}

/// The model of a [`PermissionOutcome`].
pub enum OutcomeModel {
    Approved,
    Denied,
    TimedOut { waited_secs: u64 },
    ChannelClosed,
    MismatchedId { expected: Seq<char>, got: Seq<char> },
}

impl View for PermissionOutcome {
    type V = OutcomeModel;

    open spec fn view(&self) -> OutcomeModel {
        match self {
            PermissionOutcome::Approved => OutcomeModel::Approved,
            PermissionOutcome::Denied => OutcomeModel::Denied,
            PermissionOutcome::TimedOut { waited_secs } => OutcomeModel::TimedOut {
                waited_secs: *waited_secs,
            },
            PermissionOutcome::ChannelClosed => OutcomeModel::ChannelClosed,
            PermissionOutcome::MismatchedId { expected, got } => OutcomeModel::MismatchedId {
                expected: expected@,
                got: got@,
            },
        }
    }
}

impl Clone for PermissionOutcome {
    fn clone(&self) -> (r: PermissionOutcome)
        ensures
            r == *self,
    {
        match self {
            PermissionOutcome::Approved => PermissionOutcome::Approved,
            PermissionOutcome::Denied => PermissionOutcome::Denied,
            PermissionOutcome::TimedOut { waited_secs } => PermissionOutcome::TimedOut {
                waited_secs: *waited_secs,
            },
            PermissionOutcome::ChannelClosed => PermissionOutcome::ChannelClosed,
            PermissionOutcome::MismatchedId { expected, got } => PermissionOutcome::MismatchedId {
                expected: expected.clone(),
                got: got.clone(),
            },
        }
    }
}

impl PermissionOutcome {
    /// Whether the user said yes.
    pub fn is_approved(&self) -> (r: bool)
        ensures
            r == (self@ is Approved),
    {
        match self {
            PermissionOutcome::Approved => true,
            _ => false,
        }
    }
}

/// The model of an [`EvictedGroupRef`].
pub struct EvictedModel {
    pub kind: Seq<char>,
    pub message_count: u32,
    pub token_count: u32,
    pub reason: Seq<char>,
}

impl View for EvictedGroupRef {
    type V = EvictedModel;

    open spec fn view(&self) -> EvictedModel {
        EvictedModel {
            kind: self.kind@,
            message_count: self.message_count,
            token_count: self.token_count,
            reason: self.reason@,
        }
    }
}

impl Clone for EvictedGroupRef {
    fn clone(&self) -> (r: EvictedGroupRef)
        ensures
            r == *self,
    {
        EvictedGroupRef {
            kind: self.kind.clone(),
            message_count: self.message_count,
            token_count: self.token_count,
            reason: self.reason.clone(),
        }
    }
}

/// The models of evicted groups.
pub open spec fn evicted_models(v: Seq<EvictedGroupRef>) -> Seq<EvictedModel> {
    v.map_values(|e: EvictedGroupRef| e@)
}

/// Something that happened.
#[allow(inconsistent_fields)]
#[derive(Debug)]
pub enum AgentEvent {
    /// A piece of the model's answer.
    TextDelta { text: String },
    /// A tool call begins.
    ToolCallStart { id: String, name: String },
    /// A tool call has its result.
    ToolResultEnd { id: String, content: String, is_error: bool },
    /// A turn has ended.
    TurnComplete { stop_reason: StopReason, usage: TokenUsage },
    /// Something went wrong, or is worth telling.
    Error { message: String },
    /// The session is in another phase.
    SessionPhaseChanged { phase: SessionPhase },
    /// The model has been asked.
    ThinkingStarted { iteration: u32 },
    /// A piece of the model's reasoning.
    ReasoningDelta { content: String },
    /// The model's reasoning is complete.
    ReasoningComplete { content: String, duration_ms: u64 },
    /// The context is filling up.
    ContextWarning { level: String, used_tokens: u32, max_tokens: u32 },
    /// The context has been made smaller.
    ContextCompacted { freed_tokens: u32, before: u32, after: u32 },
    /// Groups have been dropped.
    ContextGroupsEvicted { strategy: String, groups: Vec<EvictedGroupRef>, total_tokens: u32 },
    /// A tool is called with the same arguments again and again.
    LoopDetected { tool_name: String, consecutive_count: u32 },
    /// Too many tool calls have failed in a row.
    CircuitBreakerTriggered { consecutive_failures: u32, last_tools: Vec<String> },
    /// A new node of the execution tree.
    ExecutionTreeNode { id: String, parent_id: Option<String>, label: String, status: String },
    /// A node of the execution tree has changed.
    ExecutionTreeUpdate { id: String, status: String, detail: Option<String> },
    /// Events were not delivered live.
    EventBufferOverflow { dropped_since_last: u64 },
    /// A step begins.
    StepStarted { step_id: u64 },
    /// A step has ended.
    StepCompleted { step_id: u64, ok: bool },
    /// The critic has judged an answer.
    CriticVerdict { accepted: bool, feedback: String, iteration: u32 },
    /// A checkpoint has been reverted, or could not be.
    CheckpointReverted { id: u64, ok: bool, files: u32, reason: String },
    /// Another model has another budget.
    BudgetUpdated { model_id: String, context_limit: u32, reserved_output: u32 },
    /// The answer is being verified.
    VerificationStarted { strategy: String, sample_count: usize },
    /// The answer has been verified.
    VerificationCompleted { ballots_collected: usize, agreed: bool, cancelled: bool },
    /// The project's tests are being run.
    TestGateStarted { command_display: String, working_dir: String, timeout_secs: u64 },
    /// The project's tests have been run.
    TestGateCompleted { outcome: String, exit_code: Option<i32>, duration_ms: u64 },
    /// The user is asked for a permission. `raw_input` is the input of the call as
    /// JSON, without its secrets.
    PermissionRequest {
        id: String,
        capability: String,
        description: String,
        raw_input: Option<String>,
    },
    /// The user has been asked.
    PermissionDecision { id: String, capability: String, outcome: PermissionOutcome },
    /// The same with the time that it took.
    ApprovalDecided { tool: String, outcome: PermissionOutcome, latency_ms: u32 },
    /// A reply to an earlier question was thrown away.
    DrainedStaleApproval { expected: String, drained: String },
    /// A batch of tool calls begins.
    ParallelToolBatchStarted { tool_count: usize, parallelisable: bool },
    /// A batch of tool calls has ended.
    ParallelToolBatchCompleted {
        tool_count: usize,
        ok_count: usize,
        error_count: usize,
        duration_ms: u64,
    },
    /// A tool call took too long.
    ToolTimedOut { tool: String, timeout_secs: u64, elapsed_ms: u64 },
    /// A tool call was cancelled.
    ToolCancelled { tool: String, elapsed_ms: u64 },
    /// A tool call needs more than is permitted.
    ScopeExpansionRequested { capability: String, resource: String, reason: String, tool: String },
    /// A lesson was drawn from a failure.
    ReflexionRecorded { tool: String, lesson: String },
    /// Which instructions were found for the user's words, and which of them count.
    /// The threshold is a number in digits.
    RoutingDecision { candidates: Vec<String>, activated: Vec<String>, threshold: String },
    /// How probable a model found its tokens. The probabilities are numbers in
    /// digits.
    TokenLogprobSummary {
        n_tokens: u32,
        min_token_p: String,
        mean_token_p: String,
        confidence: String,
    },
}

/// The model of an [`AgentEvent`].
#[allow(inconsistent_fields)]
pub enum EventModel {
    TextDelta { text: Seq<char> },
    ToolCallStart { id: Seq<char>, name: Seq<char> },
    ToolResultEnd { id: Seq<char>, content: Seq<char>, is_error: bool },
    TurnComplete { stop_reason: StopReason, usage: TokenUsage },
    Error { message: Seq<char> },
    SessionPhaseChanged { phase: SessionPhase },
    ThinkingStarted { iteration: u32 },
    ReasoningDelta { content: Seq<char> },
    ReasoningComplete { content: Seq<char>, duration_ms: u64 },
    ContextWarning { level: Seq<char>, used_tokens: u32, max_tokens: u32 },
    ContextCompacted { freed_tokens: u32, before: u32, after: u32 },
    ContextGroupsEvicted { strategy: Seq<char>, groups: Seq<EvictedModel>, total_tokens: u32 },
    LoopDetected { tool_name: Seq<char>, consecutive_count: u32 },
    CircuitBreakerTriggered { consecutive_failures: u32, last_tools: Seq<Seq<char>> },
    ExecutionTreeNode {
        id: Seq<char>,
        parent_id: Option<Seq<char>>,
        label: Seq<char>,
        status: Seq<char>,
    },
    ExecutionTreeUpdate { id: Seq<char>, status: Seq<char>, detail: Option<Seq<char>> },
    EventBufferOverflow { dropped_since_last: u64 },
    StepStarted { step_id: u64 },
    StepCompleted { step_id: u64, ok: bool },
    CriticVerdict { accepted: bool, feedback: Seq<char>, iteration: u32 },
    CheckpointReverted { id: u64, ok: bool, files: u32, reason: Seq<char> },
    BudgetUpdated { model_id: Seq<char>, context_limit: u32, reserved_output: u32 },
    VerificationStarted { strategy: Seq<char>, sample_count: usize },
    VerificationCompleted { ballots_collected: usize, agreed: bool, cancelled: bool },
    TestGateStarted { command_display: Seq<char>, working_dir: Seq<char>, timeout_secs: u64 },
    TestGateCompleted { outcome: Seq<char>, exit_code: Option<i32>, duration_ms: u64 },
    PermissionRequest {
        id: Seq<char>,
        capability: Seq<char>,
        description: Seq<char>,
        raw_input: Option<Seq<char>>,
    },
    PermissionDecision { id: Seq<char>, capability: Seq<char>, outcome: OutcomeModel },
    ApprovalDecided { tool: Seq<char>, outcome: OutcomeModel, latency_ms: u32 },
    DrainedStaleApproval { expected: Seq<char>, drained: Seq<char> },
    ParallelToolBatchStarted { tool_count: usize, parallelisable: bool },
    ParallelToolBatchCompleted {
        tool_count: usize,
        ok_count: usize,
        error_count: usize,
        duration_ms: u64,
    },
    ToolTimedOut { tool: Seq<char>, timeout_secs: u64, elapsed_ms: u64 },
    ToolCancelled { tool: Seq<char>, elapsed_ms: u64 },
    ScopeExpansionRequested {
        capability: Seq<char>,
        resource: Seq<char>,
        reason: Seq<char>,
        tool: Seq<char>,
    },
    ReflexionRecorded { tool: Seq<char>, lesson: Seq<char> },
    RoutingDecision {
        candidates: Seq<Seq<char>>,
        activated: Seq<Seq<char>>,
        threshold: Seq<char>,
    },
    TokenLogprobSummary {
        n_tokens: u32,
        min_token_p: Seq<char>,
        mean_token_p: Seq<char>,
        confidence: Seq<char>,
    },
}

impl View for AgentEvent {
    type V = EventModel;

    open spec fn view(&self) -> EventModel {
        match self {
            AgentEvent::TextDelta { text } => EventModel::TextDelta {
                text: text@,
            },
            AgentEvent::ToolCallStart { id, name } => EventModel::ToolCallStart {
                id: id@,
                name: name@,
            },
            AgentEvent::ToolResultEnd { id, content, is_error } => EventModel::ToolResultEnd {
                id: id@,
                content: content@,
                is_error: *is_error,
            },
            AgentEvent::TurnComplete { stop_reason, usage } => EventModel::TurnComplete {
                stop_reason: *stop_reason,
                usage: *usage,
            },
            AgentEvent::Error { message } => EventModel::Error {
                message: message@,
            },
            AgentEvent::SessionPhaseChanged { phase } => EventModel::SessionPhaseChanged {
                phase: *phase,
            },
            AgentEvent::ThinkingStarted { iteration } => EventModel::ThinkingStarted {
                iteration: *iteration,
            },
            AgentEvent::ReasoningDelta { content } => EventModel::ReasoningDelta {
                content: content@,
            },
            AgentEvent::ReasoningComplete { content, duration_ms } => EventModel::ReasoningComplete {
                content: content@,
                duration_ms: *duration_ms,
            },
            AgentEvent::ContextWarning { level, used_tokens, max_tokens } => EventModel::ContextWarning {
                level: level@,
                used_tokens: *used_tokens,
                max_tokens: *max_tokens,
            },
            AgentEvent::ContextCompacted { freed_tokens, before, after } => EventModel::ContextCompacted {
                freed_tokens: *freed_tokens,
                before: *before,
                after: *after,
            },
            AgentEvent::ContextGroupsEvicted { strategy, groups, total_tokens } => EventModel::ContextGroupsEvicted {
                strategy: strategy@,
                groups: evicted_models(groups@),
                total_tokens: *total_tokens,
            },
            AgentEvent::LoopDetected { tool_name, consecutive_count } => EventModel::LoopDetected {
                tool_name: tool_name@,
                consecutive_count: *consecutive_count,
            },
            AgentEvent::CircuitBreakerTriggered { consecutive_failures, last_tools } => EventModel::CircuitBreakerTriggered {
                consecutive_failures: *consecutive_failures,
                last_tools: texts(last_tools@),
            },
            AgentEvent::ExecutionTreeNode { id, parent_id, label, status } => EventModel::ExecutionTreeNode {
                id: id@,
                parent_id: opt_text(*parent_id),
                label: label@,
                status: status@,
            },
            AgentEvent::ExecutionTreeUpdate { id, status, detail } => EventModel::ExecutionTreeUpdate {
                id: id@,
                status: status@,
                detail: opt_text(*detail),
            },
            AgentEvent::EventBufferOverflow { dropped_since_last } => EventModel::EventBufferOverflow {
                dropped_since_last: *dropped_since_last,
            },
            AgentEvent::StepStarted { step_id } => EventModel::StepStarted {
                step_id: *step_id,
            },
            AgentEvent::StepCompleted { step_id, ok } => EventModel::StepCompleted {
                step_id: *step_id,
                ok: *ok,
            },
            AgentEvent::CriticVerdict { accepted, feedback, iteration } => EventModel::CriticVerdict {
                accepted: *accepted,
                feedback: feedback@,
                iteration: *iteration,
            },
            AgentEvent::CheckpointReverted { id, ok, files, reason } => EventModel::CheckpointReverted {
                id: *id,
                ok: *ok,
                files: *files,
                reason: reason@,
            },
            AgentEvent::BudgetUpdated { model_id, context_limit, reserved_output } => EventModel::BudgetUpdated {
                model_id: model_id@,
                context_limit: *context_limit,
                reserved_output: *reserved_output,
            },
            AgentEvent::VerificationStarted { strategy, sample_count } => EventModel::VerificationStarted {
                strategy: strategy@,
                sample_count: *sample_count,
            },
            AgentEvent::VerificationCompleted { ballots_collected, agreed, cancelled } => EventModel::VerificationCompleted {
                ballots_collected: *ballots_collected,
                agreed: *agreed,
                cancelled: *cancelled,
            },
            AgentEvent::TestGateStarted { command_display, working_dir, timeout_secs } => EventModel::TestGateStarted {
                command_display: command_display@,
                working_dir: working_dir@,
                timeout_secs: *timeout_secs,
            },
            AgentEvent::TestGateCompleted { outcome, exit_code, duration_ms } => EventModel::TestGateCompleted {
                outcome: outcome@,
                exit_code: *exit_code,
                duration_ms: *duration_ms,
            },
            AgentEvent::PermissionRequest { id, capability, description, raw_input } => EventModel::PermissionRequest {
                id: id@,
                capability: capability@,
                description: description@,
                raw_input: opt_text(*raw_input),
            },
            AgentEvent::PermissionDecision { id, capability, outcome } => EventModel::PermissionDecision {
                id: id@,
                capability: capability@,
                outcome: outcome@,
            },
            AgentEvent::ApprovalDecided { tool, outcome, latency_ms } => EventModel::ApprovalDecided {
                tool: tool@,
                outcome: outcome@,
                latency_ms: *latency_ms,
            },
            AgentEvent::DrainedStaleApproval { expected, drained } => EventModel::DrainedStaleApproval {
                expected: expected@,
                drained: drained@,
            },
            AgentEvent::ParallelToolBatchStarted { tool_count, parallelisable } => EventModel::ParallelToolBatchStarted {
                tool_count: *tool_count,
                parallelisable: *parallelisable,
            },
            AgentEvent::ParallelToolBatchCompleted { tool_count, ok_count, error_count, duration_ms } => EventModel::ParallelToolBatchCompleted {
                tool_count: *tool_count,
                ok_count: *ok_count,
                error_count: *error_count,
                duration_ms: *duration_ms,
            },
            AgentEvent::ToolTimedOut { tool, timeout_secs, elapsed_ms } => EventModel::ToolTimedOut {
                tool: tool@,
                timeout_secs: *timeout_secs,
                elapsed_ms: *elapsed_ms,
            },
            AgentEvent::ToolCancelled { tool, elapsed_ms } => EventModel::ToolCancelled {
                tool: tool@,
                elapsed_ms: *elapsed_ms,
            },
            AgentEvent::ScopeExpansionRequested { capability, resource, reason, tool } => EventModel::ScopeExpansionRequested {
                capability: capability@,
                resource: resource@,
                reason: reason@,
                tool: tool@,
            },
            AgentEvent::ReflexionRecorded { tool, lesson } => EventModel::ReflexionRecorded {
                tool: tool@,
                lesson: lesson@,
            },
            AgentEvent::RoutingDecision { candidates, activated, threshold } => EventModel::RoutingDecision {
                candidates: texts(candidates@),
                activated: texts(activated@),
                threshold: threshold@,
            },
            AgentEvent::TokenLogprobSummary { n_tokens, min_token_p, mean_token_p, confidence } => EventModel::TokenLogprobSummary {
                n_tokens: *n_tokens,
                min_token_p: min_token_p@,
                mean_token_p: mean_token_p@,
                confidence: confidence@,
            },
        }
    }
}

impl Clone for AgentEvent {
    fn clone(&self) -> (r: AgentEvent)
        ensures
            r@ == self@,
    {
        match self {
            AgentEvent::TextDelta { text } => AgentEvent::TextDelta {
                text: text.clone(),
            },
            AgentEvent::ToolCallStart { id, name } => AgentEvent::ToolCallStart {
                id: id.clone(),
                name: name.clone(),
            },
            AgentEvent::ToolResultEnd { id, content, is_error } => AgentEvent::ToolResultEnd {
                id: id.clone(),
                content: content.clone(),
                is_error: *is_error,
            },
            AgentEvent::TurnComplete { stop_reason, usage } => AgentEvent::TurnComplete {
                stop_reason: *stop_reason,
                usage: *usage,
            },
            AgentEvent::Error { message } => AgentEvent::Error {
                message: message.clone(),
            },
            AgentEvent::SessionPhaseChanged { phase } => AgentEvent::SessionPhaseChanged {
                phase: *phase,
            },
            AgentEvent::ThinkingStarted { iteration } => AgentEvent::ThinkingStarted {
                iteration: *iteration,
            },
            AgentEvent::ReasoningDelta { content } => AgentEvent::ReasoningDelta {
                content: content.clone(),
            },
            AgentEvent::ReasoningComplete { content, duration_ms } => AgentEvent::ReasoningComplete {
                content: content.clone(),
                duration_ms: *duration_ms,
            },
            AgentEvent::ContextWarning { level, used_tokens, max_tokens } => AgentEvent::ContextWarning {
                level: level.clone(),
                used_tokens: *used_tokens,
                max_tokens: *max_tokens,
            },
            AgentEvent::ContextCompacted { freed_tokens, before, after } => AgentEvent::ContextCompacted {
                freed_tokens: *freed_tokens,
                before: *before,
                after: *after,
            },
            AgentEvent::ContextGroupsEvicted { strategy, groups, total_tokens } => {
                let copied: Vec<EvictedGroupRef> = groups.clone();
                assert(evicted_models(copied@) =~= evicted_models(groups@));
                AgentEvent::ContextGroupsEvicted {
                    strategy: strategy.clone(),
                    groups: copied,
                    total_tokens: *total_tokens,
                }
            },
            AgentEvent::LoopDetected { tool_name, consecutive_count } => AgentEvent::LoopDetected {
                tool_name: tool_name.clone(),
                consecutive_count: *consecutive_count,
            },
            AgentEvent::CircuitBreakerTriggered { consecutive_failures, last_tools } => {
                let copied: Vec<String> = last_tools.clone();
                assert(texts(copied@) =~= texts(last_tools@));
                AgentEvent::CircuitBreakerTriggered {
                    consecutive_failures: *consecutive_failures,
                    last_tools: copied,
                }
            },
            AgentEvent::ExecutionTreeNode { id, parent_id, label, status } => AgentEvent::ExecutionTreeNode {
                id: id.clone(),
                parent_id: parent_id.clone(),
                label: label.clone(),
                status: status.clone(),
            },
            AgentEvent::ExecutionTreeUpdate { id, status, detail } => AgentEvent::ExecutionTreeUpdate {
                id: id.clone(),
                status: status.clone(),
                detail: detail.clone(),
            },
            AgentEvent::EventBufferOverflow { dropped_since_last } => AgentEvent::EventBufferOverflow {
                dropped_since_last: *dropped_since_last,
            },
            AgentEvent::StepStarted { step_id } => AgentEvent::StepStarted {
                step_id: *step_id,
            },
            AgentEvent::StepCompleted { step_id, ok } => AgentEvent::StepCompleted {
                step_id: *step_id,
                ok: *ok,
            },
            AgentEvent::CriticVerdict { accepted, feedback, iteration } => AgentEvent::CriticVerdict {
                accepted: *accepted,
                feedback: feedback.clone(),
                iteration: *iteration,
            },
            AgentEvent::CheckpointReverted { id, ok, files, reason } => AgentEvent::CheckpointReverted {
                id: *id,
                ok: *ok,
                files: *files,
                reason: reason.clone(),
            },
            AgentEvent::BudgetUpdated { model_id, context_limit, reserved_output } => AgentEvent::BudgetUpdated {
                model_id: model_id.clone(),
                context_limit: *context_limit,
                reserved_output: *reserved_output,
            },
            AgentEvent::VerificationStarted { strategy, sample_count } => AgentEvent::VerificationStarted {
                strategy: strategy.clone(),
                sample_count: *sample_count,
            },
            AgentEvent::VerificationCompleted { ballots_collected, agreed, cancelled } => AgentEvent::VerificationCompleted {
                ballots_collected: *ballots_collected,
                agreed: *agreed,
                cancelled: *cancelled,
            },
            AgentEvent::TestGateStarted { command_display, working_dir, timeout_secs } => AgentEvent::TestGateStarted {
                command_display: command_display.clone(),
                working_dir: working_dir.clone(),
                timeout_secs: *timeout_secs,
            },
            AgentEvent::TestGateCompleted { outcome, exit_code, duration_ms } => AgentEvent::TestGateCompleted {
                outcome: outcome.clone(),
                exit_code: *exit_code,
                duration_ms: *duration_ms,
            },
            AgentEvent::PermissionRequest { id, capability, description, raw_input } => AgentEvent::PermissionRequest {
                id: id.clone(),
                capability: capability.clone(),
                description: description.clone(),
                raw_input: raw_input.clone(),
            },
            AgentEvent::PermissionDecision { id, capability, outcome } => AgentEvent::PermissionDecision {
                id: id.clone(),
                capability: capability.clone(),
                outcome: outcome.clone(),
            },
            AgentEvent::ApprovalDecided { tool, outcome, latency_ms } => AgentEvent::ApprovalDecided {
                tool: tool.clone(),
                outcome: outcome.clone(),
                latency_ms: *latency_ms,
            },
            AgentEvent::DrainedStaleApproval { expected, drained } => AgentEvent::DrainedStaleApproval {
                expected: expected.clone(),
                drained: drained.clone(),
            },
            AgentEvent::ParallelToolBatchStarted { tool_count, parallelisable } => AgentEvent::ParallelToolBatchStarted {
                tool_count: *tool_count,
                parallelisable: *parallelisable,
            },
            AgentEvent::ParallelToolBatchCompleted { tool_count, ok_count, error_count, duration_ms } => AgentEvent::ParallelToolBatchCompleted {
                tool_count: *tool_count,
                ok_count: *ok_count,
                error_count: *error_count,
                duration_ms: *duration_ms,
            },
            AgentEvent::ToolTimedOut { tool, timeout_secs, elapsed_ms } => AgentEvent::ToolTimedOut {
                tool: tool.clone(),
                timeout_secs: *timeout_secs,
                elapsed_ms: *elapsed_ms,
            },
            AgentEvent::ToolCancelled { tool, elapsed_ms } => AgentEvent::ToolCancelled {
                tool: tool.clone(),
                elapsed_ms: *elapsed_ms,
            },
            AgentEvent::ScopeExpansionRequested { capability, resource, reason, tool } => AgentEvent::ScopeExpansionRequested {
                capability: capability.clone(),
                resource: resource.clone(),
                reason: reason.clone(),
                tool: tool.clone(),
            },
            AgentEvent::ReflexionRecorded { tool, lesson } => AgentEvent::ReflexionRecorded {
                tool: tool.clone(),
                lesson: lesson.clone(),
            },
            AgentEvent::RoutingDecision { candidates, activated, threshold } => {
                let found: Vec<String> = candidates.clone();
                let used: Vec<String> = activated.clone();
                assert(texts(found@) =~= texts(candidates@));
                assert(texts(used@) =~= texts(activated@));
                AgentEvent::RoutingDecision {
                    candidates: found,
                    activated: used,
                    threshold: threshold.clone(),
                }
            },
            AgentEvent::TokenLogprobSummary { n_tokens, min_token_p, mean_token_p, confidence } => AgentEvent::TokenLogprobSummary {
                n_tokens: *n_tokens,
                min_token_p: min_token_p.clone(),
                mean_token_p: mean_token_p.clone(),
                confidence: confidence.clone(),
            },
        }
    }
}

/// The models of events.
pub open spec fn event_models(v: Seq<AgentEvent>) -> Seq<EventModel> {
    v.map_values(|e: AgentEvent| e@)
}

/// Adding an event adds its model.
pub broadcast proof fn lemma_events_push(v: Seq<AgentEvent>, e: AgentEvent)
    ensures
        #[trigger] event_models(v.push(e)) == event_models(v).push(e@),
{
    assert(event_models(v.push(e)) =~= event_models(v).push(e@));
}

/// No events, no models.
pub broadcast proof fn lemma_events_empty()
    ensures
        #[trigger] event_models(Seq::<AgentEvent>::empty()) == Seq::<EventModel>::empty(),
{
    assert(event_models(Seq::<AgentEvent>::empty()) =~= Seq::<EventModel>::empty());
}

} // verus!
