use caduceus::agent_run::{
    ask_permission, batch_completed, batch_started, batch_summary, result_message, settle_call,
    stop_error, with_lesson, AgentRun, Logprobs, ModelReply, ReplyNext, RoundNext, Routing,
    RunConfig, ToolSpawnOutcome, WarningLevel, BREAKER_FAILURES,
};
use caduceus::critic::Verdict;
use caduceus::events::{zero_usage, AgentEvent, SessionPhase, StopReason, TokenUsage};
use caduceus::message::ToolUse;
use caduceus::prompt::TokenBudget;

fn budget(used: u32, limit: u32) -> TokenBudget {
    TokenBudget { context_limit: limit, reserved_output: 0, used_input: used, used_output: 0 }
}

fn run_with(max_tool_rounds: usize, critic_max_iters: u32, has_critic: bool) -> AgentRun {
    let config = RunConfig { max_tool_rounds, critic_max_iters, has_critic };
    AgentRun::new(config, budget(0, 1000), 0, 7)
}

fn reply(content: &str, stop_reason: StopReason) -> ModelReply {
    ModelReply {
        content: content.to_string(),
        tool_calls: vec![],
        stop_reason,
        usage: TokenUsage { input_tokens: 3, output_tokens: 4, ..zero_usage() },
        logprobs: None,
    }
}

fn call(id: &str, name: &str) -> ToolUse {
    ToolUse { id: id.to_string(), name: name.to_string(), input: "{\"a\":1}".to_string() }
}

fn shown(events: &[AgentEvent]) -> String {
    events.iter().map(|e| format!("{e:?}\n")).collect()
}

#[test]
fn rounds_are_counted_and_bounded() {
    let mut run = run_with(2, 0, false);
    let told = run.begin(WarningLevel::Warning85, None);
    assert_eq!(
        shown(&told),
        "SessionPhaseChanged { phase: Running }\nContextWarning { level: \"warning_85\", used_tokens: 0, max_tokens: 1000 }\n"
    );
    let (told, next) = run.begin_round(false, None);
    assert_eq!(next, RoundNext::Ask);
    assert_eq!(
        shown(&told),
        "StepStarted { step_id: 7 }\nThinkingStarted { iteration: 0 }\nExecutionTreeNode { id: \"turn-0\", parent_id: None, label: \"Turn 1 — Thinking\", status: \"running\" }\n"
    );
    let (told, next) = run.begin_round(false, None);
    assert_eq!(next, RoundNext::Ask);
    assert!(shown(&told).starts_with("StepCompleted { step_id: 7, ok: true }\nStepStarted { step_id: 8 }\n"));
    let (told, next) = run.begin_round(false, None);
    assert_eq!(next, RoundNext::OutOfRounds);
    assert!(told.is_empty());
    assert_eq!(shown(&run.close_step()), "StepCompleted { step_id: 8, ok: true }\n");
    assert!(run.close_step().is_empty());
    assert_eq!(shown(&run.end()), "SessionPhaseChanged { phase: Idle }\n");
    assert_eq!(run.phase, SessionPhase::Idle);
}

#[test]
fn cancelled_rounds_do_not_begin() {
    let mut run = run_with(2, 0, false);
    let (told, next) = run.begin_round(true, Some("too long"));
    assert_eq!(next, RoundNext::Cancelled);
    assert!(told.is_empty());
    assert_eq!(run.rounds, 0);
}

#[test]
fn breaches_end_the_run() {
    let mut run = run_with(2, 0, false);
    let (told, next) = run.begin_round(false, Some("too long"));
    assert_eq!(next, RoundNext::BudgetExceeded);
    assert!(shown(&told).contains("Error { message: \"too long\" }"));
    assert!(shown(&told).contains("stop_reason: BudgetExceeded"));
}

#[test]
fn failures_in_a_row_trip_the_breaker() {
    let mut run = run_with(9, 0, false);
    run.begin_round(false, None);
    for i in 0..BREAKER_FAILURES {
        let name = format!("tool{i}");
        run.call_begun(&call("c", &name), false);
        run.call_settled("c", "boom", true, false);
    }
    let (told, next) = run.begin_round(false, None);
    assert_eq!(next, RoundNext::BreakerTripped);
    assert!(shown(&told).contains(
        "CircuitBreakerTriggered { consecutive_failures: 5, last_tools: [\"tool4\", \"tool3\", \"tool2\", \"tool1\", \"tool0\"] }"
    ));
    assert_eq!(
        run.final_text,
        "🛑 Circuit breaker triggered after 5 consecutive tool failures.\nLast tools: tool4, tool3, tool2, tool1, tool0\nPlease simplify the request or check the working directory."
    );
}

#[test]
fn successes_and_skips_do_not_trip_the_breaker() {
    let mut run = run_with(9, 0, false);
    run.begin_round(false, None);
    for _ in 0..4 {
        run.call_settled("c", "boom", true, false);
    }
    run.call_settled("c", "declined", true, true);
    assert_eq!(run.consecutive_failures, 4);
    run.call_settled("c", "fine", false, false);
    assert_eq!(run.consecutive_failures, 0);
    let told = run.call_begun(&call("c", "grep"), true);
    assert_eq!(run.consecutive_failures, 1);
    assert!(shown(&told).starts_with("LoopDetected { tool_name: \"grep\", consecutive_count: 3 }"));
}

#[test]
fn answers_end_turns() {
    let mut run = run_with(3, 0, false);
    run.begin_round(false, None);
    let r = reply("héllo", StopReason::EndTurn);
    assert!(run.can_take(&r.usage));
    let told = run.reply_received(&r);
    assert_eq!(shown(&told), "TextDelta { text: \"héllo\" }\n");
    assert_eq!((run.budget.used_input, run.budget.used_output, run.turn_count), (3, 4, 1));
    let done = run.answered(&r);
    assert_eq!(done.next, ReplyNext::LeaveLoop);
    assert_eq!(done.append.unwrap().content, "héllo");
    assert!(shown(&done.events).contains("detail: Some(\"6B response\")"));
    assert_eq!(run.final_text, "héllo");
}

#[test]
fn tools_follow_from_tool_calls() {
    let mut run = run_with(3, 0, false);
    run.begin_round(false, None);
    let mut r = reply("", StopReason::ToolUse);
    assert_eq!(run.answered(&r).next, ReplyNext::LeaveLoop);
    r.tool_calls.push(call("t1", "grep"));
    let done = run.answered(&r);
    assert_eq!(done.next, ReplyNext::RunTools);
    assert_eq!(done.append.unwrap().tool_calls[0].id, "t1");
    let told = run.call_begun(&r.tool_calls[0], false);
    assert_eq!(
        shown(&told),
        "ToolCallStart { id: \"t1\", name: \"grep\" }\nExecutionTreeNode { id: \"tool-t1\", parent_id: Some(\"turn-0\"), label: \"🔧 grep\", status: \"running\" }\n"
    );
    let told = run.call_settled("t1", "found", false, false);
    assert!(shown(&told).contains("status: \"completed\", detail: Some(\"5B output\")"));
}

#[test]
fn reserved_stops_are_errors() {
    let mut run = run_with(3, 0, false);
    run.begin_round(false, None);
    let failed = run.answered(&reply("x", StopReason::Error));
    assert_eq!(failed.next, ReplyNext::ProviderError);
    assert_eq!(
        stop_error(failed.next).unwrap(),
        "Provider reported StopReason::Error in successful response"
    );
    let reserved = run.answered(&reply("x", StopReason::BudgetExceeded));
    assert_eq!(reserved.next, ReplyNext::ReservedStop);
    assert!(stop_error(reserved.next).unwrap().contains("reserved for orchestrator-side"));
    assert!(stop_error(ReplyNext::LeaveLoop).is_none());
    let told = run.provider_failed("offline");
    assert!(shown(&told).ends_with("Error { message: \"Provider error: offline\" }\n"));
}

#[test]
fn critics_send_back_at_most_so_often() {
    let mut run = run_with(9, 1, true);
    run.begin_round(false, None);
    let r = reply("draft", StopReason::EndTurn);
    assert_eq!(run.answered(&r).next, ReplyNext::AskCritic);
    let sent = run.judged(&r, &Verdict::Reject { feedback: "shorter".to_string() });
    assert_eq!(sent.next, ReplyNext::NextRound);
    assert_eq!(sent.append.unwrap().content, "[Critic feedback] shorter");
    assert_eq!(run.final_text, "");
    assert_eq!(run.answered(&r).next, ReplyNext::LeaveLoop);

    let mut run = run_with(9, 1, true);
    run.begin_round(false, None);
    run.answered(&r);
    let kept = run.judged(&r, &Verdict::Accept);
    assert_eq!(kept.next, ReplyNext::LeaveLoop);
    assert!(shown(&kept.events).starts_with("CriticVerdict { accepted: true"));
}

#[test]
fn runs_without_an_answer_are_summed_up() {
    let mut run = run_with(4, 0, false);
    run.begin_round(false, None);
    run.call_begun(&call("a", "grep"), false);
    run.call_begun(&call("b", "read"), false);
    assert!(run.needs_summary());
    run.summarised(Some(""));
    assert_eq!(
        run.final_text,
        "⚠️ Agent used all 4 tool iterations without a final answer.\nTools used: grep, read\nTry /compact to free context, or simplify your request."
    );
    let told = run.summarised(Some("all good"));
    assert_eq!(shown(&told), "TextDelta { text: \"all good\" }\n");
    assert!(!run.needs_summary());
    run.verified(None);
    assert_eq!(run.final_text, "all good");
    run.verified(Some("better"));
    assert_eq!(run.final_text, "better");
}

#[test]
fn full_contexts_are_made_smaller() {
    let config = RunConfig { max_tool_rounds: 1, critic_max_iters: 0, has_critic: false };
    let full = |used: u32| AgentRun::new(config, budget(used, 1000), 0, 0);
    assert!(!full(850).should_compact(11));
    assert!(full(851).should_compact(11));
    assert!(!full(851).should_compact(10));
    let limitless = AgentRun::new(config, budget(5, 0), 0, 0);
    assert!(!limitless.should_compact(11));
    assert!(!full(u32::MAX - 6).can_take(&reply("", StopReason::EndTurn).usage));
    assert!(full(u32::MAX - 7).can_take(&reply("", StopReason::EndTurn).usage));
}

#[test]
fn reasoning_is_told_apart() {
    let run = run_with(1, 0, false);
    let told = run.reasoning_shown("<thinking>hm</thinking>yes", 12);
    assert_eq!(
        shown(&told),
        "ReasoningDelta { content: \"hm\" }\nReasoningComplete { content: \"hm\", duration_ms: 12 }\n"
    );
    assert!(run.reasoning_shown("yes", 12).is_empty());
}

#[test]
fn calls_settle_in_three_ways() {
    let done = ToolSpawnOutcome::Completed { content: "out".to_string(), is_error: false };
    let (text, is_error, told) = settle_call("grep", 30, 1, done);
    assert_eq!((text.as_str(), is_error, told.len()), ("out", false, 0));
    let (text, is_error, told) = settle_call("grep", 30, 30_001, ToolSpawnOutcome::TimedOut);
    assert_eq!(text, "Tool 'grep' timed out after 30s");
    assert!(is_error);
    assert_eq!(
        shown(&told),
        "ToolTimedOut { tool: \"grep\", timeout_secs: 30, elapsed_ms: 30001 }\n"
    );
    let (text, _, told) = settle_call("grep", 30, 5, ToolSpawnOutcome::Cancelled);
    assert_eq!(text, "Tool 'grep' cancelled by user");
    assert_eq!(shown(&told), "ToolCancelled { tool: \"grep\", elapsed_ms: 5 }\n");
}

#[test]
fn batches_are_counted() {
    assert_eq!(
        format!("{:?}", batch_started(1)),
        "ParallelToolBatchStarted { tool_count: 1, parallelisable: false }"
    );
    assert_eq!(
        format!("{:?}", batch_completed(3, &[true, false, true], 9)),
        "ParallelToolBatchCompleted { tool_count: 3, ok_count: 1, error_count: 2, duration_ms: 9 }"
    );
    assert_eq!(batch_summary(&[call("a", "grep"), call("b", "read")]), "grep + read");
    assert_eq!(
        format!("{:?}", ask_permission(&call("a", "bash"), "{}".to_string())),
        "PermissionRequest { id: \"perm_a\", capability: \"bash\", description: \"bash with args: {\\\"a\\\":1}\", raw_input: Some(\"{}\") }"
    );
}

#[test]
fn results_carry_their_lessons() {
    let long = "l".repeat(600);
    let text = with_lesson("failed", &long);
    assert_eq!(text, format!("failed\n\n[Reflexion lesson: {}]", "l".repeat(512)));
    let m = result_message("t1", "out", true);
    assert_eq!(m.role, "tool");
    let r = m.tool_result.unwrap();
    assert_eq!(r.tool_use_id.as_deref(), Some("t1"));
    assert!(r.is_error);
}

#[test]
fn routing_is_told_before_the_warning() {
    let routing = |candidates: &[&str]| Routing {
        candidates: candidates.iter().map(|c| c.to_string()).collect(),
        activated: vec![],
        threshold: "0.5".to_string(),
    };
    let mut run = run_with(2, 0, false);
    let told = run.begin(WarningLevel::Critical95, Some(routing(&["skill"])));
    let kinds: Vec<String> =
        told.iter().map(|e| format!("{e:?}").split(' ').next().unwrap().to_string()).collect();
    assert_eq!(kinds, vec!["SessionPhaseChanged", "RoutingDecision", "ContextWarning"]);
    assert_eq!(
        format!("{:?}", told[1].clone()),
        "RoutingDecision { candidates: [\"skill\"], activated: [], threshold: \"0.5\" }"
    );
    let mut run = run_with(2, 0, false);
    assert_eq!(run.begin(WarningLevel::Clear, Some(routing(&[]))).len(), 1);
}

#[test]
fn probabilities_follow_the_answer() {
    let mut run = run_with(2, 0, false);
    let mut answer = reply("hi", StopReason::EndTurn);
    answer.logprobs = Some(Logprobs {
        n_tokens: 2,
        min_token_p: "0.25".to_string(),
        mean_token_p: "0.5".to_string(),
        confidence: "low".to_string(),
    });
    let told = run.reply_received(&answer);
    assert_eq!(
        shown(&told),
        "TextDelta { text: \"hi\" }\nTokenLogprobSummary { n_tokens: 2, min_token_p: \"0.25\", mean_token_p: \"0.5\", confidence: \"low\" }\n"
    );
    assert_eq!(format!("{:?}", told[1].clone()), format!("{:?}", told[1]));
}
