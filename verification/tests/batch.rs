use caduceus::agent_run::{
    batch_completed, history_compacted, lesson_recorded, AgentRun, RunConfig,
};
use caduceus::approval::decided;
use caduceus::assembler::MessageAssembler;
use caduceus::events::{AgentEvent, PermissionOutcome};
use caduceus::message::{Message, ToolUse};
use caduceus::preflight::PreflightOutcome;
use caduceus::prompt::TokenBudget;
use caduceus::tool_batch::{mark_cache_prefix, paired_results, ToolBatch, ToolOutput};

fn call(id: &str, name: &str) -> ToolUse {
    ToolUse { id: id.to_string(), name: name.to_string(), input: "{}".to_string() }
}

fn shown(events: &[AgentEvent]) -> String {
    events.iter().map(|e| format!("{e:?}\n")).collect()
}

fn batch() -> (Vec<ToolUse>, ToolBatch) {
    let calls = vec![call("a", "read"), call("b", "bash"), call("c", "edit"), call("d", "fetch")];
    let mut batch = ToolBatch::new();
    for c in &calls {
        let skipped = if c.id == "b" { Some("denied by user".to_string()) } else { None };
        batch.add(c, skipped);
    }
    (calls, batch)
}

#[test]
fn every_call_has_its_result() {
    let (calls, mut batch) = batch();
    assert_eq!(batch.approved(), 3);
    assert!(batch.is_skipped(1) && !batch.is_skipped(0));
    let (make, told) = batch.dispatch(0, PreflightOutcome::Allow);
    assert!(make && told.is_empty());
    let (make, told) = batch.dispatch(2, PreflightOutcome::Intercept("simulated".to_string()));
    assert!(!make && told.is_empty());
    let deny = PreflightOutcome::Deny {
        content: "out of scope".to_string(),
        capability: "network".to_string(),
        resource: "http://x".to_string(),
        reason: "NetworkDisabled".to_string(),
    };
    let (make, told) = batch.dispatch(3, deny);
    assert!(!make);
    assert_eq!(
        shown(&told),
        "ScopeExpansionRequested { capability: \"network\", resource: \"http://x\", reason: \"NetworkDisabled\", tool: \"fetch\" }\n"
    );
    let results: Vec<(String, bool)> = (0..4)
        .map(|i| {
            let r = batch.result(i);
            (r.content, r.is_error)
        })
        .collect();
    assert_eq!(
        results,
        vec![
            ("Tool execution failed".to_string(), true),
            ("denied by user".to_string(), true),
            ("simulated".to_string(), false),
            ("out of scope".to_string(), true),
        ]
    );
    batch.settled(0, ToolOutput { content: "text".to_string(), is_error: false });
    assert_eq!(batch.result(0).content, "text");
    assert_eq!(batch.errors(), vec![false, false, true]);
    let done = batch_completed(batch.approved(), &batch.errors(), 1);
    assert!(format!("{done:?}").contains("ok_count: 2, error_count: 1"));
    let contents: Vec<String> = (0..4).map(|i| batch.result(i).content).collect();
    let messages = batch.messages(&contents);
    for (m, c) in messages.iter().zip(&calls) {
        assert_eq!(m.role, "tool");
        assert_eq!(m.tool_result.as_ref().unwrap().tool_use_id.as_deref(), Some(c.id.as_str()));
    }
    assert!(messages[1].tool_result.as_ref().unwrap().is_error);
}

#[test]
fn batches_stay_together() {
    let (calls, batch) = batch();
    let mut request = Message::assistant("calling");
    request.tool_calls = calls;
    let contents: Vec<String> = (0..4).map(|i| batch.result(i).content).collect();
    let mut history = vec![Message::user("go"), request];
    history.extend(batch.messages(&contents));
    for max in 0..200 {
        let kept = MessageAssembler::new(max, "p").assemble(&history).len();
        assert!(kept == 1 || kept == 6 || kept == 7, "{max}: {kept}");
    }
}

#[test]
fn prefixes_are_marked_for_the_cache() {
    let mut none: Vec<Message> = vec![];
    mark_cache_prefix(&mut none);
    let mut one = vec![Message::user("a")];
    mark_cache_prefix(&mut one);
    assert!(!one[0].cache_breakpoint);
    let mut three = vec![Message::system("s"), Message::user("a"), Message::user("b")];
    mark_cache_prefix(&mut three);
    let marks: Vec<bool> = three.iter().map(|m| m.cache_breakpoint).collect();
    assert_eq!(marks, vec![false, true, false]);
}

#[test]
fn decisions_are_told_with_their_time() {
    let told = decided(&call("a", "bash"), &PermissionOutcome::Denied, u64::MAX);
    assert_eq!(
        shown(&told),
        "PermissionDecision { id: \"perm_a\", capability: \"bash\", outcome: Denied }\nApprovalDecided { tool: \"bash\", outcome: Denied, latency_ms: 4294967295 }\n"
    );
}

#[test]
fn changes_of_the_model_are_told() {
    let config = RunConfig { max_tool_rounds: 1, critic_max_iters: 0, has_critic: false };
    let budget =
        TokenBudget { context_limit: 10, reserved_output: 2, used_input: 3, used_output: 4 };
    let mut run = AgentRun::new(config, budget, 0, 0);
    assert!(run.model_applied("m", 10, 2).is_empty());
    assert_eq!(
        shown(&run.model_applied("m", 20, 2)),
        "BudgetUpdated { model_id: \"m\", context_limit: 20, reserved_output: 2 }\n"
    );
    assert_eq!((run.budget.context_limit, run.budget.used_output), (20, 4));
    assert_eq!(
        format!("{:?}", history_compacted(12, 6)),
        "ContextCompacted { freed_tokens: 6, before: 12, after: 6 }"
    );
    let lesson = format!("{:?}", lesson_recorded("grep", &"x".repeat(600)));
    assert!(lesson.len() < 600 && lesson.contains("tool: \"grep\""));
}

#[test]
fn results_go_with_their_ids() {
    let calls = vec![call("a", "x"), call("b", "y"), call("c", "z")];
    let results = vec![
        Ok(ToolOutput { content: "fine".to_string(), is_error: false }),
        Err("no such tool".to_string()),
    ];
    let paired = paired_results(&calls, results);
    assert_eq!(paired.len(), 2);
    assert_eq!((paired[0].id.as_str(), paired[0].output.is_error), ("a", false));
    assert_eq!((paired[1].id.as_str(), paired[1].output.is_error), ("b", true));
    assert_eq!(paired[1].output.content, "no such tool");
}
