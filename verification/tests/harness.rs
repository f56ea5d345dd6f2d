use caduceus::checkpoint::{CheckpointError, CheckpointId, CheckpointStore};
use caduceus::context_fold::{ExpandError, TranscriptId, TranscriptStore};
use caduceus::harness::{AgentHarness, StreamChunk, StreamedReply};
use caduceus::json::Json;
use caduceus::planner::{BranchExpander, BranchScorer, PlannerConfig, ThoughtNode};
use caduceus::preflight::{Decision, PreflightOutcome};
use caduceus::prompt::{EnvelopeSummary, ModePrompt};
use caduceus::telemetry::{CompactionEvent, CompactionTelemetry};
use caduceus::test_gate::{
    annotate, classify_test_output, classify_texts, finish_gate, gate_completed, start_gate,
    tail_chars, GateRun, GateStart, TestGateConfig, TestGateOutcome,
};
use std::time::Duration;

#[test]
fn harnesses_begin_with_defaults() {
    let h = AgentHarness::new(1000, "base");
    assert_eq!((h.max_turns, h.max_tool_rounds, h.tool_timeout_secs), (100, 50, 120));
    assert_eq!((h.approval_timeout_secs, h.critic_max_iters()), (300, 1));
    assert_eq!(h.self_consistency_n(), 1);
    assert!(!h.request_logprobs());
    assert!(h.tot_config().is_none());
    assert!(h.compaction_telemetry().is_none());
    assert!(h.checkpoint_store().is_none());
    assert!(h.transcript_store().is_none());
    assert_eq!(h.effective_max_tokens(), 128_000);
    let rules = AgentHarness::behavior_rules_preamble();
    assert_eq!(h.effective_system_prompt(), format!("{rules}\n\nbase"));
    assert_eq!(h.planner(), PlannerConfig::default());
}

#[test]
fn harnesses_are_built_up() {
    let cfg = PlannerConfig { branching_factor: 5, beam_width: 4, max_depth: 3 };
    let h = AgentHarness::new(1000, "")
        .with_max_turns(7)
        .with_max_tool_rounds(8)
        .with_tool_timeout(9)
        .with_tool_timeout_for("slow", 60)
        .with_tool_timeout_for("slow", 90)
        .with_approval_flow(vec!["bash".to_string()])
        .with_tot_config(cfg)
        .with_critic_max_iters(3)
        .with_test_gate_config(gate())
        .with_request_logprobs(true);
    assert_eq!(h.max_turns, 7);
    assert_eq!(h.run_config().max_tool_rounds, 8);
    assert_eq!(h.run_config().critic_max_iters, 3);
    assert_eq!(h.timeout_for("fast"), 9);
    assert_eq!(h.timeout_for("slow"), 90);
    assert!(h.needs_approval("bash"));
    assert!(!h.needs_approval("grep"));
    assert_eq!(h.planner(), cfg);
    assert!(h.request_logprobs());
    assert_eq!(h.test_gate_config.unwrap().command, gate().command);
}

struct Doubler;

impl BranchExpander<u32> for Doubler {
    fn expand(&self, node: &ThoughtNode<u32>, k: usize) -> Vec<(u32, bool)> {
        (0..k as u32).map(|i| (node.thought * 2 + i, node.thought > 4)).collect()
    }
}

struct Size;

impl BranchScorer<u32> for Size {
    fn score(&self, node: &ThoughtNode<u32>) -> i64 {
        i64::from(node.thought)
    }
}

#[test]
fn harnesses_plan() {
    let cfg = PlannerConfig { branching_factor: 2, beam_width: 1, max_depth: 9 };
    let plan = AgentHarness::new(1, "").with_tot_config(cfg).plan_with_tot(1, Doubler, Size);
    assert_eq!(plan.best.unwrap().thought, 15);
    assert_eq!(plan.nodes_expanded, 3);
}

#[test]
fn harnesses_carry_their_prompts() {
    let mode = ModePrompt {
        name: "plan".to_string(),
        acts: false,
        lens: Some("debug".to_string()),
        prefix: "Plan.".to_string(),
    };
    let h = AgentHarness::new(1, "base")
        .with_mode(mode)
        .with_instructions("be kind")
        .with_instructions("")
        .with_effort_level("Think.".to_string(), 77)
        .with_critic(true);
    let rules = AgentHarness::behavior_rules_preamble();
    assert_eq!(
        h.effective_system_prompt(),
        format!("{rules}\n\n<agent_mode mode=\"plan\">\nPlan.\n</agent_mode>\n\nbase\n\nbe kind\n\n<effort_level>\nThink.\n</effort_level>")
    );
    assert_eq!(h.effective_max_tokens(), 77);
    assert!(h.run_config().has_critic);
    assert!(h.permission_envelope().is_none());
    let h = h.with_query_config(Some(5)).with_permission_envelope(EnvelopeSummary {
        read_allow: vec![],
        write_allow: vec![],
        write_deny: vec![],
        network_enabled: false,
        host_allow: vec![],
        host_deny: vec![],
        exec_enabled: true,
        approve_major_steps: false,
        skill_budget: 0,
    });
    assert_eq!(h.effective_max_tokens(), 5);
    assert!(h.permission_envelope().unwrap().exec_enabled);
    assert!(h.effective_system_prompt().contains("- exec: enabled\n"));
}

#[test]
fn harnesses_clamp_what_must_be_clamped() {
    let n = |n: u32| AgentHarness::new(1, "").with_self_consistency_n(n).self_consistency_n();
    assert_eq!(n(0), 1);
    assert_eq!(n(2), 2);
    assert_eq!(n(3), 3);
    let secs =
        |s: u64| AgentHarness::new(1, "").with_approval_timeout_secs(s).approval_timeout_secs;
    assert_eq!(secs(0), 1);
    assert_eq!(secs(60), 60);
}

#[test]
fn harnesses_know_their_stores() {
    let mut bare = AgentHarness::new(1, "");
    let (result, told) = bare.revert_checkpoint(CheckpointId(4));
    assert!(matches!(result, Err(CheckpointError::Unknown(CheckpointId(4)))));
    assert!(format!("{told:?}").contains("no checkpoint store attached"));
    assert!(matches!(bare.expand_transcript(TranscriptId(1)), Err(ExpandError::Unknown(_))));
    assert!(!bare.mark_compaction_re_ask(1, true));
    let long = "x".repeat(100_000);
    assert_eq!(bare.fold_tool_result("t", long.clone()), long);

    let mut store = CheckpointStore::with_capacity(4);
    let id = store.begin_batch(1, "edit", 0);
    store.record_edit(id, "a.rs", Some("old".to_string())).unwrap();
    store.commit(id).unwrap();
    let mut tel = CompactionTelemetry::with_capacity(4);
    tel.record(CompactionEvent {
        strategy: "s".to_string(),
        tokens_before: 2,
        tokens_after: 1,
        messages_before: 2,
        messages_after: 1,
        turn_index: 6,
        at_secs: 0,
        downstream_re_ask: None,
    });
    let mut h = AgentHarness::new(1, "")
        .with_checkpoint_store(store)
        .with_compaction_telemetry(tel)
        .with_transcript_store(TranscriptStore::new(4, Duration::from_secs(600).as_nanos()));
    let (result, told) = h.revert_checkpoint(id);
    assert_eq!(result.unwrap()[0].path, "a.rs");
    assert!(format!("{told:?}").contains("ok: true, files: 1"));
    assert!(matches!(h.revert_checkpoint(id).0, Err(CheckpointError::AlreadyReverted(_))));
    assert!(h.mark_compaction_re_ask(6, true));
    assert!(!h.mark_compaction_re_ask(5, true));
    assert_eq!(h.compaction_telemetry().unwrap().events()[0].downstream_re_ask, Some(true));
    assert_eq!(h.fold_tool_result("t", "short".to_string()), "short");
    let folded = h.fold_tool_result("t", long.clone());
    assert!(folded.len() < 1000);
    let parsed: serde_json::Value = serde_json::from_str(&folded).unwrap();
    assert!(parsed.is_object());
    assert_eq!(h.transcript_store().unwrap().len(), 1);
}

#[test]
fn harnesses_ask_the_envelope() {
    let h = AgentHarness::new(1, "");
    let input = Json::Object(vec![("path".to_string(), Json::Text("a.rs".to_string()))]);
    assert!(matches!(h.preflight_envelope("edit", &input, None), PreflightOutcome::Allow));
    let said = h.preflight_envelope("edit", &input, Some((Decision::Intercept, String::new())));
    assert!(matches!(said, PreflightOutcome::Intercept(t) if t.contains("would write 'a.rs'")));
}

#[test]
fn streams_add_up() {
    let chunk = |delta: &str, input: Option<u32>, output: Option<u32>| StreamChunk {
        delta: delta.to_string(),
        input_tokens: input,
        output_tokens: output,
        cache_read_tokens: None,
        cache_creation_tokens: None,
    };
    let mut r = StreamedReply::new();
    assert!(r.chunk(&chunk("", Some(5), None)).is_none());
    assert_eq!(
        format!("{:?}", r.chunk(&chunk("ab", None, Some(1))).unwrap()),
        "TextDelta { text: \"ab\" }"
    );
    r.chunk(&chunk("c", None, Some(2)));
    assert_eq!(r.content, "abc");
    assert_eq!((r.usage.input_tokens, r.usage.output_tokens), (5, 2));
}

// ── The tests of a project ─────────────────────────────────────────────────

fn gate() -> TestGateConfig {
    TestGateConfig::new(vec!["make".to_string(), "test".to_string()], "/work")
}

#[test]
fn gates_begin_with_a_command() {
    assert_eq!((gate().timeout_ms, gate().tail_bytes), (300_000, 4096));
    assert_eq!(gate().with_tail_bytes(1).tail_bytes, 256);
    assert_eq!(gate().with_tail_bytes(257).tail_bytes, 257);
    let empty = TestGateConfig::new(vec![], "/work");
    match start_gate(&empty, false) {
        GateStart::Refused(TestGateOutcome::SpawnError(e)) => {
            assert_eq!(e, "test_gate_config.command is empty");
        }
        _ => panic!("there is no command"),
    }
    assert!(matches!(start_gate(&gate(), true), GateStart::Cancelled(_)));
    match start_gate(&gate().with_timeout(2500), false) {
        GateStart::Run(e) => assert_eq!(
            format!("{e:?}"),
            "TestGateStarted { command_display: \"make test\", working_dir: \"/work\", timeout_secs: 2 }"
        ),
        _ => panic!("there is a command"),
    }
}

#[test]
fn gates_end_in_five_ways() {
    let note = |run: GateRun| finish_gate(&gate(), run).annotation();
    assert_eq!(
        note(GateRun::SpawnFailed("not found".to_string())),
        "⚠️ project tests could not be run: failed to spawn `make`: not found (verification gate)"
    );
    assert_eq!(
        note(GateRun::IoFailed("pipe".to_string())),
        "⚠️ project tests could not be run: test command i/o error: pipe (verification gate)"
    );
    assert_eq!(note(GateRun::TimedOut), "⏱ project tests timed out after 300s (verification gate)");
    assert_eq!(note(GateRun::Cancelled), "⏸ project tests cancelled by user (verification gate)");
    let exited = |code: Option<i32>| GateRun::Exited {
        code,
        stdout: b"out".to_vec(),
        stderr: b"err".to_vec(),
    };
    assert_eq!(note(exited(Some(0))), "✓ project tests passed (verification gate)");
    assert_eq!(
        note(exited(Some(-2))),
        "❌ project tests FAILED (exit -2; verification gate)\n─── last output ───\nout\nerr"
    );
    let killed = finish_gate(&gate(), exited(None));
    assert!(killed.annotation().starts_with("❌ project tests FAILED (exit signal;"));
    assert!(!killed.passed());
    assert_eq!((killed.event_label(), killed.exit_code()), ("fail", None));
    assert_eq!(
        format!("{:?}", gate_completed(&finish_gate(&gate(), exited(Some(0))), 8)),
        "TestGateCompleted { outcome: \"pass\", exit_code: Some(0), duration_ms: 8 }"
    );
    assert!(annotate("done", &killed).starts_with("done\n\n❌"));
}

#[test]
fn outputs_need_not_be_text() {
    match classify_test_output(Some(1), &[0x61, 0xff, 0x62], &[], 100) {
        TestGateOutcome::Fail { code, tail } => {
            assert_eq!((code, tail.as_str()), (Some(1), "a\u{fffd}b"));
        }
        other => panic!("{other:?}"),
    }
    match classify_test_output(Some(0), &[], "é!".as_bytes(), 1) {
        TestGateOutcome::Pass { tail } => assert_eq!(tail, "!"),
        other => panic!("{other:?}"),
    }
    assert!(classify_texts(Some(0), "", "", 5).passed());
    assert_eq!(tail_chars("äöü", 2), "öü");
    assert_eq!(tail_chars("äöü", 0), "");
}
