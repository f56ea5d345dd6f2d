use caduceus::approval::{first_reply, next_reply, Approval, FirstReply, DRAIN_LIMIT};
use caduceus::deltas::{head_chars, reasoning_of, text_deltas};
use caduceus::emitter::{context_groups_evicted, Delivery, EmitterState};
use caduceus::events::{AgentEvent, PermissionOutcome};
use caduceus::json::Json;
use caduceus::memories::{extract_memories, merge_memories, new_memory_file};
use caduceus::memory_blocks::working_entries;
use caduceus::message::{Message, ToolResult, ToolUse};
use caduceus::preflight::{
    capability_str, classify_tool_call, deny_reason_tag, extract_host, format_preflight_outcome,
    input_of, input_or_null, preflight_envelope_of, Decision, DenyReason, ExpansionCapability,
    PreflightOutcome,
};
use caduceus::priority::EvictedGroupRef;
use caduceus::prompt::{
    behavior_rules_preamble, effective_max_tokens, effective_model, effective_system_prompt,
    envelope_summary_block, summary_request_prompt, verification_prompt, with_instructions,
    with_routing, working_message, EnvelopeSummary, ModePrompt, PromptParts, TokenBudget,
};
use caduceus::verification::{
    gate_missing, gate_vote_completed, gate_vote_started, vote_started, weighing, Rollout, Vote,
    VoteKind, VoteOutcome,
};

fn shown(events: &[AgentEvent]) -> String {
    events.iter().map(|e| format!("{e:?}\n")).collect()
}

// ── Pieces ─────────────────────────────────────────────────────────────────

#[test]
fn answers_are_shown_in_pieces() {
    let text = "word ".repeat(50);
    let pieces = text_deltas(&text);
    assert_eq!(pieces.concat(), text);
    assert_eq!(pieces.len(), 3);
    assert!(pieces.iter().all(|p| p.len() <= 100));
    let solid = "x".repeat(250);
    assert_eq!(text_deltas(&solid).iter().map(|p| p.len()).collect::<Vec<_>>(), vec![100, 100, 50]);
    let wide = "€".repeat(40);
    assert_eq!(text_deltas(&wide)[0].len(), 99);
    let spaced = format!("{} {}", "a".repeat(60), "b".repeat(60));
    assert_eq!(text_deltas(&spaced)[0].len(), 61);
    assert!(text_deltas("").is_empty());
}

#[test]
fn reasoning_stands_between_its_tags() {
    assert_eq!(reasoning_of("a<thinking>b</thinking>c").as_deref(), Some("b"));
    assert_eq!(reasoning_of("<thinking></thinking>").as_deref(), Some(""));
    assert_eq!(reasoning_of("</thinking><thinking>b</thinking>"), None);
    assert_eq!(reasoning_of("<thinking>b"), None);
    assert_eq!(head_chars("äöü", 2), "äö");
    assert_eq!(head_chars("äöü", 3), "äöü");
}

// ── Live events ────────────────────────────────────────────────────────────

fn error(n: usize) -> AgentEvent {
    AgentEvent::Error { message: n.to_string() }
}

#[test]
fn rings_hold_the_latest() {
    let mut state = EmitterState::with_retention(2);
    for n in 0..5 {
        state.retain(&error(n));
    }
    assert_eq!(shown(&state.replay()), shown(&[error(3), error(4)]));
    assert_eq!(EmitterState::with_retention(0).retention_cap(), 1);
    let mut none = EmitterState::without_retention();
    none.retain(&error(1));
    assert!(none.replay().is_empty());
}

#[test]
fn overflows_are_told_once() {
    let mut state = EmitterState::with_retention(3);
    assert!(state.sent(Delivery::Delivered).is_none());
    state.sent(Delivery::Full);
    state.sent(Delivery::Closed);
    state.sent(Delivery::Full);
    assert_eq!(state.dropped_since_last(), 2);
    let notice = state.sent(Delivery::Delivered).unwrap();
    assert_eq!(format!("{notice:?}"), "EventBufferOverflow { dropped_since_last: 2 }");
    assert_eq!(state.dropped_since_last(), 0);
    assert_eq!(state.replay().len(), 1);
    state.notice_sent(2, false);
    assert_eq!(state.dropped_since_last(), 2);
    state.notice_sent(2, true);
    assert_eq!(state.dropped_since_last(), 2);
}

#[test]
fn evicted_groups_are_summed() {
    let group = |n: u32| EvictedGroupRef {
        kind: "user".to_string(),
        message_count: 1,
        token_count: n,
        reason: "budget".to_string(),
    };
    assert!(context_groups_evicted("s", vec![]).is_none());
    let event = context_groups_evicted("s", vec![group(3), group(4)]).unwrap();
    assert!(format!("{event:?}").ends_with("total_tokens: 7 }"));
}

// ── Memories ───────────────────────────────────────────────────────────────

#[test]
fn preferences_are_remembered() {
    let found = extract_memories("Hi! I prefer tabs over spaces. Thanks", "ok");
    assert_eq!(found, vec!["I prefer tabs over spaces"]);
    assert!(extract_memories("I like it.", "ok").is_empty());
    let found = extract_memories("Actually, the file is in src.", "");
    assert_eq!(found, vec!["Correction: Actually, the file is in src."]);
    assert_eq!(
        extract_memories("Never do force pushes here", "ok"),
        vec!["Never do force pushes here"]
    );
    let found = extract_memories("Use grep not find here. Prefer async handlers!", "ok");
    assert_eq!(found, vec!["Use grep not find here", "Prefer async handlers"]);
    let found = extract_memories("I prefer async handlers", "ok");
    assert_eq!(found, vec!["I prefer async handlers"]);
    let found = extract_memories("", "The team uses rustfmt here. Done");
    assert_eq!(found, vec!["Convention: The team uses rustfmt here"]);
}

#[test]
fn memories_are_written_once() {
    let mems = vec!["use tabs".to_string(), "be brief".to_string(), "use tabs".to_string()];
    let file = merge_memories("# Notes\nbe brief", &mems);
    assert_eq!(file, "# Notes\nbe brief\nuse tabs");
    assert_eq!(merge_memories(&file, &mems), file);
    assert_eq!(new_memory_file(&mems[..2]), "# Caduceus Memory\n\nuse tabs\nbe brief");
}

// ── Permissions ────────────────────────────────────────────────────────────

fn settled(a: Approval) -> PermissionOutcome {
    match a {
        Approval::Settled(o) => o,
        Approval::Draining { .. } => panic!("still draining"),
    }
}

#[test]
fn replies_answer_their_own_question() {
    let reply = |id: &str, approved: bool| FirstReply::Reply { id: id.to_string(), approved };
    assert!(settled(first_reply("p1", reply("p1", true), 9).0).is_approved());
    assert!(!settled(first_reply("p1", reply("p1", false), 9).0).is_approved());
    let timed_out = settled(first_reply("p1", FirstReply::TimedOut, 9).0);
    assert_eq!(format!("{timed_out:?}"), "TimedOut { waited_secs: 9 }");
    let closed = settled(first_reply("p1", FirstReply::Closed, 9).0);
    assert_eq!(format!("{closed:?}"), "ChannelClosed");
    let (state, told) = first_reply("p1", reply("p0", true), 9);
    assert_eq!(shown(&told), "DrainedStaleApproval { expected: \"p1\", drained: \"p0\" }\n");
    match state {
        Approval::Draining { expected, last_seen, left } => {
            assert_eq!((expected.as_str(), last_seen.as_str(), left), ("p1", "p0", DRAIN_LIMIT));
        }
        Approval::Settled(_) => panic!("settled by a stale reply"),
    }
}

#[test]
fn stale_replies_are_drained() {
    let found = next_reply("p1", "p0", 3, Some(("p1".to_string(), true)));
    assert!(settled(found.0).is_approved());
    let none = settled(next_reply("p1", "p0", 3, None).0);
    assert_eq!(format!("{none:?}"), "MismatchedId { expected: \"p1\", got: \"p0\" }");
    let last = settled(next_reply("p1", "p0", 1, Some(("p2".to_string(), true))).0);
    assert_eq!(format!("{last:?}"), "MismatchedId { expected: \"p1\", got: \"p2\" }");
    let (more, told) = next_reply("p1", "p0", 2, Some(("p2".to_string(), true)));
    assert!(matches!(more, Approval::Draining { left: 1, .. }));
    assert_eq!(told.len(), 1);
}

fn input(key: &str, value: &str) -> Json {
    Json::Object(vec![(key.to_string(), Json::Text(value.to_string()))])
}

#[test]
fn tools_are_told_apart() {
    let scope = |tool: &str, j: &Json| {
        let s = classify_tool_call(tool, j);
        (s.capability, s.resource, s.host)
    };
    assert_eq!(
        scope("BASH", &input("command", "ls")),
        (ExpansionCapability::Exec, "ls".to_string(), None)
    );
    assert_eq!(
        scope("web_fetch", &input("url", "https://a.org:80/x")),
        (ExpansionCapability::Network, "https://a.org:80/x".to_string(), Some("a.org".to_string()))
    );
    assert_eq!(
        scope("edit", &input("target", "b.rs")),
        (ExpansionCapability::Write, "b.rs".to_string(), None)
    );
    assert_eq!(
        scope("anything", &Json::Null),
        (ExpansionCapability::Read, "<unknown>".to_string(), None)
    );
    assert_eq!(extract_host("ftp://a.org"), None);
    assert_eq!(extract_host("http:///x"), None);
    assert_eq!(extract_host("http://localhost:3000"), Some("localhost".to_string()));
}

#[test]
fn envelopes_decide() {
    let allow = format_preflight_outcome(ExpansionCapability::Read, &Decision::Allow, "a", "");
    assert!(matches!(allow, PreflightOutcome::Allow));
    match format_preflight_outcome(ExpansionCapability::Write, &Decision::Intercept, "a.rs", "") {
        PreflightOutcome::Intercept(text) => {
            assert_eq!(text, "[plan-mode simulation] would write 'a.rs' — no action taken");
        }
        other => panic!("{other:?}"),
    }
    let scope = classify_tool_call("bash", &input("cmd", "rm"));
    assert!(matches!(preflight_envelope_of(&scope, None), PreflightOutcome::Allow));
    let deny = Decision::Deny(DenyReason::ExecDisabled);
    match preflight_envelope_of(&scope, Some((deny, "exec disabled".to_string()))) {
        PreflightOutcome::Deny { content, capability, resource, reason } => {
            assert!(content.starts_with(
                "PERMISSION_OUT_OF_SCOPE: exec 'rm' is outside the current envelope (exec disabled)."
            ));
            assert_eq!((capability.as_str(), resource.as_str()), ("exec", "rm"));
            assert_eq!(reason, "ExecDisabled");
        }
        other => panic!("{other:?}"),
    }
    assert_eq!(capability_str(&ExpansionCapability::Network), "network");
    let tags: Vec<&str> = [
        DenyReason::NotInAllowList,
        DenyReason::MatchesDeny,
        DenyReason::NetworkDisabled,
        DenyReason::HostDenied("h".to_string()),
        DenyReason::CommandBlacklisted("c".to_string()),
    ]
    .iter()
    .map(|r| deny_reason_tag(r))
    .collect();
    assert_eq!(
        tags,
        vec!["NotInAllowList", "MatchesDeny", "NetworkDisabled", "HostDenied", "CommandBlacklisted"]
    );
}

// ── Prompts ────────────────────────────────────────────────────────────────

fn envelope() -> EnvelopeSummary {
    EnvelopeSummary {
        read_allow: vec!["**".to_string()],
        write_allow: vec!["src/**".to_string(), "tests/**".to_string()],
        write_deny: vec![],
        network_enabled: true,
        host_allow: vec![],
        host_deny: vec!["evil.example".to_string()],
        exec_enabled: false,
        approve_major_steps: true,
        skill_budget: 3,
    }
}

#[test]
fn prompts_hold_their_blocks_in_order() {
    let block = envelope_summary_block(&envelope());
    assert_eq!(
        block,
        "<permission_envelope>\n- read_allow: **\n- write_allow: src/**, tests/**\n- write_deny: (none)\n- network_allow: any\n- network_deny: evil.example\n- exec: disabled\n- approval_cadence: per-major-step\n- skill_budget: 3\n</permission_envelope>"
    );
    let mode = ModePrompt {
        name: "act".to_string(),
        acts: true,
        lens: Some("debug".to_string()),
        prefix: "Act.".to_string(),
    };
    let parts = PromptParts {
        mode: Some(mode),
        envelope: Some(envelope()),
        base: "Be kind.".to_string(),
        effort: Some("Think.".to_string()),
    };
    let rules = behavior_rules_preamble();
    assert_eq!(
        effective_system_prompt(&parts),
        format!("{rules}\n\n<agent_mode mode=\"act\" lens=\"debug\">\nAct.\n</agent_mode>\n\n{block}\n\nBe kind.\n\n<effort_level>\nThink.\n</effort_level>")
    );
    let bare = PromptParts { mode: None, envelope: None, base: String::new(), effort: None };
    assert_eq!(effective_system_prompt(&bare), rules);
    let closed = EnvelopeSummary { network_enabled: false, ..envelope() };
    assert!(envelope_summary_block(&closed).contains("network_allow: (disabled)"));
}

#[test]
fn prompts_are_added_to() {
    assert_eq!(with_routing("p", "skill"), "p\n\nskill");
    assert_eq!(with_instructions("p", ""), "p");
    assert!(verification_prompt("p").starts_with("p\n\nVERIFICATION ROLLOUT: "));
    assert!(summary_request_prompt("p", 30).contains("You have used all 30 tool iterations."));
    assert_eq!(effective_max_tokens(Some(5), Some(6)), 5);
    assert_eq!(effective_max_tokens(None, Some(6)), 6);
    assert_eq!(effective_max_tokens(None, None), 128_000);
    assert_eq!(effective_model(None, "s"), "s");
    assert_eq!(effective_model(Some("q"), "s"), "q");
}

#[test]
fn budgets_follow_the_model() {
    let mut b =
        TokenBudget { context_limit: 10, reserved_output: 2, used_input: 3, used_output: 4 };
    assert!(!b.apply_model(10, 2));
    assert!(b.apply_model(20, 2));
    assert_eq!((b.context_limit, b.used_input), (20, 3));
}

#[test]
fn working_memory_pairs_calls_with_results() {
    let mut m = Message::assistant("hello");
    assert_eq!(working_message(&m).pair_id, None);
    assert_eq!(working_message(&m).tokens, 2);
    m.tool_calls.push(ToolUse { id: "a".into(), name: "t".into(), input: "{}".into() });
    assert_eq!(working_message(&m).pair_id.as_deref(), Some("a"));
    let mut r = Message::plain("tool", "");
    r.tool_result = Some(ToolResult::success("x").with_tool_use_id("b"));
    assert_eq!(working_message(&r).pair_id.as_deref(), Some("b"));
    assert_eq!(working_message(&r).tokens, 0);
}

// ── Votes ──────────────────────────────────────────────────────────────────

#[test]
fn failed_rollouts_do_not_vote() {
    let mut vote = Vote::new("a", 3);
    assert!(vote.ask_again(false));
    assert!(vote.asked_again(Rollout::Answer("b".to_string())).is_empty());
    assert_eq!(
        shown(&vote.asked_again(Rollout::Answer("  ".to_string()))),
        "Error { message: \"verification rollout 2 returned empty content\" }\n"
    );
    assert_eq!(
        shown(&vote.asked_again(Rollout::Failed("offline".to_string()))),
        "Error { message: \"verification rollout 3 failed: offline\" }\n"
    );
    assert!(!vote.ask_again(false));
    assert_eq!(vote.ballots, vec!["a", "b"]);
    assert!(vote.is_meaningful());
    let outcome = VoteOutcome {
        winner: "b".to_string(),
        winner_votes: 1,
        total_votes: 2,
        had_majority: true,
    };
    let (winner, told) = vote.counted("a", Some(outcome));
    assert_eq!(winner.as_deref(), Some("b"));
    assert_eq!(
        shown(&told),
        "VerificationCompleted { ballots_collected: 2, agreed: true, cancelled: false }\nError { message: \"verification: 1/2 ballots agreed (majority=true)\" }\n"
    );
}

#[test]
fn lonely_ballots_decide_nothing() {
    let mut vote = Vote::new("a", 2);
    assert!(!vote.ask_again(true));
    assert!(vote.cancelled);
    assert!(!vote.is_meaningful());
    let (winner, told) = vote.counted("a", None);
    assert_eq!(winner, None);
    assert_eq!(
        shown(&told),
        "VerificationCompleted { ballots_collected: 1, agreed: false, cancelled: true }\n"
    );
}

#[test]
fn votes_say_how_they_weigh() {
    assert_eq!(
        format!("{:?}", vote_started(VoteKind::Confidence, 4)),
        "VerificationStarted { strategy: \"cisc_weighted_vote\", sample_count: 4 }"
    );
    assert!(format!("{:?}", vote_started(VoteKind::ProcessReward, 4)).contains("prm_weighted_vote"));
    assert!(format!("{:?}", gate_vote_started()).contains("test_gated"));
    assert!(format!("{:?}", gate_vote_completed(true)).contains("cancelled: true"));
    assert!(format!("{:?}", gate_missing()).contains("no TestGateConfig provided"));
    let (kind, told) = weighing(VoteKind::ProcessReward, false);
    assert_eq!(kind, VoteKind::Plain);
    assert!(format!("{:?}", told.unwrap()).contains("no StepVerifier provided"));
    let (kind, told) = weighing(VoteKind::Confidence, true);
    assert_eq!(kind, VoteKind::Confidence);
    assert!(told.is_none());
    assert!(weighing(VoteKind::Confidence, false).1.is_some());
    assert!(weighing(VoteKind::Plain, false).1.is_none());
}

#[test]
fn inputs_that_are_no_json_are_null() {
    let scope = classify_tool_call("bash", &input_of("{\"command\":\"ls\"}"));
    assert_eq!(scope.resource, "ls");
    assert!(matches!(input_of("{\"command\":"), Json::Null));
    assert!(matches!(input_of("true"), Json::Bool(true)));
    assert!(matches!(input_or_null(None), Json::Null));
    assert!(matches!(input_or_null(Some(Json::Bool(false))), Json::Bool(false)));
}

#[test]
fn messages_are_mirrored_with_their_pairs() {
    let mut request = Message::assistant("calling");
    for id in ["c1", "c2"] {
        let (name, input) = ("grep".to_string(), "{}".to_string());
        request.tool_calls.push(ToolUse { id: id.to_string(), name, input });
    }
    let mut result = Message::user("é");
    result.role = "tool".to_string();
    result.tool_result = Some(ToolResult::success("é").with_tool_use_id("c1"));
    let entries = working_entries(&[Message::user("hello"), request, result]);
    let shown: Vec<_> = entries
        .iter()
        .map(|e| (e.role.as_str(), e.text.as_str(), e.tokens, e.pair_id.as_deref()))
        .collect();
    assert_eq!(
        shown,
        vec![
            ("user", "hello", 2, None),
            ("assistant", "calling", 2, Some("c1")),
            ("tool", "é", 1, Some("c1")),
        ]
    );
}
