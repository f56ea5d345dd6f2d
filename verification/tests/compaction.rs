use caduceus::groups::{
    build_message_groups, build_message_groups_from_provider, CompactMessage, MessageGroup,
    MessageGroupKind,
};
use caduceus::message::{Message, ToolResult, ToolUse};
use caduceus::pipeline::CompactionPipeline;
use caduceus::strategies::{
    CompactionResult, CompactionStrategy, EmergencyTruncator, SlidingWindowStrategy,
    ToolCollapseStrategy,
};
use caduceus::summarize::{PatternCompactor, SummarizeStrategy};
use std::collections::HashSet;

fn msg(role: &str, content: &str) -> CompactMessage {
    CompactMessage::new(role, content)
}

fn groups_tokens(groups: &[MessageGroup]) -> usize {
    groups.iter().map(|g| g.total_tokens()).sum()
}

fn make_groups(specs: &[(&str, &str)]) -> Vec<MessageGroup> {
    let messages: Vec<CompactMessage> = specs.iter().map(|(r, c)| msg(r, c)).collect();
    build_message_groups(&messages)
}

struct AlwaysNoop;

impl CompactionStrategy for AlwaysNoop {
    fn name(&self) -> &str {
        "noop"
    }
    fn compact(&self, _: &mut Vec<MessageGroup>) -> CompactionResult {
        CompactionResult {
            removed_tokens: 0,
            groups_affected: 0,
        }
    }
}

#[test]
fn message_group_new_and_add() {
    let mut g = MessageGroup::new(MessageGroupKind::User);
    assert_eq!(g.total_tokens(), 0);
    assert!(!g.is_system());

    g.add_message(msg("user", "hello world"));
    assert!(g.total_tokens() > 0);
    assert_eq!(g.messages.len(), 1);
}

#[test]
fn message_group_is_system() {
    let g = MessageGroup::new(MessageGroupKind::System);
    assert!(g.is_system());
    let g2 = MessageGroup::new(MessageGroupKind::AssistantText);
    assert!(!g2.is_system());
}

#[test]
fn build_message_groups_consecutive_merge() {
    // Two consecutive user messages should be merged into one group.
    let groups = make_groups(&[
        ("user", "first"),
        ("user", "second"),
        ("assistant", "reply"),
    ]);
    assert_eq!(groups.len(), 2);
    assert_eq!(groups[0].kind, MessageGroupKind::User);
    assert_eq!(groups[0].messages.len(), 2);
    assert_eq!(groups[1].kind, MessageGroupKind::AssistantText);
}

#[test]
fn build_message_groups_system_not_merged() {
    let groups = make_groups(&[("system", "sys1"), ("system", "sys2"), ("user", "hello")]);
    // Each system message gets its own group (not merged).
    assert_eq!(groups[0].kind, MessageGroupKind::System);
    assert_eq!(groups[1].kind, MessageGroupKind::System);
}

#[test]
fn build_message_groups_tool_role() {
    let groups = make_groups(&[("user", "run it"), ("tool", "output"), ("assistant", "ok")]);
    assert_eq!(groups[1].kind, MessageGroupKind::ToolCall);
}

#[test]
fn pattern_compactor_collapses_atb_pattern() {
    // Build: AssistantText → ToolCall → AssistantText → User (tail)
    let mut groups = vec![
        {
            let mut g = MessageGroup::new(MessageGroupKind::AssistantText);
            g.add_message(msg("assistant", "I will call the tool"));
            g
        },
        {
            let mut g = MessageGroup::new(MessageGroupKind::ToolCall);
            g.add_message(msg("tool", "tool result data result data result data"));
            g
        },
        {
            let mut g = MessageGroup::new(MessageGroupKind::AssistantText);
            g.add_message(msg("assistant", "Here is the result"));
            g
        },
        {
            let mut g = MessageGroup::new(MessageGroupKind::User);
            g.add_message(msg("user", "thanks"));
            g
        },
    ];

    // Use a large retention_window so the pattern is outside the protected tail.
    let compactor = PatternCompactor {
        retention_window: 0,
    };
    let result = compactor.compact(&mut groups);

    assert_eq!(result.groups_affected, 1);
    assert!(result.removed_tokens > 0);
    // The tool call group should be marked excluded and shrunken.
    assert!(groups[1].excluded);
    assert!(groups[1].token_count < 10); // collapsed to ≤25 %
}

#[test]
fn pattern_compactor_respects_retention_window() {
    let mut groups = vec![
        {
            let mut g = MessageGroup::new(MessageGroupKind::AssistantText);
            g.add_message(msg("assistant", "call tool now"));
            g
        },
        {
            let mut g = MessageGroup::new(MessageGroupKind::ToolCall);
            g.add_message(msg("tool", "tool output data"));
            g
        },
        {
            let mut g = MessageGroup::new(MessageGroupKind::AssistantText);
            g.add_message(msg("assistant", "done"));
            g
        },
    ];

    // Retain all 3 non-system groups → pattern is inside the window → no compaction.
    let compactor = PatternCompactor {
        retention_window: 3,
    };
    let result = compactor.compact(&mut groups);
    assert_eq!(result.groups_affected, 0);
    assert!(!groups[1].excluded);
}

#[test]
fn pattern_compactor_skips_non_matching() {
    let mut groups = make_groups(&[("user", "hello"), ("assistant", "hi"), ("user", "bye")]);
    let compactor = PatternCompactor {
        retention_window: 0,
    };
    let result = compactor.compact(&mut groups);
    assert_eq!(result.groups_affected, 0);
}

#[test]
fn emergency_truncator_drops_oldest() {
    // 1 system + 5 user/assistant alternating
    let mut groups = make_groups(&[
        ("system", "You are helpful."),
        ("user", "msg 1"),
        ("assistant", "reply 1"),
        ("user", "msg 2"),
        ("assistant", "reply 2"),
        ("user", "msg 3"),
    ]);

    let truncator = EmergencyTruncator {
        minimum_preserved: 2,
    };
    let result = truncator.compact(&mut groups);

    // 5 non-system groups, preserve 2 → drop 3
    assert_eq!(result.groups_affected, 3);
    assert!(result.removed_tokens > 0);

    // System group is still present
    assert!(groups.iter().any(|g| g.is_system()));
    // Exactly 2 non-system groups remain
    let non_sys: Vec<_> = groups.iter().filter(|g| !g.is_system()).collect();
    assert_eq!(non_sys.len(), 2);
}

#[test]
fn emergency_truncator_preserves_minimum() {
    let mut groups = make_groups(&[("user", "only one non-system")]);
    let truncator = EmergencyTruncator {
        minimum_preserved: 5,
    };
    let result = truncator.compact(&mut groups);
    // Nothing to drop — minimum_preserved >= non-system count
    assert_eq!(result.groups_affected, 0);
    assert_eq!(groups.len(), 1);
}

#[test]
fn emergency_truncator_never_drops_system() {
    // Alternate roles so each message becomes its own group (no consecutive merging).
    let mut groups = make_groups(&[
        ("system", "System instructions"),
        ("user", "question a"),
        ("assistant", "answer a"),
        ("user", "question b"),
    ]);
    let truncator = EmergencyTruncator {
        minimum_preserved: 0,
    };
    let result = truncator.compact(&mut groups);
    // Drops all 3 non-system groups but keeps the system group.
    assert_eq!(result.groups_affected, 3);
    assert_eq!(groups.len(), 1);
    assert!(groups[0].is_system());
}

#[test]
fn pipeline_execution_order() {
    // 25 alternating user/assistant messages → 25 groups.
    // SummarizeStrategy (keep_recent=10) will summarise the 15 oldest
    // with truncated previews, producing a net token reduction.
    let big_content = "interesting ".repeat(200);
    let specs: Vec<(&str, String)> = (0..25)
        .map(|i| {
            if i % 2 == 0 {
                ("user", big_content.clone())
            } else {
                ("assistant", big_content.clone())
            }
        })
        .collect();
    let spec_refs: Vec<(&str, &str)> = specs.iter().map(|(r, c)| (*r, c.as_str())).collect();
    let mut groups = make_groups(&spec_refs);

    let total_before = groups_tokens(&groups);
    let pipeline = CompactionPipeline::default_pipeline(1); // tiny budget
    let result = pipeline.run(&mut groups);

    assert!(
        result.total_removed_tokens > 0,
        "expected tokens to be removed"
    );
    assert!(!result.strategies_applied.is_empty());
    let total_after: usize = groups.iter().map(|g| g.total_tokens()).sum();
    assert!(total_after < total_before);
}

#[test]
fn pipeline_stops_early_when_budget_met() {
    // Groups that already fit the budget → no strategies should run.
    let mut groups = make_groups(&[("user", "tiny")]);
    let pipeline = CompactionPipeline::default_pipeline(1_000_000);
    let result = pipeline.run(&mut groups);
    assert_eq!(result.total_removed_tokens, 0);
    assert!(result.strategies_applied.is_empty());
}

#[test]
fn pipeline_add_custom_strategy() {
    let mut pipeline = CompactionPipeline::new(0);
    pipeline.add_strategy(Box::new(AlwaysNoop));
    let mut groups = make_groups(&[("user", "hello")]);
    let result = pipeline.run(&mut groups);
    // Noop removes nothing → not recorded in strategies_applied.
    assert!(result.strategies_applied.is_empty());
}

#[test]
fn tool_collapse_merges_consecutive_tool_groups() {
    // Build groups manually so we have 3 distinct ToolCall groups back-to-back.
    // (build_message_groups coalesces consecutive same-kind messages, so we
    // construct the groups directly to simulate three separate tool turns.)
    let mut groups = vec![
        {
            let mut g = MessageGroup::new(MessageGroupKind::User);
            g.add_message(msg("user", "do it"));
            g
        },
        {
            let mut g = MessageGroup::new(MessageGroupKind::ToolCall);
            g.add_message(msg("tool", "result1 data data data data"));
            g
        },
        {
            let mut g = MessageGroup::new(MessageGroupKind::ToolCall);
            g.add_message(msg("tool", "result2 data data data data"));
            g
        },
        {
            let mut g = MessageGroup::new(MessageGroupKind::ToolCall);
            g.add_message(msg("tool", "result3 data data data data"));
            g
        },
        {
            let mut g = MessageGroup::new(MessageGroupKind::AssistantText);
            g.add_message(msg("assistant", "done"));
            g
        },
    ];

    let strategy = ToolCollapseStrategy;
    let result = strategy.compact(&mut groups);

    // 2 merges (3 tool groups → 1) → 2 groups_affected
    assert_eq!(result.groups_affected, 2);
    assert!(result.removed_tokens > 0);
    let tool_groups: Vec<_> = groups
        .iter()
        .filter(|g| g.kind == MessageGroupKind::ToolCall)
        .collect();
    assert_eq!(tool_groups.len(), 1);
}

#[test]
fn sliding_window_keeps_recent_groups() {
    let specs: Vec<(&str, String)> = (0..10)
        .map(|i| {
            if i % 2 == 0 {
                ("user", format!("user msg {i}"))
            } else {
                ("assistant", format!("reply {i}"))
            }
        })
        .collect();
    let spec_refs: Vec<(&str, &str)> = specs.iter().map(|(r, c)| (*r, c.as_str())).collect();
    let mut groups = make_groups(&spec_refs);

    let strategy = SlidingWindowStrategy { window_size: 4 };
    let result = strategy.compact(&mut groups);

    let non_sys_remaining = groups.iter().filter(|g| !g.is_system()).count();
    assert_eq!(non_sys_remaining, 4);
    assert!(result.removed_tokens > 0);
}

#[test]
fn summarize_strategy_does_not_panic_on_multibyte_utf8() {
    // 30 groups of emoji / CJK content — much longer than PREVIEW_CHARS bytes
    // but potentially shorter in chars.  Must not panic on byte slicing.
    let emoji_content = "🦀".repeat(200); // each '🦀' is 4 bytes
    let cjk_content = "你好世界".repeat(50); // each CJK char is 3 bytes

    let mut groups = Vec::new();
    for i in 0..15 {
        let content = if i % 2 == 0 {
            emoji_content.clone()
        } else {
            cjk_content.clone()
        };
        let mut g = MessageGroup::new(MessageGroupKind::User);
        g.add_message(msg("user", &content));
        groups.push(g);
    }
    for _ in 0..15 {
        let mut g = MessageGroup::new(MessageGroupKind::AssistantText);
        g.add_message(msg("assistant", &emoji_content));
        groups.push(g);
    }

    let strategy = SummarizeStrategy { keep_recent: 10 };
    // Must not panic regardless of content encoding.
    let result = strategy.compact(&mut groups);
    assert!(result.groups_affected > 0);
}

#[test]
fn summarize_preview_truncates_on_char_boundary() {
    // A string where bytes and chars diverge: 80 ASCII chars then an emoji.
    let content = format!("{}{}", "a".repeat(80), "🦀");
    let mut groups = vec![];
    for _ in 0..15 {
        let mut g = MessageGroup::new(MessageGroupKind::User);
        g.add_message(msg("user", &content));
        groups.push(g);
    }
    let strategy = SummarizeStrategy { keep_recent: 5 };
    let result = strategy.compact(&mut groups);
    // The result must not panic and must remove at least some groups.
    assert!(result.groups_affected > 0);
}

#[test]
fn structured_tool_pair_groups_atomically() {
    // assistant{tool_calls=[a]} + tool{use_id=a} must group together even
    // though their roles differ.
    let messages = vec![
        CompactMessage::assistant_with_tool_calls("calling", &["a"]),
        CompactMessage::tool_result("result-a", "a"),
        CompactMessage::new("user", "thanks"),
    ];
    let groups = build_message_groups(&messages);
    assert_eq!(groups.len(), 2);
    assert_eq!(groups[0].kind, MessageGroupKind::ToolCall);
    assert_eq!(groups[0].messages.len(), 2);
    assert_eq!(groups[0].messages[0].role, "assistant");
    assert_eq!(groups[0].messages[1].role, "tool");
    assert_eq!(groups[1].kind, MessageGroupKind::User);
}

#[test]
fn parallel_tool_calls_all_results_stay_in_one_group() {
    let messages = vec![
        CompactMessage::assistant_with_tool_calls("fan-out", &["a", "b", "c"]),
        CompactMessage::tool_result("ra", "a"),
        CompactMessage::tool_result("rb", "b"),
        CompactMessage::tool_result("rc", "c"),
    ];
    let groups = build_message_groups(&messages);
    assert_eq!(groups.len(), 1);
    assert_eq!(groups[0].messages.len(), 4);
}

#[test]
fn mismatched_tool_id_breaks_grouping_does_not_hop() {
    // The "wrong" id must terminate absorption — we must not skip over it
    // and pick up the matching `b` afterwards.
    let messages = vec![
        CompactMessage::assistant_with_tool_calls("calling", &["a", "b"]),
        CompactMessage::tool_result("ra", "a"),
        CompactMessage::tool_result("foreign", "wrong"),
        CompactMessage::tool_result("rb", "b"),
    ];
    let groups = build_message_groups(&messages);
    // First group: assistant + ra (stops at "wrong")
    assert_eq!(groups[0].kind, MessageGroupKind::ToolCall);
    assert_eq!(groups[0].messages.len(), 2);
    // The mismatched + "rb" both have role:tool with use_id, so they
    // classify as ToolCall and merge by same-kind.
    assert_eq!(groups[1].kind, MessageGroupKind::ToolCall);
    assert_eq!(groups[1].messages.len(), 2);
}

#[test]
fn tool_result_without_use_id_does_not_join_previous_group() {
    // Defensive: an orphan tool result (parsed without an id) must not be
    // absorbed into the previous assistant's atomic group.
    let messages = vec![
        CompactMessage::assistant_with_tool_calls("calling", &["a"]),
        CompactMessage::new("tool", "orphan-no-id"),
    ];
    let groups = build_message_groups(&messages);
    assert_eq!(groups.len(), 2);
    assert_eq!(groups[0].messages.len(), 1);
    assert_eq!(groups[0].messages[0].role, "assistant");
    assert_eq!(groups[1].kind, MessageGroupKind::ToolCall);
    assert_eq!(groups[1].messages.len(), 1);
}

#[test]
fn assistant_tool_call_without_results_is_safe_singleton() {
    let messages = vec![CompactMessage::assistant_with_tool_calls("calling", &["a"])];
    let groups = build_message_groups(&messages);
    assert_eq!(groups.len(), 1);
    assert_eq!(groups[0].kind, MessageGroupKind::ToolCall);
    assert_eq!(groups[0].messages.len(), 1);
}

#[test]
fn legacy_content_sniffing_still_classifies_tool_call() {
    // Backward compat: an old-style message with `<tool_call>` marker but
    // no structured tool_call_ids must still be classified as ToolCall.
    let messages = vec![
        CompactMessage::new("user", "do it"),
        CompactMessage::new("assistant", "<tool_call>{\"name\":\"x\"}</tool_call>"),
    ];
    let groups = build_message_groups(&messages);
    assert_eq!(groups[1].kind, MessageGroupKind::ToolCall);
}

#[test]
fn legacy_tool_use_substring_no_longer_false_positives() {
    // After the iteration-2 tightening, prose that merely mentions
    // "tool_use" must classify as AssistantText, not ToolCall.
    let messages = vec![
        CompactMessage::new("user", "explain"),
        CompactMessage::new(
            "assistant",
            "The tool_use pattern requires structured payloads.",
        ),
    ];
    let groups = build_message_groups(&messages);
    assert_eq!(groups[1].kind, MessageGroupKind::AssistantText);
}

#[test]
fn structured_metadata_wins_over_content_sniffing() {
    // An assistant whose content also contains a tool_use marker but with
    // an explicitly empty tool_call_ids set is still classified by content
    // (since structured fields are absent). Constructed via `new`, no ids.
    let messages = vec![CompactMessage::new("assistant", "<tool_call>foo</tool_call>")];
    let groups = build_message_groups(&messages);
    assert_eq!(groups[0].kind, MessageGroupKind::ToolCall);
}

#[test]
fn sliding_window_does_not_orphan_tool_result() {
    // 4 atomic units, window=2, so 2 oldest must drop. The pair must
    // either be fully present or fully absent — never split.
    let messages = vec![
        CompactMessage::new("user", "u1"),
        CompactMessage::assistant_with_tool_calls("call", &["a"]),
        CompactMessage::tool_result("ra", "a"),
        CompactMessage::new("user", "u2"),
        CompactMessage::new("assistant", "reply"),
        CompactMessage::new("user", "u3"),
    ];
    let mut groups = build_message_groups(&messages);
    let strategy = SlidingWindowStrategy { window_size: 2 };
    strategy.compact(&mut groups);

    // Every surviving tool result must have its assistant request in the
    // same group.
    for g in &groups {
        let asst_ids: HashSet<&str> = g
            .messages
            .iter()
            .filter(|m| m.role == "assistant")
            .flat_map(|m| m.tool_call_ids().iter().map(String::as_str))
            .collect();
        for m in &g.messages {
            if let Some(id) = m.tool_use_id() {
                assert!(
                    asst_ids.contains(id),
                    "orphan tool_result with use_id={id} survived sliding window"
                );
            }
        }
    }
}

#[test]
fn emergency_truncator_does_not_orphan_tool_result() {
    let messages = vec![
        CompactMessage::new("user", "u1"),
        CompactMessage::assistant_with_tool_calls("call", &["a"]),
        CompactMessage::tool_result("ra", "a"),
        CompactMessage::new("user", "u2"),
        CompactMessage::new("assistant", "reply"),
        CompactMessage::new("user", "u3"),
    ];
    let mut groups = build_message_groups(&messages);
    let strategy = EmergencyTruncator {
        minimum_preserved: 2,
    };
    strategy.compact(&mut groups);

    for g in &groups {
        let asst_ids: HashSet<&str> = g
            .messages
            .iter()
            .filter(|m| m.role == "assistant")
            .flat_map(|m| m.tool_call_ids().iter().map(String::as_str))
            .collect();
        for m in &g.messages {
            if let Some(id) = m.tool_use_id() {
                assert!(
                    asst_ids.contains(id),
                    "orphan tool_result with use_id={id} survived emergency truncate"
                );
            }
        }
    }
}

#[test]
fn tool_collapse_preserves_both_atomic_pairs() {
    // Iteration-2 fix: ToolCollapseStrategy must NOT drop atomic
    // pairs. Two adjacent transactions both survive — emergency
    // truncation handles age-based eviction, not pair collapse.
    let messages = vec![
        CompactMessage::assistant_with_tool_calls("call1", &["a"]),
        CompactMessage::tool_result("ra", "a"),
        CompactMessage::assistant_with_tool_calls("call2", &["b"]),
        CompactMessage::tool_result("rb", "b"),
    ];
    let mut groups = build_message_groups(&messages);
    assert_eq!(groups.len(), 2);
    assert!(groups[0].is_atomic());
    assert!(groups[1].is_atomic());
    let strategy = ToolCollapseStrategy;
    let result = strategy.compact(&mut groups);
    assert_eq!(result.groups_affected, 0, "must not collapse atomic pairs");
    assert_eq!(groups.len(), 2);
    assert!(groups[0].messages.iter().any(|m| m.role == "assistant"));
    assert!(groups[1].messages.iter().any(|m| m.role == "assistant"));
}

#[test]
fn tool_collapse_still_drops_legacy_non_atomic_tool_groups() {
    // Backward compat: legacy non-atomic ToolCall groups (built without
    // structured tool_call_ids) still collapse as before.
    let messages = vec![
        CompactMessage::new("assistant", "<tool_call>a</tool_call>"),
        CompactMessage::new("assistant", "<tool_call>b</tool_call>"),
    ];
    // Force two adjacent non-atomic ToolCall groups.
    let mut groups: Vec<MessageGroup> = messages
        .into_iter()
        .map(|m| {
            let mut g = MessageGroup::new(MessageGroupKind::ToolCall);
            g.add_message(m);
            g
        })
        .collect();
    let strategy = ToolCollapseStrategy;
    strategy.compact(&mut groups);
    assert_eq!(groups.len(), 1);
}

#[test]
fn parallel_tool_results_absorbed_regardless_of_order() {
    // The assistant requests THREE tool calls in one message; results
    // arrive out of order. All three results plus the request must end
    // up in a single atomic group.
    let messages = vec![
        CompactMessage::new("user", "do three things"),
        CompactMessage::assistant_with_tool_calls("a1", &["c1", "c2", "c3"]),
        CompactMessage::tool_result("third", "c3"),
        CompactMessage::tool_result("first", "c1"),
        CompactMessage::tool_result("second", "c2"),
        CompactMessage::new("user", "thanks"),
    ];
    let groups = build_message_groups(&messages);
    assert_eq!(groups.len(), 3);
    assert_eq!(groups[1].kind, MessageGroupKind::ToolCall);
    assert!(groups[1].is_atomic());
    assert_eq!(groups[1].messages.len(), 4);
    // Final user message must be its own group, not absorbed.
    assert_eq!(groups[2].kind, MessageGroupKind::User);
}

#[test]
fn multi_turn_tool_conversation_groups_correctly() {
    let messages = vec![
        CompactMessage::new("user", "u1"),
        CompactMessage::assistant_with_tool_calls("a1", &["c1"]),
        CompactMessage::tool_result("r1", "c1"),
        CompactMessage::new("user", "u2"),
        CompactMessage::assistant_with_tool_calls("a2", &["c2"]),
        CompactMessage::tool_result("r2", "c2"),
        CompactMessage::new("user", "u3"),
    ];
    let groups = build_message_groups(&messages);
    assert_eq!(groups.len(), 5);
    assert_eq!(groups[0].kind, MessageGroupKind::User);
    assert_eq!(groups[1].kind, MessageGroupKind::ToolCall);
    assert!(groups[1].is_atomic());
    assert_eq!(groups[2].kind, MessageGroupKind::User);
    assert_eq!(groups[3].kind, MessageGroupKind::ToolCall);
    assert!(groups[3].is_atomic());
    assert_eq!(groups[4].kind, MessageGroupKind::User);
}

#[test]
fn summarize_strategy_skips_atomic_groups() {
    let mut messages = vec![
        CompactMessage::new("user", "u1"),
        CompactMessage::assistant_with_tool_calls("a1", &["c1"]),
        CompactMessage::tool_result("r1", "c1"),
        CompactMessage::new("user", "u2"),
        CompactMessage::new("assistant", "a2"),
    ];
    messages[3].content = "u2 ".repeat(2000);
    messages[4].content = "a2 ".repeat(2000);
    let mut groups = build_message_groups(&messages);
    let original_atomic_msgs: Vec<Vec<(String, String)>> = groups
        .iter()
        .filter(|g| g.is_atomic())
        .map(|g| {
            g.messages
                .iter()
                .map(|m| (m.role.clone(), m.content.clone()))
                .collect()
        })
        .collect();
    let strategy = SummarizeStrategy { keep_recent: 1 };
    strategy.compact(&mut groups);
    let surviving_atomic_msgs: Vec<Vec<(String, String)>> = groups
        .iter()
        .filter(|g| g.is_atomic())
        .map(|g| {
            g.messages
                .iter()
                .map(|m| (m.role.clone(), m.content.clone()))
                .collect()
        })
        .collect();
    assert_eq!(
        surviving_atomic_msgs, original_atomic_msgs,
        "atomic groups must survive summarization byte-for-byte"
    );
}

#[test]
fn pattern_compactor_skips_atomic_middle_group() {
    let messages = vec![
        CompactMessage::new("assistant", "before"),
        CompactMessage::assistant_with_tool_calls("a1", &["c1"]),
        CompactMessage::tool_result("r1", "c1"),
        CompactMessage::new("assistant", "after"),
    ];
    let mut groups = build_message_groups(&messages);
    let before_count = groups.len();
    let compactor = PatternCompactor { retention_window: 0 };
    compactor.compact(&mut groups);
    assert_eq!(groups.len(), before_count);
    assert!(groups.iter().any(|g| g.is_atomic()));
}

#[test]
fn from_provider_message_populates_tool_call_ids_for_assistant() {
    let pmsg = Message {
        role: "assistant".into(),
        content: "calling tools".into(),
        content_blocks: None,
        tool_calls: vec![
            ToolUse {
                id: "call_1".into(),
                name: "fs_read".into(),
                input: "{}".to_string(),
            },
            ToolUse {
                id: "call_2".into(),
                name: "fs_write".into(),
                input: "{}".to_string(),
            },
        ],
        tool_result: None,
            cache_breakpoint: false,
    };
    let cm = CompactMessage::from_message(&pmsg);
    assert_eq!(cm.role, "assistant");
    assert_eq!(cm.tool_call_ids().to_vec(), vec!["call_1", "call_2"]);
    assert!(cm.tool_use_id().is_none());
}

#[test]
fn from_provider_message_populates_tool_use_id_for_tool_result() {
    let pmsg = Message {
        role: "tool".into(),
        content: "ok".into(),
        content_blocks: None,
        tool_calls: vec![],
        tool_result: Some(ToolResult::success("ok").with_tool_use_id("call_1")),
            cache_breakpoint: false,
    };
    let cm = CompactMessage::from_message(&pmsg);
    assert_eq!(cm.role, "tool");
    assert_eq!(cm.tool_use_id(), Some("call_1"));
    assert!(cm.tool_call_ids().is_empty());
}

#[test]
fn from_provider_messages_round_trip_through_grouping() {
    let provider_msgs = vec![
        Message::user("do it"),
        Message {
            role: "assistant".into(),
            content: "calling".into(),
            content_blocks: None,
            tool_calls: vec![ToolUse {
                id: "c1".into(),
                name: "fs_read".into(),
                input: "{}".to_string(),
            }],
            tool_result: None,
            cache_breakpoint: false,
        },
        Message {
            role: "tool".into(),
            content: "result".into(),
            content_blocks: None,
            tool_calls: vec![],
            tool_result: Some(ToolResult::success("result").with_tool_use_id("c1")),
            cache_breakpoint: false,
        },
    ];
    let compact: Vec<CompactMessage> = provider_msgs.iter().map(CompactMessage::from_message).collect();
    let groups = build_message_groups(&compact);
    assert_eq!(groups.len(), 2, "user + atomic tool-call group");
    assert_eq!(groups[1].kind, MessageGroupKind::ToolCall);
    assert!(groups[1].is_atomic());
    assert_eq!(groups[1].messages.len(), 2);
}

#[test]
fn build_message_groups_from_provider_preserves_atomic_pairs() {
    let provider_msgs = vec![
        Message::user("u"),
        Message {
            role: "assistant".into(),
            content: "calling".into(),
            content_blocks: None,
            tool_calls: vec![ToolUse {
                id: "c1".into(),
                name: "fs_read".into(),
                input: "{}".to_string(),
            }],
            tool_result: None,
            cache_breakpoint: false,
        },
        Message {
            role: "tool".into(),
            content: "r".into(),
            content_blocks: None,
            tool_calls: vec![],
            tool_result: Some(ToolResult::success("r").with_tool_use_id("c1")),
            cache_breakpoint: false,
        },
    ];
    let groups = build_message_groups_from_provider(&provider_msgs);
    assert_eq!(groups.len(), 2);
    assert_eq!(groups[1].kind, MessageGroupKind::ToolCall);
    assert!(groups[1].is_atomic());
}

#[test]
fn from_provider_message_uses_content_text_for_block_messages() {
    // Build a user message via with_content_blocks so `content` is
    // synthesized from blocks; the From impl must read the canonical
    // text via content_text(), not the legacy `content` field directly.
    let pmsg = Message::user("ignored").with_content_blocks(vec![
        "hello ".to_string(),
        "world".to_string(),
    ]);
    let cm = CompactMessage::from_message(&pmsg);
    assert_eq!(cm.content, "hello world");
}

#[test]
fn summarize_is_noop_when_all_non_system_are_atomic() {
    let messages = vec![
        CompactMessage::new("system", "sys"),
        CompactMessage::assistant_with_tool_calls("a1", &["c1"]),
        CompactMessage::tool_result("r1", "c1"),
        CompactMessage::assistant_with_tool_calls("a2", &["c2"]),
        CompactMessage::tool_result("r2", "c2"),
    ];
    let mut groups = build_message_groups(&messages);
    let atomic_count = groups.iter().filter(|g| g.is_atomic()).count();
    assert_eq!(atomic_count, 2);
    let strategy = SummarizeStrategy { keep_recent: 0 };
    let result = strategy.compact(&mut groups);
    assert_eq!(
        result.groups_affected, 0,
        "nothing to summarize when all non-system groups are atomic"
    );
}

#[test]
fn sliding_window_drops_atomic_group_as_whole_unit() {
    let messages = vec![
        CompactMessage::assistant_with_tool_calls("a1", &["c1", "c2"]),
        CompactMessage::tool_result("r1", "c1"),
        CompactMessage::tool_result("r2", "c2"),
        CompactMessage::new("user", "thanks"),
    ];
    let mut groups = build_message_groups(&messages);
    assert_eq!(groups.len(), 2);
    assert!(groups[0].is_atomic());
    assert_eq!(groups[0].messages.len(), 3);
    let strategy = SlidingWindowStrategy { window_size: 1 };
    strategy.compact(&mut groups);
    assert_eq!(groups.len(), 1);
    assert_eq!(groups[0].kind, MessageGroupKind::User);
    // No orphan tool result anywhere — atomic group went out as a whole.
    assert!(groups
        .iter()
        .all(|g| g.messages.iter().all(|m| m.role != "tool")));
}

#[test]
fn user_interrupting_tool_pair_prevents_absorption() {
    let messages = vec![
        CompactMessage::assistant_with_tool_calls("call", &["a"]),
        CompactMessage::new("user", "wait"),
        CompactMessage::tool_result("ra", "a"),
    ];
    let groups = build_message_groups(&messages);
    // Assistant alone in its atomic group (no result absorbed because the
    // user interrupted the immediately-following constraint).
    assert_eq!(groups[0].kind, MessageGroupKind::ToolCall);
    assert_eq!(groups[0].messages.len(), 1);
    assert!(groups[0].is_atomic());
    assert_eq!(groups[1].kind, MessageGroupKind::User);
    // Orphan tool result is its own non-atomic ToolCall group.
    assert_eq!(groups[2].kind, MessageGroupKind::ToolCall);
    assert!(!groups[2].is_atomic());
}

#[test]
fn full_pipeline_preserves_or_drops_atomic_groups_whole() {
    let provider_msgs = vec![
        Message::user("u1"),
        {
            let mut m = Message::assistant("call");
            m.tool_calls = vec![ToolUse {
                id: "c1".into(),
                name: "t".into(),
                input: "{}".to_string(),
            }];
            m
        },
        Message {
            role: "tool".into(),
            content: "x".repeat(5000),
            content_blocks: None,
            tool_calls: vec![],
            tool_result: Some(ToolResult::success(&"x".repeat(5000)).with_tool_use_id("c1")),
            cache_breakpoint: false,
        },
        Message::user("u2"),
        Message::assistant("done"),
    ];
    let mut groups = build_message_groups_from_provider(&provider_msgs);
    assert!(groups.iter().any(|g| g.is_atomic()));
    let pipeline = CompactionPipeline::default_pipeline(1);
    pipeline.run(&mut groups);
    // After aggressive compaction, prove no orphan tool_result survives.
    for g in &groups {
        let asst_ids: HashSet<&str> = g
            .messages
            .iter()
            .filter(|m| m.role == "assistant")
            .flat_map(|m| m.tool_call_ids().iter().map(String::as_str))
            .collect();
        for m in &g.messages {
            if let Some(id) = m.tool_use_id() {
                assert!(
                    asst_ids.contains(id),
                    "orphan tool_result {id} after full pipeline compaction"
                );
            }
        }
    }
}

#[test]
fn estimates_round_up() {
    assert_eq!(msg("user", "").token_estimate, 0);
    assert_eq!(msg("user", "a").token_estimate, 1);
    assert_eq!(msg("user", &"a".repeat(100)).token_estimate, 30);
    for n in [75usize, 150, 225, 300, 750, 7500] {
        let expected = (n as f64 / 3.75 * 1.1).ceil() as usize;
        assert_eq!(msg("user", &"a".repeat(n)).token_estimate, expected, "{n}");
    }
}

#[test]
fn grouping_keeps_every_message() {
    let messages = vec![
        msg("system", "s"),
        msg("user", "u"),
        CompactMessage::assistant_with_tool_calls("c", &["a"]),
        CompactMessage::tool_result("r", "a"),
        msg("user", "v"),
    ];
    let groups = build_message_groups(&messages);
    let seen: Vec<&str> =
        groups.iter().flat_map(|g| g.messages.iter().map(|m| m.content.as_str())).collect();
    assert_eq!(seen, vec!["s", "u", "c", "r", "v"]);
}

#[test]
fn default_strategies_run_in_order() {
    let mut groups = make_groups(&[("system", "s")]);
    for i in 0..30 {
        let mut g = MessageGroup::new(MessageGroupKind::ToolCall);
        g.add_message(msg("tool", &format!("{i} {}", "data ".repeat(100))));
        groups.push(g);
    }
    let result = CompactionPipeline::default_pipeline(1).run(&mut groups);
    assert_eq!(result.strategies_applied[0], "tool-collapse");
    assert!(groups[0].is_system());
}

#[test]
fn accessors_give_the_fields() {
    let msg = CompactMessage::new("user", "twelve chars");
    assert_eq!(msg.role(), msg.role);
    assert_eq!(msg.content(), msg.content);
    assert_eq!(msg.token_estimate(), msg.token_estimate);
    let mut group = MessageGroup::new(MessageGroupKind::User);
    group.add_message(msg);
    group.excluded = true;
    assert_eq!(group.kind(), MessageGroupKind::User);
    assert_eq!(group.messages().len(), 1);
    assert_eq!(group.total_tokens(), group.token_count);
    assert!(group.is_excluded());
}
