use caduceus::assembler::MessageAssembler;
use caduceus::context::{
    estimate_tokens, retrieve_relevant_context, CompactionStrategy, ContextBreakdown,
    ContextCommand, ContextZone, Percentage,
};
use caduceus::context_manager::{truncate_str, ContextManager};
use caduceus::context_view::Shares;
use caduceus::message::{Message, ToolResult, ToolUse};
use caduceus::sources::{ContextAssembler, ContextSource};

/// A percentage with one digit after the point.
fn percent(p: f64) -> Percentage {
    Percentage { part: (p * 10.0).round() as u64, whole: 10 }
}

fn value(p: Percentage) -> f64 {
    p.part as f64 / p.whole as f64
}

fn visualize(mgr: &ContextManager, b: &ContextBreakdown) -> String {
    let share = |tokens: u32| format!("{:.1}", tokens as f64 / b.context_limit as f64 * 100.0);
    let pct = value(b.fill_percentage());
    let filled = ((pct / 100.0) * 50.0).round() as usize;
    let shares = Shares {
        system_prompt: share(b.system_prompt_tokens),
        tool_schemas: share(b.tool_schemas_tokens),
        project_context: share(b.project_context_tokens),
        conversation: share(b.conversation_tokens),
        tool_results: share(b.tool_results_tokens),
        pinned_context: share(b.pinned_context_tokens),
    };
    mgr.format_visualization(b, &format!("{pct:.1}"), filled, &shares)
}

fn make_messages(count: usize) -> Vec<Message> {
    (0..count)
        .map(|i| {
            if i % 2 == 0 {
                Message::user(&format!("User message {i}"))
            } else {
                Message::assistant(&format!("Assistant reply {i}"))
            }
        })
        .collect()
}

fn default_breakdown() -> ContextBreakdown {
    ContextBreakdown {
        system_prompt_tokens: 0,
        tool_schemas_tokens: 0,
        project_context_tokens: 0,
        conversation_tokens: 0,
        tool_results_tokens: 0,
        pinned_context_tokens: 0,
        total_tokens: 0,
        context_limit: 1000,
        zone: ContextZone::Green,
    }
}

#[test]
fn zone_from_percentage() {
    assert_eq!(ContextZone::from_percentage(percent(0.0)), ContextZone::Green);
    assert_eq!(ContextZone::from_percentage(percent(25.0)), ContextZone::Green);
    assert_eq!(ContextZone::from_percentage(percent(49.9)), ContextZone::Green);
    assert_eq!(ContextZone::from_percentage(percent(50.0)), ContextZone::Yellow);
    assert_eq!(ContextZone::from_percentage(percent(69.9)), ContextZone::Yellow);
    assert_eq!(ContextZone::from_percentage(percent(70.0)), ContextZone::Orange);
    assert_eq!(ContextZone::from_percentage(percent(84.9)), ContextZone::Orange);
    assert_eq!(ContextZone::from_percentage(percent(85.0)), ContextZone::Red);
    assert_eq!(ContextZone::from_percentage(percent(94.9)), ContextZone::Red);
    assert_eq!(ContextZone::from_percentage(percent(95.0)), ContextZone::Critical);
    assert_eq!(ContextZone::from_percentage(percent(100.0)), ContextZone::Critical);
}

#[test]
fn zone_display_and_labels() {
    assert_eq!(ContextZone::Green.label(), "GREEN");
    assert_eq!(ContextZone::Critical.label(), "CRITICAL");
    assert_eq!(ContextZone::Orange.label(), "ORANGE");
}

#[test]
fn estimate_tokens_basic() {
    // ~3.75 chars/token with 10% safety margin
    let tokens = estimate_tokens("hello world");
    assert!(tokens > 0);
    // 11 chars / 3.75 * 1.1 ≈ 3.23 → 4
    assert!(tokens >= 3 && tokens <= 5, "got {tokens}");
}

#[test]
fn estimate_tokens_empty() {
    assert_eq!(estimate_tokens(""), 0);
}

#[test]
fn assembled_context_enforces_token_budget() {
    let mut assembler = ContextAssembler::new(18);
    assembler.add_source(ContextSource::SystemPrompt("You are helpful.".repeat(3)));
    assembler.add_source(ContextSource::ConversationHistory(vec![
        "First turn".to_string(),
        "Second turn".to_string(),
        "Third turn".to_string(),
    ]));

    let assembled = assembler.assemble();

    assert!(assembled.total_tokens <= 18);
    assert!(!assembled.sources_included.is_empty());
}

#[test]
fn assembled_context_respects_priority_ordering() {
    let mut assembler = ContextAssembler::new(200);
    assembler.add_source(ContextSource::ConversationHistory(vec![
        "recent turn".to_string()
    ]));
    assembler.add_source(ContextSource::FileContext {
        path: "b.rs".to_string(),
        content: "lower priority".to_string(),
        priority: 1,
    });
    assembler.add_source(ContextSource::SystemPrompt("system".to_string()));
    assembler.add_source(ContextSource::FileContext {
        path: "a.rs".to_string(),
        content: "higher priority".to_string(),
        priority: 10,
    });

    let assembled = assembler.assemble();

    assert_eq!(
        assembled.sources_included,
        vec![
            "system_prompt".to_string(),
            "file:a.rs".to_string(),
            "file:b.rs".to_string(),
            "conversation_history".to_string(),
        ]
    );
}

#[test]
fn assembled_context_tracks_truncation() {
    let mut assembler = ContextAssembler::new(10);
    assembler.add_source(ContextSource::Pinned(
        "Pinned context is important.".repeat(2),
    ));
    assembler.add_source(ContextSource::GitDiff("+".repeat(200)));

    let assembled = assembler.assemble();

    assert!(assembled.total_tokens <= 10);
    assert!(assembled
        .sources_truncated
        .contains(&"git_diff".to_string()));
}

#[test]
fn breakdown_fill_percentage() {
    let b = ContextBreakdown {
        system_prompt_tokens: 100,
        tool_schemas_tokens: 50,
        project_context_tokens: 0,
        conversation_tokens: 350,
        tool_results_tokens: 0,
        pinned_context_tokens: 0,
        total_tokens: 500,
        context_limit: 1000,
        zone: ContextZone::Yellow,
    };
    assert!((value(b.fill_percentage()) - 50.0).abs() < 0.01);
    assert_eq!(b.remaining_tokens(), 500);
}

#[test]
fn breakdown_zero_limit() {
    let b = ContextBreakdown {
        system_prompt_tokens: 0,
        tool_schemas_tokens: 0,
        project_context_tokens: 0,
        conversation_tokens: 0,
        tool_results_tokens: 0,
        pinned_context_tokens: 0,
        total_tokens: 0,
        context_limit: 0,
        zone: ContextZone::Green,
    };
    assert!((value(b.fill_percentage()) - 0.0).abs() < 0.01);
}

#[test]
fn should_compact_zones() {
    let mgr = ContextManager::new(1000);

    // Green — no compact
    let green = ContextBreakdown {
        total_tokens: 300,
        context_limit: 1000,
        zone: ContextZone::Green,
        ..default_breakdown()
    };
    assert!(!mgr.should_compact(&green));

    // Yellow — no compact
    let yellow = ContextBreakdown {
        total_tokens: 550,
        context_limit: 1000,
        zone: ContextZone::Yellow,
        ..default_breakdown()
    };
    assert!(!mgr.should_compact(&yellow));

    // Orange — compact
    let orange = ContextBreakdown {
        total_tokens: 750,
        context_limit: 1000,
        zone: ContextZone::Orange,
        ..default_breakdown()
    };
    assert!(mgr.should_compact(&orange));

    // Red — compact
    let red = ContextBreakdown {
        total_tokens: 900,
        context_limit: 1000,
        zone: ContextZone::Red,
        ..default_breakdown()
    };
    assert!(mgr.should_compact(&red));

    // Critical — compact
    let critical = ContextBreakdown {
        total_tokens: 960,
        context_limit: 1000,
        zone: ContextZone::Critical,
        ..default_breakdown()
    };
    assert!(mgr.should_compact(&critical));
}

#[test]
fn compact_truncate() {
    let mgr = ContextManager::new(200_000);
    let msgs = make_messages(10);
    let strategy = CompactionStrategy::Truncate { keep_last_n: 3 };
    let result = mgr.compact(&msgs, &strategy);
    assert_eq!(result.len(), 3);
    assert_eq!(result[0].content, "Assistant reply 7");
    assert_eq!(result[2].content, "Assistant reply 9");
}

#[test]
fn compact_summarize() {
    let mgr = ContextManager::new(200_000);
    let msgs = make_messages(10);
    let strategy = CompactionStrategy::Summarize { preserve_last_n: 3 };
    let result = mgr.compact(&msgs, &strategy);
    // 1 summary message + 3 preserved
    assert_eq!(result.len(), 4);
    assert_eq!(result[0].role, "system");
    assert!(result[0].content.contains("Compacted conversation summary"));
}

#[test]
fn compact_hybrid() {
    let mgr = ContextManager::new(200_000);
    let msgs = make_messages(10);
    let strategy = CompactionStrategy::Hybrid {
        summarize_before: 5,
        keep_verbatim: 3,
    };
    let result = mgr.compact(&msgs, &strategy);
    // 1 summary + 3 verbatim
    assert_eq!(result.len(), 4);
    assert_eq!(result[0].role, "system");
}

#[test]
fn compact_smart_budget() {
    let mgr = ContextManager::new(200_000);
    let msgs = make_messages(6);
    // Each message is short (~5 tokens), budget of 20 should fit several
    let strategy = CompactionStrategy::Smart { budget_tokens: 20 };
    let result = mgr.compact(&msgs, &strategy);
    assert!(!result.is_empty());
    assert!(result.len() <= msgs.len());
}

#[test]
fn compact_empty() {
    let mgr = ContextManager::new(200_000);
    let result = mgr.compact(&[], &CompactionStrategy::Truncate { keep_last_n: 5 });
    assert!(result.is_empty());
}

#[test]
fn pin_and_unpin() {
    let mut mgr = ContextManager::new(200_000);
    mgr.pin("task", "Implement context management");
    assert_eq!(mgr.list_pins().len(), 1);
    assert_eq!(mgr.list_pins()[0].label, "task");
    assert!(mgr.list_pins()[0].tokens > 0);

    // Re-pin with same label replaces
    mgr.pin("task", "Updated task description");
    assert_eq!(mgr.list_pins().len(), 1);
    assert!(mgr.list_pins()[0].content.contains("Updated"));

    // Add another pin
    mgr.pin("notes", "Some important notes");
    assert_eq!(mgr.list_pins().len(), 2);

    // Unpin
    assert!(mgr.unpin("task"));
    assert_eq!(mgr.list_pins().len(), 1);
    assert_eq!(mgr.list_pins()[0].label, "notes");

    // Unpin non-existent
    assert!(!mgr.unpin("nonexistent"));
}

#[test]
fn pinned_tokens_counted() {
    let mut mgr = ContextManager::new(1000);
    mgr.pin("info", "Some pinned information that matters");

    let msgs = make_messages(2);
    let breakdown = mgr.get_breakdown(&msgs, "system prompt", "{}");

    assert!(breakdown.pinned_context_tokens > 0);
    assert!(breakdown.total_tokens > 0);
}

#[test]
fn auto_compact_trigger() {
    let mgr = ContextManager::new(100).with_auto_compact_threshold(percent(50.0));

    // Create messages that exceed 50% of 100 tokens
    let msgs: Vec<Message> = (0..20)
        .map(|i| {
            Message::user(&format!(
                "This is a reasonably long message number {i} with enough content"
            ))
        })
        .collect();

    let result = mgr.auto_compact_if_needed(&msgs, "", "");
    assert!(result.is_some(), "Should trigger compaction");
    let compacted = result.unwrap();
    assert!(compacted.len() < msgs.len());
}

#[test]
fn auto_compact_no_trigger() {
    let mgr = ContextManager::new(1_000_000);

    let msgs = make_messages(2);
    let result = mgr.auto_compact_if_needed(&msgs, "short", "{}");
    assert!(result.is_none(), "Should not trigger with tiny usage");
}

#[test]
fn visualization_output() {
    let mgr = ContextManager::new(10_000);
    let breakdown = ContextBreakdown {
        system_prompt_tokens: 500,
        tool_schemas_tokens: 200,
        project_context_tokens: 100,
        conversation_tokens: 3000,
        tool_results_tokens: 1500,
        pinned_context_tokens: 200,
        total_tokens: 5500,
        context_limit: 10_000,
        zone: ContextZone::Yellow,
    };

    let vis = visualize(&mgr, &breakdown);
    assert!(vis.contains("YELLOW"));
    assert!(vis.contains("System prompt"));
    assert!(vis.contains("Conversation"));
    assert!(vis.contains("Remaining"));
    assert!(vis.contains("█")); // filled bar
    assert!(vis.contains("░")); // empty bar
}

#[test]
fn context_command_parse() {
    assert_eq!(ContextCommand::parse(""), ContextCommand::Overview);
    assert_eq!(
        ContextCommand::parse("breakdown"),
        ContextCommand::Breakdown
    );
    assert_eq!(ContextCommand::parse("compact"), ContextCommand::Compact);
    assert_eq!(
        ContextCommand::parse("compact --strategy summarize"),
        ContextCommand::CompactWithStrategy("summarize".into())
    );
    assert_eq!(
        ContextCommand::parse("pin task Build the feature"),
        ContextCommand::Pin {
            label: "task".into(),
            content: "Build the feature".into(),
        }
    );
    assert_eq!(
        ContextCommand::parse("unpin task"),
        ContextCommand::Unpin {
            label: "task".into()
        }
    );
    assert_eq!(ContextCommand::parse("pins"), ContextCommand::Pins);
    assert_eq!(ContextCommand::parse("zone"), ContextCommand::Zone);
    assert_eq!(ContextCommand::parse("clear"), ContextCommand::Clear);
}

#[test]
fn strategy_from_name() {
    assert!(CompactionStrategy::from_name("summarize").is_some());
    assert!(CompactionStrategy::from_name("truncate").is_some());
    assert!(CompactionStrategy::from_name("hybrid").is_some());
    assert!(CompactionStrategy::from_name("smart").is_some());
    assert!(CompactionStrategy::from_name("HYBRID").is_some());
    assert!(CompactionStrategy::from_name("invalid").is_none());
}

#[test]
fn retrieve_relevant_context_budget() {
    let results = vec![
        ("a.rs".into(), "fn_a".into(), "fn a() {}".into(), 0.9),
        (
            "b.rs".into(),
            "fn_b".into(),
            "fn b() { let x = 1; let y = 2; }".into(),
            0.8,
        ),
        ("c.rs".into(), "fn_c".into(), "fn c() {}".into(), 0.7),
    ];
    let chunks = retrieve_relevant_context(results, 10);
    // Budget is tight — should include only chunks that fit
    assert!(!chunks.is_empty());
    let total: u32 = chunks.iter().map(|c| c.tokens).sum();
    assert!(total <= 10);
}

#[test]
fn pictures_are_aligned() {
    let mgr = ContextManager::new(10_000);
    let b = ContextBreakdown {
        system_prompt_tokens: 500,
        total_tokens: 5500,
        context_limit: 10_000,
        zone: ContextZone::Yellow,
        ..default_breakdown()
    };
    let vis = visualize(&mgr, &b);
    let lines: Vec<&str> = vis.lines().collect();
    assert_eq!(lines[0], "Context: \u{1b}[33m[YELLOW]\u{1b}[0m 55.0% (5500 / 10000 tokens)");
    let bar = format!("  \u{1b}[33m[{}{}]\u{1b}[0m", "█".repeat(28), "░".repeat(22));
    assert_eq!(lines[1], bar);
    assert_eq!(lines[2], format!("  {:<18} {:>8} ({:>5.1}%)", "System prompt", 500, 5.0));
    assert_eq!(lines[8], format!("  {:<18} {:>8}", "Remaining", 4500));
    let plain = mgr.format_breakdown_plain(&b, "55.0");
    assert!(plain.starts_with("Context Breakdown — YELLOW zone (55.0%)\nTotal: 5500 / 10000\n\n"));
    assert!(plain.ends_with("\nRemaining: 4500\n"));
}

#[test]
fn summaries_name_the_first_and_the_last() {
    let mgr = ContextManager::new(1000);
    let msgs = make_messages(4);
    let kept = mgr.compact(&msgs, &CompactionStrategy::Summarize { preserve_last_n: 1 });
    assert_eq!(
        kept[0].content,
        "[Compacted conversation summary]\n(3 messages, ~45 chars compacted)\n\nFirst (user): User message 0\nLast (user): User message 2\n"
    );
    assert_eq!(kept[1].content, "Assistant reply 3");
    let all = mgr.compact(&msgs, &CompactionStrategy::Summarize { preserve_last_n: 9 });
    assert_eq!(all.len(), 4);
    let last = mgr.compact(&msgs, &CompactionStrategy::Smart { budget_tokens: 0 });
    assert_eq!(last.len(), 1);
    assert_eq!(last[0].content, "Assistant reply 3");
}

#[test]
fn previews_count_characters() {
    assert_eq!(truncate_str("abc", 3), "abc");
    assert_eq!(truncate_str("abcd", 3), "abc…");
    assert_eq!(truncate_str("äöü", 3), "äöü");
}

#[test]
fn thresholds_are_clamped() {
    let msgs = make_messages(2);
    let tight = ContextManager::new(20).with_auto_compact_threshold(percent(150.0));
    assert!(tight.auto_compact_if_needed(&msgs, "", "").is_none());
    let loose = ContextManager::new(12).with_auto_compact_threshold(percent(150.0));
    let total = loose.get_breakdown(&msgs, "", "").total_tokens;
    assert_eq!(total, 10);
    assert!(loose.auto_compact_if_needed(&msgs, "", "").is_none());
    let low = ContextManager::new(20).with_auto_compact_threshold(percent(1.0));
    assert!(low.auto_compact_if_needed(&msgs, "", "").is_some());
    let lower = ContextManager::new(21).with_auto_compact_threshold(percent(1.0));
    assert!(lower.auto_compact_if_needed(&msgs, "", "").is_none());
}

#[test]
fn roles_count_apart() {
    let mgr = ContextManager::new(1000);
    let msgs = vec![Message::system("abcd"), Message::plain("tool", "abcdefgh"), Message::user("x")];
    let b = mgr.get_breakdown(&msgs, "prompt", "{}");
    assert_eq!(b.project_context_tokens, 2);
    assert_eq!(b.tool_results_tokens, 3);
    assert_eq!(b.conversation_tokens, 1);
    assert_eq!(b.system_prompt_tokens, 2);
    assert_eq!(b.tool_schemas_tokens, 1);
    assert_eq!(b.total_tokens, 9);
    assert_eq!(b.zone, ContextZone::Green);
}

#[test]
fn commands_go_by_any_case() {
    assert_eq!(ContextCommand::parse("  ZONE "), ContextCommand::Zone);
    assert_eq!(ContextCommand::parse("pin task"), ContextCommand::Overview);
    assert_eq!(ContextCommand::parse("compact --strategy"), ContextCommand::Compact);
    assert_eq!(ContextCommand::parse("what"), ContextCommand::Overview);
    let strategy = CompactionStrategy::from_name("Smart").unwrap();
    assert_eq!(strategy.name(), "smart");
    assert_eq!(strategy, CompactionStrategy::Smart { budget_tokens: 50_000 });
}

#[test]
fn histories_keep_their_latest_messages() {
    let mut assembler = ContextAssembler::new(12);
    let lines: Vec<String> = (0..5).map(|i| format!("message {i}")).collect();
    assembler.add_source(ContextSource::ConversationHistory(lines));
    let out = assembler.assemble();
    assert_eq!(out.content, "[Conversation History]\nmessage 4");
    assert_eq!(out.sources_truncated, vec!["conversation_history"]);
    assert!(out.total_tokens <= 12);
}

#[test]
fn long_texts_end_in_an_ellipsis() {
    let mut assembler = ContextAssembler::new(8);
    assembler.add_source(ContextSource::GitDiff("0123456789".repeat(5)));
    assembler.add_source(ContextSource::Pinned("x".to_string()));
    let out = assembler.assemble();
    assert_eq!(out.sources_included[0], "pinned");
    assert!(out.content.ends_with('…'), "{}", out.content);
    assert!(out.total_tokens <= 8);
    let empty = ContextAssembler::default().assemble();
    assert_eq!(empty.content, "");
}

#[test]
fn retrieval_passes_over_what_does_not_fit() {
    let results = vec![
        ("a".to_string(), "f".to_string(), "x".repeat(100), 0.9f32),
        ("b".to_string(), "g".to_string(), "abc".to_string(), 0.8),
        ("c".to_string(), "h".to_string(), "abcd".to_string(), 0.7),
        ("d".to_string(), "i".to_string(), "a".to_string(), 0.6),
    ];
    let chunks = retrieve_relevant_context(results, 3);
    let names: Vec<&str> = chunks.iter().map(|c| c.file_path.as_str()).collect();
    assert_eq!(names, vec!["b", "c"]);
    assert_eq!(chunks[0].score, 0.8);
}

fn call(id: &str) -> Message {
    let mut m = Message::assistant("calling");
    m.tool_calls.push(ToolUse { id: id.to_string(), name: "t".to_string(), input: "{}".to_string() });
    m
}

fn answer(id: &str) -> Message {
    let mut m = Message::plain("tool", "result");
    m.tool_result = Some(ToolResult::success("result").with_tool_use_id(id));
    m
}

#[test]
fn requests_never_part_a_call_from_its_result() {
    let history =
        vec![Message::user("first"), call("a"), answer("a"), Message::user("last question")];
    let roles = |max: u32| -> Vec<String> {
        MessageAssembler::new(max, "be brief")
            .with_project_context("a crate")
            .assemble(&history)
            .iter()
            .map(|m| m.role.clone())
            .collect()
    };
    assert_eq!(roles(10_000), vec!["system", "user", "assistant", "tool", "user"]);
    for max in 0..100 {
        let seen = roles(max);
        let calls = seen.iter().filter(|r| *r == "assistant").count();
        let results = seen.iter().filter(|r| *r == "tool").count();
        assert_eq!(calls, results, "{max}: {seen:?}");
    }
    assert_eq!(roles(0), vec!["system"]);
    let prompt = MessageAssembler::new(100, "p").with_project_context("c").assemble(&[]);
    assert_eq!(prompt[0].content, "p\n\n<project_context>\nc\n</project_context>");
}

#[test]
fn requests_do_not_start_with_a_result() {
    let history = vec![answer("gone"), answer("gone"), Message::user("hi")];
    let out = MessageAssembler::new(10_000, "p").assemble(&history);
    let roles: Vec<&str> = out.iter().map(|m| m.role.as_str()).collect();
    assert_eq!(roles, vec!["system", "user"]);
}

#[test]
fn pins_are_kept_by_label_and_dated() {
    let mut mgr = ContextManager::new(1000);
    mgr.pin("a", "one");
    assert!(mgr.list_pins()[0].pinned_at.secs > 1_500_000_000);
    mgr.pin("b", "two");
    mgr.pin("a", "three");
    let labels: Vec<&str> = mgr.list_pins().iter().map(|p| p.label.as_str()).collect();
    assert_eq!(labels, vec!["b", "a"]);
    assert_eq!(mgr.pinned_tokens(), 1 + 2);
    assert_eq!(mgr.limit(), 1000);
    mgr.set_strategy(CompactionStrategy::Truncate { keep_last_n: 1 });
    assert_eq!(mgr.strategy().name(), "truncate");
    let smart = ContextManager::new(10).with_strategy(CompactionStrategy::Smart { budget_tokens: 3 });
    assert_eq!(smart.strategy().name(), "smart");
}
