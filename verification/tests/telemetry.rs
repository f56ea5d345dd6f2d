use caduceus::telemetry::{CompactionEvent, CompactionTelemetry, StrategyStats};

fn mean_dropped(s: &StrategyStats) -> f64 {
    s.tokens_dropped as f64 / s.count as f64
}

fn re_ask_rate(s: &StrategyStats) -> Option<f64> {
    if s.labelled == 0 {
        None
    } else {
        Some(s.re_asked as f64 / s.labelled as f64)
    }
}

fn ev(strategy: &str, before: u32, after: u32, turn: u32) -> CompactionEvent {
    CompactionEvent {
        strategy: strategy.into(),
        tokens_before: before,
        tokens_after: after,
        messages_before: 10,
        messages_after: 5,
        turn_index: turn,
        at_secs: 0,
        downstream_re_ask: None,
    }
}

#[test]
fn record_and_query() {
    let mut tel = CompactionTelemetry::default();
    tel.record(ev("ToolCollapse", 1000, 700, 1));
    tel.record(ev("Summarize", 2000, 1200, 2));
    assert_eq!(tel.len(), 2);
    assert_eq!(tel.events()[0].tokens_dropped(), 300);
    assert_eq!(tel.events()[1].tokens_dropped(), 800);
    assert_eq!(tel.events()[1].messages_dropped(), 5);
}

#[test]
fn compaction_telemetry_capacity_evicts_oldest() {
    let mut tel = CompactionTelemetry::with_capacity(2);
    tel.record(ev("A", 100, 50, 1));
    tel.record(ev("B", 100, 50, 2));
    tel.record(ev("C", 100, 50, 3));
    assert_eq!(tel.len(), 2);
    assert_eq!(tel.events()[0].strategy, "B");
}

#[test]
fn mark_re_ask_finds_matching_turn() {
    let mut tel = CompactionTelemetry::default();
    tel.record(ev("Summarize", 100, 50, 7));
    assert!(tel.mark_re_ask(7, true));
    assert_eq!(tel.events()[0].downstream_re_ask, Some(true));
}

#[test]
fn mark_re_ask_misses_unknown_turn() {
    let mut tel = CompactionTelemetry::default();
    tel.record(ev("Summarize", 100, 50, 7));
    assert!(!tel.mark_re_ask(99, true));
}

#[test]
fn mark_re_ask_picks_latest_when_turn_repeats() {
    // Two compactions on the same turn — the most-recent one
    // (which is what would have caused a re-ask) gets the label.
    let mut tel = CompactionTelemetry::default();
    let mut a = ev("Summarize", 100, 50, 5);
    a.tokens_after = 60;
    let b = ev("ToolCollapse", 60, 30, 5);
    tel.record(a);
    tel.record(b);
    assert!(tel.mark_re_ask(5, false));
    assert_eq!(tel.events()[1].downstream_re_ask, Some(false));
    assert_eq!(tel.events()[0].downstream_re_ask, None);
}

#[test]
fn jsonl_roundtrip() {
    let mut tel = CompactionTelemetry::default();
    tel.record(ev("Summarize", 100, 50, 1));
    let jsonl = tel.to_jsonl();
    let parsed: serde_json::Value = serde_json::from_str(&jsonl).unwrap();
    assert_eq!(parsed["strategy"], "Summarize");
    assert_eq!(parsed["tokens_before"], 100);
    assert!(parsed["downstream_re_ask"].is_null());
    // to_jsonl does not drain.
    assert_eq!(tel.len(), 1);
}

#[test]
fn drain_jsonl_clears_ring() {
    let mut tel = CompactionTelemetry::default();
    tel.record(ev("Summarize", 100, 50, 1));
    tel.record(ev("ToolCollapse", 200, 150, 2));
    let jsonl = tel.drain_jsonl();
    assert!(jsonl.contains("Summarize"));
    assert!(jsonl.contains("ToolCollapse"));
    assert!(tel.is_empty());
}

#[test]
fn per_strategy_stats_aggregates_correctly() {
    let mut tel = CompactionTelemetry::default();
    let mut a = ev("Summarize", 100, 60, 1);
    a.downstream_re_ask = Some(true);
    let mut b = ev("Summarize", 200, 100, 2);
    b.downstream_re_ask = Some(false);
    let c = ev("ToolCollapse", 50, 30, 3);
    tel.record(a);
    tel.record(b);
    tel.record(c);
    let stats = tel.per_strategy_stats();
    let summarize = stats.iter().find(|s| s.strategy == "Summarize").unwrap();
    assert_eq!(summarize.count, 2);
    assert!((mean_dropped(summarize) - 70.0).abs() < 1e-6);
    assert_eq!(re_ask_rate(summarize), Some(0.5));
    let collapse = stats.iter().find(|s| s.strategy == "ToolCollapse").unwrap();
    assert_eq!(collapse.count, 1);
    assert_eq!(re_ask_rate(collapse), None); // no labels yet
}

#[test]
fn tokens_dropped_saturates_when_after_exceeds_before() {
    // Defensive: if a buggy strategy ever reports growth, we
    // return 0 dropped rather than overflowing.
    let e = ev("Buggy", 100, 200, 1);
    assert_eq!(e.tokens_dropped(), 0);
}

#[test]
fn stats_are_ranked_by_count() {
    let mut tel = CompactionTelemetry::default();
    for (name, turn) in [("A", 1), ("B", 2), ("B", 3), ("C", 4), ("C", 5)] {
        tel.record(ev(name, 10, 5, turn));
    }
    let names: Vec<String> =
        tel.per_strategy_stats().iter().map(|s| s.strategy.clone()).collect();
    assert_eq!(names, vec!["B", "C", "A"]);
}

#[test]
fn jsonl_escapes_texts() {
    let mut tel = CompactionTelemetry::default();
    tel.record(ev("say \"hi\"\n\u{1}é", 1, 2, 3));
    tel.record(ev("b", 1, 2, 3));
    let jsonl = tel.to_jsonl();
    let lines: Vec<&str> = jsonl.lines().collect();
    assert_eq!(lines.len(), 2);
    let parsed: serde_json::Value = serde_json::from_str(lines[0]).unwrap();
    assert_eq!(parsed["strategy"], "say \"hi\"\n\u{1}é");
}
