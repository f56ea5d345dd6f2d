use caduceus::eviction::Ratio;
use caduceus::scorer::{
    contenders, pairs_from_events, BradleyTerryModel, Pair, StrategyScore,
};
use caduceus::telemetry::CompactionEvent;

/// A number in the order of the scores.
fn key(score: f64) -> i64 {
    (score * 1000.0).round() as i64
}

/// A model of scores, in which a strategy without a score has the mean.
fn model(scores: &[(&str, f64)]) -> BradleyTerryModel {
    let mean = scores.iter().map(|s| s.1).sum::<f64>() / scores.len() as f64;
    let scores = scores
        .iter()
        .map(|(name, s)| StrategyScore { strategy: name.to_string(), key: key(*s) })
        .collect();
    BradleyTerryModel { scores, fallback: key(mean) }
}

fn labelled(strategy: &str, before: u32, re_ask: bool, turn: u32) -> CompactionEvent {
    CompactionEvent {
        strategy: strategy.into(),
        tokens_before: before,
        tokens_after: before / 2,
        messages_before: 10,
        messages_after: 5,
        turn_index: turn,
        at_secs: 0,
        downstream_re_ask: Some(re_ask),
    }
}

#[test]
fn pairs_from_events_drops_unlabelled() {
    let mut a = labelled("A", 1000, false, 1);
    a.downstream_re_ask = None;
    let b = labelled("B", 1000, true, 2);
    let pairs = pairs_from_events(&[a, b]);
    assert!(pairs.is_empty());
}

#[test]
fn pairs_from_events_buckets_by_context_size() {
    let a = labelled("A", 100, false, 1); // bucket 0
    let b = labelled("B", 100, true, 2); // bucket 0 → A beats B
    let c = labelled("A", 9000, false, 3); // bucket 2
    let d = labelled("C", 9000, true, 4); // bucket 2 → A beats C
    let pairs = pairs_from_events(&[a, b, c, d]);
    assert_eq!(pairs.len(), 2);
    assert!(pairs.iter().any(|p| p.winner == "A" && p.loser == "B"));
    assert!(pairs.iter().any(|p| p.winner == "A" && p.loser == "C"));
}

#[test]
fn pairs_skip_same_strategy_pairs() {
    let a = labelled("A", 100, false, 1);
    let b = labelled("A", 100, true, 2);
    let pairs = pairs_from_events(&[a, b]);
    assert!(pairs.is_empty());
}

#[test]
fn pairs_skip_when_outcomes_match() {
    let a = labelled("A", 100, false, 1);
    let b = labelled("B", 100, false, 2);
    let pairs = pairs_from_events(&[a, b]);
    assert!(pairs.is_empty());
}

#[test]
fn many_events_make_many_pairs() {
    let mut events = Vec::new();
    for i in 0..30 {
        events.push(labelled("Summarize", 12_000, false, i));
    }
    for i in 0..30 {
        events.push(labelled("SlidingWindow", 12_000, true, 30 + i));
    }
    let pairs = pairs_from_events(&events);
    assert_eq!(pairs.len(), 900);
    assert!(pairs.iter().all(|p: &Pair| p.weight == Ratio { part: 1, whole: 1 }));
    assert!(pairs.iter().all(|p: &Pair| p.winner == "Summarize" && p.loser == "SlidingWindow"));
}

#[test]
fn pick_returns_highest_scoring_candidate() {
    let m = model(&[("A", 1.5), ("B", 0.0), ("C", 2.7)]);
    assert_eq!(m.pick(&["A", "B"]), Some("A"));
    assert_eq!(m.pick(&["B", "C"]), Some("C"));
    assert_eq!(m.pick(&[]), None);
}

#[test]
fn pick_falls_back_to_mean_for_unknown_strategy() {
    let m = model(&[("A", 0.0), ("B", 2.0)]);
    // C unknown → gets mean (1.0) → loses to B (2.0), beats A (0.0).
    assert_eq!(m.pick(&["A", "C"]), Some("C"));
    assert_eq!(m.pick(&["B", "C"]), Some("B"));
}

#[test]
fn the_first_of_equals_is_picked() {
    let m = model(&[("A", 1.0), ("B", 1.0)]);
    assert_eq!(m.pick(&["B", "A"]), Some("B"));
    assert_eq!(m.pick(&["X", "A"]), Some("X"));
    assert_eq!(m.score("A"), 1000);
}

#[test]
fn contenders_come_in_order_and_once() {
    let pair = |a: &str, b: &str| Pair {
        winner: a.to_string(),
        loser: b.to_string(),
        weight: Ratio { part: 1, whole: 2 },
    };
    let pairs = vec![pair("Summarize", "Pattern"), pair("Collapse", "Summarize"), pair("b", "é")];
    assert_eq!(contenders(&pairs), vec!["Collapse", "Pattern", "Summarize", "b", "é"]);
    assert_eq!(contenders(&[pair("A", "A")]), vec!["A"]);
    assert!(contenders(&[]).is_empty());
}
