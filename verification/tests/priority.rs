use caduceus::groups::{CompactMessage, MessageGroup, MessageGroupKind};
use caduceus::priority::{PriorityResult, PriorityScoreStrategy, Signals, UnitScorer};

/// What a group is worth: recency, relevance and importance.
fn worth(s: &Signals) -> f32 {
    let recency = 1.0 / (1.0 + s.distance as f32);
    let relevance = if s.terms == 0 { 0.0 } else { s.hits as f32 / s.terms as f32 };
    let importance = if s.important { 1.0 } else { 0.0 };
    1.0 * recency + 2.0 * relevance + 0.5 * importance
}

/// Packs by what each group is worth per token.
fn compact(strat: &PriorityScoreStrategy, groups: &mut Vec<MessageGroup>) -> PriorityResult {
    let keys: Vec<u64> = strat
        .candidates(groups)
        .iter()
        .map(|c| (worth(&c.signals) / c.tokens as f32).to_bits() as u64)
        .collect();
    strat.compact(groups, &keys)
}

fn user_group(content: &str) -> MessageGroup {
    let mut g = MessageGroup::new(MessageGroupKind::User);
    g.add_message(CompactMessage::new("user", content));
    g
}

fn assistant_group(content: &str) -> MessageGroup {
    let mut g = MessageGroup::new(MessageGroupKind::AssistantText);
    g.add_message(CompactMessage::new("assistant", content));
    g
}

fn system_group(content: &str) -> MessageGroup {
    let mut g = MessageGroup::new(MessageGroupKind::System);
    g.add_message(CompactMessage::new("system", content));
    g
}

#[test]
fn p13_5_keeps_recent_when_under_budget() {
    let mut groups = vec![
        system_group("sys"),
        user_group("hello"),
        assistant_group("hi"),
    ];
    let strat = PriorityScoreStrategy::new(10_000, UnitScorer::default());
    let r = compact(&strat, &mut groups);
    assert_eq!(r.groups_affected, 0);
    assert_eq!(groups.len(), 3);
}

#[test]
fn p13_5_evicts_lowest_score_when_over_budget() {
    // Three non-system groups; budget admits two of them.
    let mut groups = vec![
        system_group("sys"),
        user_group("first turn very ancient nothing relevant"),
        assistant_group("middle reply also unrelated"),
        user_group("latest turn please answer"),
    ];
    // Set tokens manually so packing math is predictable.
    for g in &mut groups {
        g.token_count = 100;
    }
    let strat = PriorityScoreStrategy::new(200, UnitScorer::default());
    let r = compact(&strat, &mut groups);
    assert_eq!(r.groups_affected, 1, "exactly one non-sys group must drop");
    // System group must remain.
    assert!(groups.iter().any(|g| g.is_system()));
    // The most-recent group must survive (recency dominates without
    // relevance terms).
    assert!(groups
        .iter()
        .any(|g| g.messages.iter().any(|m| m.content.contains("latest turn"))));
}

#[test]
fn p13_5_pinned_group_survives_even_when_busting_budget() {
    let mut groups = vec![
        system_group("sys"),
        user_group("ancient pinned content"),
        assistant_group("trash trash trash"),
        user_group("recent"),
    ];
    for g in &mut groups {
        g.token_count = 100;
    }
    // Pin the OLDEST non-system group (idx_from_end=2).
    let scorer = UnitScorer::default().with_pins(vec![2usize]);
    let strat = PriorityScoreStrategy::new(50, scorer); // budget too small
    let _ = compact(&strat, &mut groups);
    assert!(
        groups.iter().any(|g| g
            .messages
            .iter()
            .any(|m| m.content.contains("ancient pinned"))),
        "pinned group must survive even when over budget"
    );
}

#[test]
fn p13_5_relevance_boosts_query_matching_groups() {
    let mut groups = vec![
        system_group("sys"),
        user_group("authentication module needs review"),
        assistant_group("sky is blue"),
        user_group("today's weather is sunny"),
    ];
    for g in &mut groups {
        g.token_count = 100;
    }
    // Budget allows 2; query terms favour the auth message even
    // though it's the OLDEST.
    let scorer = UnitScorer::default().with_query_terms(&["authentication"]);
    let strat = PriorityScoreStrategy::new(200, scorer);
    let _ = compact(&strat, &mut groups);
    assert!(
        groups.iter().any(|g| g
            .messages
            .iter()
            .any(|m| m.content.contains("authentication"))),
        "relevance must promote query-matching group above pure-recency"
    );
}

#[test]
fn p13_5_preserves_original_order_of_survivors() {
    let mut groups = vec![
        system_group("sys"),
        user_group("A"),
        assistant_group("B"),
        user_group("C"),
        assistant_group("D"),
    ];
    for g in &mut groups {
        g.token_count = 100;
    }
    let strat = PriorityScoreStrategy::new(300, UnitScorer::default());
    let _ = compact(&strat, &mut groups);
    let survivors_text: Vec<String> = groups
        .iter()
        .filter(|g| !g.is_system())
        .map(|g| g.messages[0].content.clone())
        .collect();
    // Whatever survived must be in original alphabetical order;
    // strict-recency would keep B,C,D (in that order).
    let mut sorted = survivors_text.clone();
    sorted.sort();
    assert_eq!(survivors_text, sorted, "survivors must keep original order");
}

#[test]
fn evicted_groups_are_told() {
    let mut groups = vec![user_group("old old old"), assistant_group("new")];
    groups[0].token_count = 100;
    groups[1].token_count = 10;
    let strat = PriorityScoreStrategy::new(10, UnitScorer::default());
    let r = compact(&strat, &mut groups);
    assert_eq!(r.evicted.len(), 1);
    assert_eq!(r.evicted[0].kind, "user");
    assert_eq!(r.evicted[0].reason, "priority-evict");
    assert_eq!(r.evicted[0].token_count, 100);
    assert_eq!(r.removed_tokens, 100);
    assert_eq!(strat.name(), "priority-score");
}

#[test]
fn query_terms_are_lower_case_and_not_empty() {
    let scorer = UnitScorer::default().with_query_terms(&["Auth", ""]);
    assert_eq!(scorer.query_terms, vec!["auth"]);
    let s = scorer.signals(&user_group("the AUTH layer"), 3, true);
    assert_eq!((s.distance, s.hits, s.terms, s.important), (3, 1, 1, true));
}

#[test]
fn terms_are_looked_for_in_each_message() {
    let mut group = MessageGroup::new(MessageGroupKind::User);
    group.add_message(CompactMessage::new("user", "the auth"));
    group.add_message(CompactMessage::new("user", "layer IS here"));
    let scorer = UnitScorer::default().with_query_terms(&["auth layer", "is here", "auth"]);
    let s = scorer.signals(&group, 0, false);
    assert_eq!((s.hits, s.terms), (2, 3));
    let scorer = UnitScorer { query_terms: vec!["AUTH".to_string()], ..UnitScorer::default() };
    assert_eq!(scorer.signals(&group, 0, false).hits, 1);
}
