use caduceus::eviction::{
    extract_keywords, CompactionTrigger, ContextStats, Density, DualModelCompactor,
    EntropyChecker, Ratio, SelfEvictionManager,
};
use caduceus::groups::CompactMessage;

fn value(r: Ratio) -> f64 {
    r.part as f64 / r.whole as f64
}

fn msg(role: &str, content: &str) -> CompactMessage {
    CompactMessage::new(role, content)
}

fn stats(tokens: usize, messages: usize, turns: usize) -> ContextStats {
    ContextStats {
        total_tokens: tokens,
        message_count: messages,
        turn_count: turns,
    }
}

#[test]
fn trigger_tokens_exceed() {
    let t = CompactionTrigger::TokensExceed(1000);
    assert!(!t.should_compact(&stats(999, 0, 0)));
    assert!(!t.should_compact(&stats(1000, 0, 0)));
    assert!(t.should_compact(&stats(1001, 0, 0)));
}

#[test]
fn trigger_messages_exceed() {
    let t = CompactionTrigger::MessagesExceed(10);
    assert!(!t.should_compact(&stats(0, 10, 0)));
    assert!(t.should_compact(&stats(0, 11, 0)));
}

#[test]
fn trigger_turns_exceed() {
    let t = CompactionTrigger::TurnsExceed(5);
    assert!(!t.should_compact(&stats(0, 0, 5)));
    assert!(t.should_compact(&stats(0, 0, 6)));
}

#[test]
fn trigger_always_never() {
    assert!(CompactionTrigger::Always.should_compact(&stats(0, 0, 0)));
    assert!(!CompactionTrigger::Never.should_compact(&stats(
        usize::MAX,
        usize::MAX,
        usize::MAX
    )));
}

#[test]
fn trigger_all_requires_every_condition() {
    let t = CompactionTrigger::All(vec![
        CompactionTrigger::TokensExceed(100),
        CompactionTrigger::TurnsExceed(3),
    ]);
    assert!(!t.should_compact(&stats(200, 0, 2))); // tokens ok, turns not
    assert!(!t.should_compact(&stats(50, 0, 10))); // turns ok, tokens not
    assert!(t.should_compact(&stats(200, 0, 10))); // both
}

#[test]
fn trigger_any_requires_one_condition() {
    let t = CompactionTrigger::Any(vec![
        CompactionTrigger::TokensExceed(100),
        CompactionTrigger::TurnsExceed(3),
    ]);
    assert!(!t.should_compact(&stats(50, 0, 2)));
    assert!(t.should_compact(&stats(200, 0, 1)));
    assert!(t.should_compact(&stats(50, 0, 10)));
}

#[test]
fn trigger_nested_any_all() {
    // Any(All(tokens>100, turns>3), Messages>20)
    let inner = CompactionTrigger::All(vec![
        CompactionTrigger::TokensExceed(100),
        CompactionTrigger::TurnsExceed(3),
    ]);
    let t = CompactionTrigger::Any(vec![inner, CompactionTrigger::MessagesExceed(20)]);
    assert!(!t.should_compact(&stats(50, 5, 1)));
    assert!(t.should_compact(&stats(200, 0, 10)));
    assert!(t.should_compact(&stats(0, 25, 0)));
}

#[test]
fn checkpoint_creates_unique_ids() {
    let mut mgr = SelfEvictionManager::new();
    let id1 = mgr.checkpoint(vec!["fact A".into()]);
    let id2 = mgr.checkpoint(vec!["fact B".into()]);
    assert_ne!(id1, id2);
    assert_eq!(mgr.list_checkpoints().len(), 2);
}

#[test]
fn resume_from_returns_facts() {
    let mut mgr = SelfEvictionManager::new();
    let id = mgr.checkpoint(vec!["the sky is blue".into(), "water is wet".into()]);
    let facts = mgr.resume_from(&id).expect("checkpoint should exist");
    assert_eq!(facts, vec!["the sky is blue", "water is wet"]);
}

#[test]
fn resume_from_missing_returns_none() {
    let mgr = SelfEvictionManager::new();
    assert!(mgr.resume_from("nonexistent").is_none());
}

#[test]
fn purge_before_removes_earlier_checkpoints() {
    let mut mgr = SelfEvictionManager::new();
    mgr.checkpoint(vec!["fact 1".into()]);
    mgr.checkpoint(vec!["fact 2".into()]);
    let id3 = mgr.checkpoint(vec!["fact 3".into()]);
    mgr.checkpoint(vec!["fact 4".into()]);

    let freed = mgr.purge_before(&id3);
    assert!(freed > 0);
    // id3 and id4 remain; id1 and id2 are gone
    assert_eq!(mgr.list_checkpoints().len(), 2);
    assert_eq!(mgr.list_checkpoints()[0].id, id3);
}

#[test]
fn purge_before_unknown_id_is_noop() {
    let mut mgr = SelfEvictionManager::new();
    mgr.checkpoint(vec!["fact".into()]);
    let freed = mgr.purge_before("ghost");
    assert_eq!(freed, 0);
    assert_eq!(mgr.list_checkpoints().len(), 1);
}

#[test]
fn dual_model_summary_prompt_contains_messages() {
    let compactor = DualModelCompactor::new("gpt-4o", "gpt-4o-mini");
    let messages = vec![
        msg("user", "What is Rust?"),
        msg("assistant", "Rust is a systems language."),
    ];
    let prompt = compactor.generate_summary_prompt(&messages);
    assert!(prompt.contains("What is Rust?"));
    assert!(prompt.contains("systems language"));
    assert!(prompt.contains(&compactor.max_summary_tokens.to_string()));
}

#[test]
fn estimate_savings_correct() {
    let c = DualModelCompactor::new("big", "small");
    assert!((value(c.estimate_savings(1000, 200)) - 0.8).abs() < 1e-9);
    assert!((value(c.estimate_savings(1000, 1000)) - 0.0).abs() < 1e-9);
    assert!((value(c.estimate_savings(0, 0)) - 0.0).abs() < 1e-9);
}

#[test]
fn estimate_savings_clamps_at_zero() {
    let c = DualModelCompactor::new("big", "small");
    // summary larger than original → 0 savings
    let savings = value(c.estimate_savings(100, 200));
    assert!((savings - 0.0).abs() < 1e-9);
}

/// A checker for a density of so many tenths.
fn checker(tenths: usize) -> EntropyChecker {
    EntropyChecker::new(Ratio { part: tenths, whole: 10 })
}

#[test]
fn entropy_perfect_summary_passes() {
    let checker = checker(5);
    let original = "The quick brown fox jumps over the lazy dog";
    let summary = "The quick brown fox jumps over the lazy dog"; // identical
    let result = checker.check_summary_quality(original, summary);
    assert!(result.passed);
    assert!((value(result.keyword_retention) - 1.0).abs() < 1e-9);
}

#[test]
fn entropy_empty_summary_fails() {
    let checker = checker(3);
    let original = "Important technical discussion about distributed systems";
    let result = checker.check_summary_quality(original, "");
    assert!(!result.passed);
}

#[test]
fn entropy_good_compression_passes() {
    let checker = checker(4);
    // Summary retains the key domain terms but is much shorter.
    let original =
        "The authentication service validates tokens using HMAC-SHA256 and expires them \
         after thirty minutes of inactivity. The refresh endpoint issues new tokens.";
    let summary =
        "authentication tokens validated HMAC-SHA256 expire thirty minutes refresh endpoint";
    let result = checker.check_summary_quality(original, summary);
    // Compression is high and keyword retention is decent → should pass
    assert!(result.density_score.part as f64 / result.density_score.whole as f64 >= 0.0);
    // We don't assert pass/fail here since it's heuristic; just ensure it runs.
    let _ = result.passed;
}

#[test]
fn density_weighs_keywords_against_length() {
    // One of two keywords in all of the length.
    let half = checker(5).check_summary_quality("alpha bravo", "alpha ploys");
    assert_eq!(half.keyword_retention, Ratio { part: 1, whole: 2 });
    assert_eq!(half.density_score, Density { part: 11, whole: 22 });
    assert!(half.passed);
    assert!(!checker(6).check_summary_quality("alpha bravo", "alpha ploys").passed);
    // Twice the text is half as dense.
    let long = checker(5).check_summary_quality("alpha", "alpha alpha");
    assert_eq!(long.density_score, Density { part: 5, whole: 11 });
    assert!(!long.passed);
    // Never more than the whole.
    let dense = checker(99).check_summary_quality("alpha is it of to", "ALPHA");
    assert_eq!(dense.density_score, Density { part: 1, whole: 1 });
    assert!(dense.passed);
    // Without keywords all of them are retained.
    let none = checker(10).check_summary_quality("of it", "");
    assert_eq!(none.density_score, Density { part: 1, whole: 1 });
    assert!(none.passed);
}

#[test]
fn entropy_keyword_retention_ratio() {
    let checker = checker(0);
    let original = "authentication tokens expire after thirty minutes";
    let summary = "tokens expire after thirty"; // missing "authentication", "minutes"
    let ratio = value(checker.keyword_retention_ratio(original, summary));
    assert!(ratio > 0.0 && ratio <= 1.0);
}

#[test]
fn entropy_length_compression_ratio() {
    let checker = checker(0);
    let ratio = value(checker.length_compression_ratio("hello world", "hi"));
    assert!(ratio < 1.0);
    let ratio_same = value(checker.length_compression_ratio("abc", "abc"));
    assert!((ratio_same - 1.0).abs() < 1e-9);
    let ratio_empty = value(checker.length_compression_ratio("", "anything"));
    assert!((ratio_empty - 1.0).abs() < 1e-9);
}

#[test]
fn trigger_all_empty_is_false() {
    // Vacuous truth bug: All([]) used to return true. It must return false.
    let t = CompactionTrigger::All(vec![]);
    assert!(
        !t.should_compact(&stats(usize::MAX, usize::MAX, usize::MAX)),
        "All(vec![]) must not trigger compaction"
    );
}

#[test]
fn trigger_any_empty_is_false() {
    // Any([]) has no conditions to satisfy → should remain false (standard behaviour).
    let t = CompactionTrigger::Any(vec![]);
    assert!(
        !t.should_compact(&stats(usize::MAX, usize::MAX, usize::MAX)),
        "Any(vec![]) must not trigger compaction"
    );
}

#[test]
fn trigger_all_single_condition_behaves_correctly() {
    let t = CompactionTrigger::All(vec![CompactionTrigger::TokensExceed(100)]);
    assert!(!t.should_compact(&stats(100, 0, 0)));
    assert!(t.should_compact(&stats(101, 0, 0)));
}

#[test]
fn ids_stay_unique_after_a_purge() {
    let mut mgr = SelfEvictionManager::new();
    let a = mgr.checkpoint(vec!["one".into()]);
    let b = mgr.checkpoint(vec!["two".into()]);
    mgr.purge_before(&b);
    let c = mgr.checkpoint(vec!["three".into()]);
    assert_ne!(b, c);
    assert_ne!(a, c);
    assert_eq!(mgr.resume_from(&b), Some(vec!["two".to_string()]));
    assert_eq!(mgr.resume_from(&a), None);
}

#[test]
fn checkpoints_are_dated() {
    let mut mgr = SelfEvictionManager::new();
    mgr.checkpoint(vec![]);
    assert!(mgr.list_checkpoints()[0].timestamp > 1_500_000_000);
    mgr.checkpoint_at(vec![], 7);
    assert_eq!(mgr.list_checkpoints()[1].timestamp, 7);
}

#[test]
fn keywords_come_once_without_stop_words() {
    let kws = extract_keywords("The parser, the PARSER and tokens: parse tokens!");
    assert!(kws.contains(&"parser".to_string()));
    assert_eq!(kws.iter().filter(|k| k.as_str() == "tokens").count(), 1);
    assert!(!kws.contains(&"the".to_string()));
}

#[test]
fn savings_are_a_part_of_the_whole() {
    let c = DualModelCompactor::new("big", "small");
    assert_eq!(c.estimate_savings(1000, 200), Ratio { part: 800, whole: 1000 });
    assert_eq!(value(c.estimate_savings(0, 5)), 0.0);
}

#[test]
fn each_id_gives_back_its_own_facts() {
    let mut m = SelfEvictionManager::new();
    let ids: Vec<String> = (0..5).map(|i| m.checkpoint(vec![format!("fact {i}")])).collect();
    for (i, id) in ids.iter().enumerate() {
        assert_eq!(m.resume_from(id), Some(vec![format!("fact {i}")]));
    }
    assert_eq!(m.resume_from("cp-0"), None);
    assert_eq!(m.resume_from("cp-6"), None);
    m.purge_before(&ids[3]);
    let late = m.checkpoint(vec!["late".to_string()]);
    assert_eq!(m.resume_from(&ids[2]), None);
    assert_eq!(m.resume_from(&ids[4]), Some(vec!["fact 4".to_string()]));
    assert_eq!(m.resume_from(&late), Some(vec!["late".to_string()]));
}

#[test]
fn keywords_are_counted_in_letters() {
    // Four letters that take eight bytes, and five that take ten.
    assert_eq!(extract_keywords("дома домик"), vec!["домик"]);
}
