use caduceus::context_fold::{
    extract_key_points, folded_json, ExpandError, TranscriptId, TranscriptStore,
    DEFAULT_FOLD_THRESHOLD_CHARS,
};
use caduceus::harness::AgentHarness;
use std::time::{Duration, Instant};

#[test]
fn should_fold_threshold() {
    assert!(!TranscriptStore::should_fold("short", 100));
    assert!(TranscriptStore::should_fold(&"x".repeat(100), 100));
    assert!(TranscriptStore::should_fold(&"x".repeat(101), 100));
}

#[test]
fn fold_then_expand_roundtrip() {
    let mut store = TranscriptStore::default();
    let original = "## Subagent Report\nbody body body".to_string();
    let folded = store.fold("test_writer", "all green", original.clone());
    assert_eq!(folded.subagent, "test_writer");
    assert_eq!(folded.outcome, "all green");
    assert_eq!(folded.original_chars, original.len() as u32);
    assert_eq!(store.expand(folded.id).unwrap(), original);
}

#[test]
fn key_points_extracts_heading_and_key_lines() {
    let text = "## Big report\nblah\nKEY: critical finding 1\n  KEY: case-insensitive\nrandom\nkey: lowercase ok";
    let pts = extract_key_points(text);
    assert_eq!(pts[0], "## Big report");
    assert!(pts.iter().any(|p| p.contains("critical finding 1")));
    assert!(pts.iter().any(|p| p.contains("case-insensitive")));
    assert!(pts.iter().any(|p| p.contains("lowercase ok")));
}

#[test]
fn capacity_evicts_oldest_fifo() {
    let mut store = TranscriptStore::new(2, Duration::from_secs(60).as_nanos());
    let a = store.fold("s", "o", "A".into());
    let b = store.fold("s", "o", "B".into());
    let c = store.fold("s", "o", "C".into());
    assert!(matches!(store.expand(a.id), Err(ExpandError::Unknown(_))));
    assert_eq!(store.expand(b.id).unwrap(), "B");
    assert_eq!(store.expand(c.id).unwrap(), "C");
}

#[test]
fn expand_unknown_fails_closed() {
    let store = TranscriptStore::default();
    let bogus = TranscriptId(9999);
    assert!(matches!(store.expand(bogus), Err(ExpandError::Unknown(_))));
}

#[test]
fn expand_expired_returns_expired() {
    let start = Instant::now();
    let mut store = TranscriptStore::new(8, Duration::from_millis(1).as_nanos());
    let f = store.fold("s", "o", "X".into());
    while start.elapsed() < Duration::from_millis(5) {}
    assert!(matches!(store.expand(f.id), Err(ExpandError::Expired(_))));
    assert!(matches!(store.metadata(f.id), Err(ExpandError::Expired(_))));
}

#[test]
fn purge_expired_drops_old_entries() {
    let start = Instant::now();
    let mut store = TranscriptStore::new(8, Duration::from_millis(1).as_nanos());
    let _ = store.fold("s", "o", "X".into());
    let _ = store.fold("s", "o", "Y".into());
    while start.elapsed() < Duration::from_millis(5) {}
    let dropped = store.purge_expired();
    assert_eq!(dropped, 2);
    assert!(store.is_empty());
}

#[test]
fn ids_never_reused() {
    let mut store = TranscriptStore::new(1, Duration::from_secs(60).as_nanos());
    let a = store.fold("s", "o", "A".into());
    let _b = store.fold("s", "o", "B".into()); // evicts a
    let c = store.fold("s", "o", "C".into()); // evicts b
    assert_ne!(c.id, a.id);
    assert!(c.id.raw() > a.id.raw());
}

#[test]
fn folded_payload_is_serde_safe() {
    let mut store = TranscriptStore::default();
    let f = store.fold("s", "outcome", "x".repeat(50_000));
    let json = folded_json(&f);
    let back: serde_json::Value = serde_json::from_str(&json).unwrap();
    assert_eq!(back["id"], f.id.raw());
    assert_eq!(back["original_chars"], 50_000);
    assert_eq!(back["original_tokens_estimate"], 12_500);
}

#[test]
fn errors_of_stores_have_words() {
    let id = TranscriptId(3);
    assert_ne!(ExpandError::Unknown(id).message(), ExpandError::Expired(id).message());
    assert!(ExpandError::Unknown(id).message().contains('3'));
}

#[test]
fn harness_folds_long_results_only() {
    let mut bare = AgentHarness::new(1000, "p");
    let long = "y".repeat(DEFAULT_FOLD_THRESHOLD_CHARS);
    assert_eq!(bare.fold_tool_result("t", long.clone()), long);
    assert!(matches!(bare.expand_transcript(TranscriptId(0)), Err(ExpandError::Unknown(_))));
    let mut harness = bare.with_transcript_store(TranscriptStore::default());
    assert_eq!(harness.fold_tool_result("t", "short".to_string()), "short");
    let folded = harness.fold_tool_result("t", long.clone());
    let json: serde_json::Value = serde_json::from_str(&folded).unwrap();
    assert_eq!(json["subagent"], "t");
    assert_eq!(json["outcome"], "y".repeat(200));
    let id = TranscriptId(json["id"].as_u64().unwrap());
    assert_eq!(harness.expand_transcript(id).unwrap(), long);
}

#[test]
fn age_decides_on_expiry() {
    let mut store = TranscriptStore::new(4, 1000);
    let f = store.fold("s", "o", "text".to_string());
    assert_eq!(store.expand_after(f.id, 1000).unwrap(), "text");
    assert!(matches!(store.expand_after(f.id, 1001), Err(ExpandError::Expired(_))));
    assert_eq!(store.metadata_after(f.id, 0).unwrap().outcome, "o");
    assert!(matches!(store.metadata_after(f.id, 1001), Err(ExpandError::Expired(_))));
    store.fold("s", "o", "more".to_string());
    assert_eq!(store.purge_after(&[1001, 1000]), 1);
    assert_eq!(store.len(), 1);
    assert!(matches!(store.expand_after(f.id, 0), Err(ExpandError::Unknown(_))));
}

#[test]
fn key_points_stay_within_their_limits() {
    let total = |points: &[String]| points.iter().map(|p| p.len()).sum::<usize>();
    let a = format!("KEY: {}", "a".repeat(595));
    let b = format!("KEY: {}", "b".repeat(396));
    let c = format!("KEY: {}", "c".repeat(392));
    let points = extract_key_points(&format!("# H\n{a}\n{b}\n{c}\nKEY: d"));
    assert_eq!(points, vec!["# H".to_string(), a.clone(), c]);
    assert_eq!(total(&points), 1000);
    let points = extract_key_points(&format!("{a}\n{b}\nKEY: d"));
    assert_eq!(points, vec![a.clone(), "KEY: d".to_string()]);
    let fits = format!("KEY: {}", "e".repeat(395));
    let points = extract_key_points(&format!("{a}\n{fits}\nKEY: d"));
    assert_eq!(points, vec![a, fits]);
    assert_eq!(total(&points), 1000);
    let heading = format!("# {}", "h".repeat(999));
    assert_eq!(extract_key_points(&format!("{heading}\n# short\nkey: k")), vec!["key: k"]);
    assert_eq!(extract_key_points(&"KEY: x\n".repeat(40)).len(), 30);
}

#[test]
fn the_last_folds_can_be_had() {
    let mut store = TranscriptStore::new(3, 1000);
    let folded: Vec<_> = (0..7).map(|i| store.fold("s", "o", format!("KEY: {i}"))).collect();
    for (i, f) in folded.iter().enumerate() {
        assert_eq!(f.id.raw(), i as u64 + 1);
        if i < 4 {
            assert_eq!(store.expand_after(f.id, 0), Err(ExpandError::Unknown(f.id)));
            assert!(matches!(store.metadata_after(f.id, 0), Err(ExpandError::Unknown(_))));
        } else {
            assert_eq!(store.expand_after(f.id, 1000), Ok(format!("KEY: {i}").as_str()));
            assert_eq!(store.metadata_after(f.id, 1000), Ok(f));
            assert_eq!(store.expand_after(f.id, 1001), Err(ExpandError::Expired(f.id)));
        }
    }
    store.purge_after(&[0, 1001, 0]);
    assert_eq!(store.metadata_after(folded[4].id, 0), Ok(&folded[4]));
    assert_eq!(store.expand_after(folded[5].id, 0), Err(ExpandError::Unknown(folded[5].id)));
    assert_eq!(store.metadata_after(folded[6].id, 0), Ok(&folded[6]));
}
