use caduceus::critic::{HeuristicCritic, ScriptedCritic, Verdict};

#[test]
fn p13_6_heuristic_accepts_normal_response() {
    let c = HeuristicCritic::default();
    let v = c.judge("Hello, world! Here is the answer.");
    assert_eq!(v, Verdict::Accept);
}

#[test]
fn p13_6_heuristic_rejects_truncated_response() {
    let c = HeuristicCritic::default();
    match c.judge("ok") {
        Verdict::Reject { feedback } => assert!(feedback.contains("truncated")),
        v => panic!("expected reject, got {v:?}"),
    }
}

#[test]
fn p13_6_heuristic_rejects_evasive_phrase() {
    let c = HeuristicCritic::default();
    let response = "I cannot help with that request, sorry.";
    match c.judge(response) {
        Verdict::Reject { feedback } => assert!(feedback.contains("evasive")),
        v => panic!("expected reject, got {v:?}"),
    }
}

#[test]
fn p13_6_scripted_critic_replays_verdicts_in_order() {
    let mut c = ScriptedCritic::new(vec![
        Verdict::Reject {
            feedback: "try again".into(),
        },
        Verdict::Accept,
    ]);
    assert!(matches!(c.judge(), Verdict::Reject { .. }));
    assert_eq!(c.judge(), Verdict::Accept);
    // Underflow defaults to Accept so a misconfigured test
    // doesn't hang the harness loop.
    assert_eq!(c.judge(), Verdict::Accept);
}

#[test]
fn phrases_match_in_any_case() {
    let c = HeuristicCritic { min_chars: 0, veto_phrases: vec!["I Cannot".to_string()] };
    for answer in ["I cannot do that", "i CANNOT do that"] {
        match c.judge(answer) {
            Verdict::Reject { feedback } => assert!(feedback.contains("('I Cannot')")),
            v => panic!("expected reject, got {v:?}"),
        }
    }
    assert_eq!(c.judge("I can do that"), Verdict::Accept);
}
