use caduceus::eviction::Ratio;
use caduceus::recovery::{ErrorRecoveryEngine, RecoveryAction, RecoveryStrategy};

fn value(r: Ratio) -> f64 {
    r.part as f64 / r.whole as f64
}

#[test]
fn recovery_engine_empty() {
    let engine = ErrorRecoveryEngine::new();
    assert!(engine.find_recovery("some error").is_none());
    assert_eq!(value(engine.success_rate("any")), 0.0);
}

#[test]
fn recovery_engine_add_and_find_strategy() {
    let mut engine = ErrorRecoveryEngine::new();
    engine.add_strategy(RecoveryStrategy {
        name: "retry-network".to_string(),
        error_pattern: "connection refused".to_string(),
        action: RecoveryAction::Retry,
        max_attempts: 3,
    });
    let found = engine.find_recovery("Error: connection refused");
    assert!(found.is_some());
    assert_eq!(found.unwrap().name, "retry-network");
}

#[test]
fn recovery_engine_no_match_returns_none() {
    let mut engine = ErrorRecoveryEngine::new();
    engine.add_strategy(RecoveryStrategy {
        name: "s".to_string(),
        error_pattern: "specific-error".to_string(),
        action: RecoveryAction::Retry,
        max_attempts: 2,
    });
    assert!(engine.find_recovery("some other error").is_none());
}

#[test]
fn recovery_engine_success_rate() {
    let mut engine = ErrorRecoveryEngine::new();
    engine.record_attempt("retry-network", true);
    engine.record_attempt("retry-network", false);
    engine.record_attempt("retry-network", true);
    let rate = value(engine.success_rate("retry-network"));
    assert!((rate - 2.0 / 3.0).abs() < 1e-10);
}

#[test]
fn recovery_engine_should_escalate_after_max_failures() {
    let mut engine = ErrorRecoveryEngine::new();
    engine.add_strategy(RecoveryStrategy {
        name: "flaky".to_string(),
        error_pattern: "flaky".to_string(),
        action: RecoveryAction::Retry,
        max_attempts: 2,
    });
    assert!(!engine.should_escalate("flaky"));
    engine.record_attempt("flaky", false);
    assert!(!engine.should_escalate("flaky"));
    engine.record_attempt("flaky", false);
    assert!(engine.should_escalate("flaky"));
}

#[test]
fn recovery_engine_success_does_not_trigger_escalate() {
    let mut engine = ErrorRecoveryEngine::new();
    engine.add_strategy(RecoveryStrategy {
        name: "ok".to_string(),
        error_pattern: "err".to_string(),
        action: RecoveryAction::SkipAndContinue,
        max_attempts: 1,
    });
    engine.record_attempt("ok", true);
    engine.record_attempt("ok", true);
    assert!(!engine.should_escalate("ok"));
}

#[test]
fn recovery_attempt_number_increments() {
    let mut engine = ErrorRecoveryEngine::new();
    engine.record_attempt("s", false);
    engine.record_attempt("s", true);
    assert_eq!(engine.history()[0].attempt_number, 1);
    assert_eq!(engine.history()[1].attempt_number, 2);
}

#[test]
fn the_first_matching_strategy_counts() {
    let mut engine = ErrorRecoveryEngine::new();
    for name in ["one", "two"] {
        engine.add_strategy(RecoveryStrategy {
            name: name.to_string(),
            error_pattern: "REFUSED".to_string(),
            action: RecoveryAction::Rollback,
            max_attempts: 1,
        });
    }
    assert_eq!(engine.find_recovery("connection refused").unwrap().name, "one");
    for _ in 0..2 {
        engine.record_attempt("unknown", false);
    }
    assert!(!engine.should_escalate("unknown"));
    engine.record_attempt("unknown", false);
    assert!(engine.should_escalate("unknown"));
    assert_eq!(engine.success_rate("unknown"), Ratio { part: 0, whole: 3 });
}
