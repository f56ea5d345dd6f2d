use caduceus::reflection::{BranchReflector, ErrorCategory};

#[test]
fn branch_reflector_classify_compile_error() {
    assert_eq!(
        BranchReflector::classify_error("error[E0308]: mismatched types"),
        ErrorCategory::CompileError
    );
}

#[test]
fn branch_reflector_classify_runtime_error() {
    assert_eq!(
        BranchReflector::classify_error("thread 'main' panicked at 'index out of bounds'"),
        ErrorCategory::RuntimeError
    );
}

#[test]
fn branch_reflector_classify_test_failure() {
    assert_eq!(
        BranchReflector::classify_error("test result: FAILED. 1 passed; 2 failed"),
        ErrorCategory::TestFailure
    );
}

#[test]
fn branch_reflector_classify_timeout() {
    assert_eq!(
        BranchReflector::classify_error("operation timed out after 30s"),
        ErrorCategory::Timeout
    );
}

#[test]
fn branch_reflector_classify_resource_exhausted() {
    assert_eq!(
        BranchReflector::classify_error("out of memory: OOM killer invoked"),
        ErrorCategory::ResourceExhausted
    );
}

#[test]
fn branch_reflector_classify_unknown() {
    assert_eq!(
        BranchReflector::classify_error("some completely unrelated message"),
        ErrorCategory::Unknown
    );
}

#[test]
fn branch_reflector_analyze_error_sets_severity() {
    let analysis = BranchReflector::analyze_error("error[E0308]: mismatched types");
    assert_eq!(analysis.category, ErrorCategory::CompileError);
    assert_eq!(analysis.severity, "high");
    assert!(!analysis.root_cause.is_empty());
}

#[test]
fn branch_reflector_suggest_alternatives_non_empty() {
    let analysis = BranchReflector::analyze_error("error[E0308]: mismatched types");
    let suggestions = BranchReflector::suggest_alternatives(&analysis);
    assert!(!suggestions.is_empty());
    for s in &suggestions {
        assert!(s.confidence > 0 && s.confidence <= 100);
        assert!(!s.description.is_empty());
        assert!(!s.estimated_effort.is_empty());
    }
}

#[test]
fn branch_reflector_suggest_alternatives_all_categories() {
    for log in &[
        "error[E0308]: mismatched types",
        "thread 'main' panicked",
        "test failed: assertion_failed",
        "timed out",
        "out of memory",
        "logic error in computation",
        "some unknown thing",
    ] {
        let analysis = BranchReflector::analyze_error(log);
        let suggestions = BranchReflector::suggest_alternatives(&analysis);
        assert!(!suggestions.is_empty(), "No suggestions for: {log}");
    }
}

#[test]
fn affected_files_come_once_and_in_order() {
    let log = "error: mismatched types\n --> src/z.rs:3:4\n   --> lib/a.go:1\nsee (src/b.ts)\n --> src/z.rs:9:1\nsrc/readme.md and --> c.rs";
    let analysis = BranchReflector::analyze_error(log);
    assert_eq!(analysis.affected_files, vec!["c.rs", "lib/a.go", "src/b.ts", "src/z.rs"]);
    assert_eq!(analysis.root_cause, "Type or syntax error detected in source code");
}

#[test]
fn alternatives_for_crashes() {
    let analysis = BranchReflector::analyze_error("SEGFAULT");
    assert_eq!(analysis.category, ErrorCategory::RuntimeError);
    let v = BranchReflector::suggest_alternatives(&analysis);
    assert_eq!(v.len(), 2);
    assert_eq!(v[1].description, "Use Result/Option instead of unwrap to propagate errors");
    assert_eq!(v[1].confidence, 90);
    assert_eq!(v[1].estimated_effort, "low");
}

#[test]
fn logic_errors_are_medium() {
    let analysis = BranchReflector::analyze_error("wrong output");
    assert_eq!(analysis.category, ErrorCategory::LogicError);
    assert_eq!(analysis.severity, "medium");
}
