use caduceus::bugbot::{
    count_files_in_diff, extract_json, parse_report, report_of, BugBot, BugBotFinding,
    BugBotReport, FileText, FindingCategory, FindingSeverity, Review, FIX_SYSTEM_PROMPT,
};
use caduceus::json::Json;

#[test]
fn finding_display_with_line() {
    let f = BugBotFinding {
        severity: FindingSeverity::High,
        category: FindingCategory::Security,
        file: "src/main.rs".into(),
        line: Some(42),
        description: "SQL injection possible".into(),
        suggestion: Some("Use parameterized queries".into()),
    };
    let s = f.text();
    assert!(s.contains("HIGH"));
    assert!(s.contains("Security"));
    assert!(s.contains("42"));
    assert!(s.contains("SQL injection"));
    assert!(s.contains("parameterized"));
}

#[test]
fn finding_display_without_line() {
    let f = BugBotFinding {
        severity: FindingSeverity::Low,
        category: FindingCategory::Style,
        file: "lib.rs".into(),
        line: None,
        description: "unused import".into(),
        suggestion: None,
    };
    let s = f.text();
    assert!(s.contains("LOW"));
    assert!(s.contains("lib.rs"));
    assert!(!s.contains(':'));
}

#[test]
fn report_is_clean() {
    let report = BugBotReport {
        findings: Vec::new(),
        files_reviewed: 3,
        summary: "All good".into(),
    };
    assert!(report.is_clean());
    assert_eq!(report.critical_count(), 0);
}

#[test]
fn report_severity_counts() {
    let report = BugBotReport {
        findings: vec![
            BugBotFinding {
                severity: FindingSeverity::Critical,
                category: FindingCategory::Bug,
                file: "a.rs".into(),
                line: None,
                description: "bad".into(),
                suggestion: None,
            },
            BugBotFinding {
                severity: FindingSeverity::High,
                category: FindingCategory::Logic,
                file: "b.rs".into(),
                line: Some(10),
                description: "iffy".into(),
                suggestion: None,
            },
        ],
        files_reviewed: 2,
        summary: "issues found".into(),
    };
    assert_eq!(report.critical_count(), 1);
    assert_eq!(report.high_count(), 1);
    assert!(!report.is_clean());
}

#[test]
fn parse_report_valid_json() {
    let json = r#"{"summary":"looks good","findings":[]}"#;
    let report = parse_report(json.to_string(), 1);
    assert_eq!(report.summary, "looks good");
    assert!(report.findings.is_empty());
}

#[test]
fn parse_report_with_findings() {
    let json = r#"{
        "summary": "Found issues",
        "findings": [
            {
                "severity": "High",
                "category": "Security",
                "file": "src/auth.rs",
                "line": 55,
                "description": "hardcoded secret",
                "suggestion": "use env var"
            }
        ]
    }"#;
    let report = parse_report(json.to_string(), 1);
    assert_eq!(report.findings.len(), 1);
    assert_eq!(report.findings[0].severity, FindingSeverity::High);
    assert_eq!(report.findings[0].category, FindingCategory::Security);
    assert_eq!(report.findings[0].line, Some(55));
}

#[test]
fn count_files_in_diff_basic() {
    let diff = "--- a/foo.rs\n+++ b/foo.rs\n--- a/bar.rs\n+++ b/bar.rs\n";
    assert_eq!(count_files_in_diff(diff), 2);
}

#[test]
fn extract_json_from_markdown_fence() {
    let text = "Here is the result:\n```json\n{\"key\":\"val\"}\n```\nDone.";
    let extracted = extract_json(text);
    assert_eq!(extracted, "{\"key\":\"val\"}");
}

#[test]
fn review_diff_empty_returns_clean() {
    match BugBot::review_diff("") {
        Review::Done(report) => {
            assert!(report.is_clean());
            assert_eq!(report.files_reviewed, 0);
        }
        Review::Ask { .. } => panic!("nothing to ask"),
    }
}

#[test]
fn review_diff_parses_llm_response() {
    let llm_response = r#"{"summary":"Found 1 issue","findings":[{"severity":"Critical","category":"Bug","file":"main.rs","line":10,"description":"use after free","suggestion":"add lifetime"}]}"#;
    let diff = "--- a/main.rs\n+++ b/main.rs\n@@ -1 +1 @@\n-old\n+new\n";
    match BugBot::review_diff(diff) {
        Review::Done(_) => panic!("there is a diff"),
        Review::Ask { prompt, files_reviewed } => {
            assert!(prompt.contains(diff));
            let request = BugBot::new("m").with_model("n").review_request(&prompt);
            assert_eq!(request.model, "n");
            assert_eq!(request.max_tokens, 4096);
            assert!(request.system.contains("\"findings\""));
            let report = parse_report(llm_response.to_string(), files_reviewed);
            assert_eq!(report.findings.len(), 1);
            assert_eq!(report.findings[0].severity, FindingSeverity::Critical);
            assert_eq!(report.files_reviewed, 1);
        }
    }
}

#[test]
fn review_files_empty_returns_clean() {
    match BugBot::review_files(&[]) {
        Review::Done(report) => {
            assert!(report.is_clean());
            assert_eq!(report.files_reviewed, 0);
        }
        Review::Ask { .. } => panic!("nothing to ask"),
    }
}

#[test]
fn auto_fix_returns_content() {
    let finding = BugBotFinding {
        severity: FindingSeverity::High,
        category: FindingCategory::Bug,
        file: "src/lib.rs".into(),
        line: Some(5),
        description: "index out of bounds".into(),
        suggestion: None,
    };
    let request = BugBot::new("m").fix_request(&finding);
    assert_eq!(request.system, FIX_SYSTEM_PROMPT);
    assert_eq!(
        request.prompt,
        "Generate a minimal code fix for this issue:\n\nFile: src/lib.rs\nLine: 5\nIssue: index out of bounds\nCategory: Bug\nSeverity: HIGH\n\nProvide ONLY the corrected code snippet, no explanation."
    );
}

#[test]
fn files_are_shown_or_their_errors() {
    let files = vec![
        FileText { path: "a.rs".into(), content: Ok("fn a() {}".into()) },
        FileText { path: "b.rs".into(), content: Err("no such file".into()) },
    ];
    match BugBot::review_files(&files) {
        Review::Done(_) => panic!("there are files"),
        Review::Ask { prompt, files_reviewed } => {
            assert_eq!(files_reviewed, 1);
            assert!(prompt.ends_with("=== a.rs ===\nfn a() {}\n\n=== b.rs === [ERROR: no such file]\n\n"));
        }
    }
}

#[test]
fn reports_have_words() {
    let clean = BugBotReport { findings: vec![], files_reviewed: 2, summary: "fine".into() };
    assert_eq!(clean.text(), "BugBot Report — 2 file(s) reviewed\nfine\n✓ No issues found.\n");
    let report = parse_report(
        r#"{"summary":"s","findings":[{"file":"a.rs","line":3,"severity":"Odd"}]}"#.to_string(),
        1,
    );
    assert_eq!(
        report.text(),
        "BugBot Report — 1 file(s) reviewed\ns\n\n1 finding(s):\n  [LOW][Bug] a.rs:3 — No description\n"
    );
}

#[test]
fn answers_that_are_no_json_become_the_summary() {
    let report = parse_report("I found {nothing".to_string(), 4);
    assert_eq!(report.summary, "I found {nothing");
    assert!(report.is_clean());
    let report = parse_report("[1, 2]".to_string(), 4);
    assert_eq!(report.summary, "Review complete.");
    let bare = report_of(None, "text".to_string(), 0);
    assert_eq!(bare.summary, "text");
    let object = Json::Object(vec![("summary".to_string(), Json::Text("t".to_string()))]);
    assert_eq!(report_of(Some(&object), "x".to_string(), 0).summary, "t");
}

#[test]
fn json_is_found_in_answers() {
    assert_eq!(extract_json("say {\"a\": {}} now"), "{\"a\": {}}");
    assert_eq!(extract_json("} none {"), "} none {");
    assert_eq!(extract_json("```json\n{\"a\":1}"), "{\"a\":1}");
    assert_eq!(extract_json("plain"), "plain");
    let escaped = parse_report(r#"{"summary":"aé\n\"b\"","findings":[]}"#.to_string(), 0);
    assert_eq!(escaped.summary, "aé\n\"b\"");
}
