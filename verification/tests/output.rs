use houndlens::output::{
    count_changes, json_changes, json_summary, json_test_suggestions, json_warnings, status_text, to_sarif_output,
    ChangeRisk, InvariantViolation, SemanticChange, TestSuggestion, VerifyReport, ViolationSeverity,
};

fn change(file: &str, line: u32, col: u32, kind: &str, risk: ChangeRisk, description: &str) -> SemanticChange {
    SemanticChange {
        file: file.to_string(),
        start_line: line,
        start_col: col,
        kind: kind.to_string(),
        risk,
        description: description.to_string(),
    }
}

fn sample_report() -> VerifyReport {
    VerifyReport {
        semantic_changes: vec![
            change("src\\api.rs", 10, 4, "SignatureChanged", ChangeRisk::Breaking, "login takes a token"),
            change("src/db.rs", 3, 0, "Body Changed", ChangeRisk::Safe, "query rewritten"),
            change("src/api.rs", 20, 0, "SignatureChanged", ChangeRisk::NeedsReview, "logout returns a value"),
            change("src/auth.rs", 5, 1, "AuthLogic", ChangeRisk::SecuritySensitive, "token check moved"),
        ],
        invariant_violations: vec![InvariantViolation {
            file: "src\\db.rs".to_string(),
            start_line: 7,
            start_col: 2,
            severity: ViolationSeverity::Info,
            description: "queries used to be logged".to_string(),
        }],
        suggested_tests: vec![
            TestSuggestion { description: "test login".to_string(), priority: "High".to_string(), skeleton: Some("fn t() {}".to_string()) },
            TestSuggestion { description: "test logout".to_string(), priority: "Low".to_string(), skeleton: None },
        ],
        error_count: 1,
        warning_count: 2,
        has_errors: true,
    }
}

#[test]
fn json_summary_counts() {
    let r = sample_report();
    let s = json_summary(&r);
    assert_eq!(s.total_changes, 4);
    assert_eq!(s.breaking, 1);
    assert_eq!(s.needs_review, 1);
    assert_eq!(s.safe, 1);
    assert_eq!(s.errors, 1);
    assert_eq!(s.warnings, 2);
    let security = count_changes(&r.semantic_changes, ChangeRisk::SecuritySensitive);
    assert_eq!(s.breaking + s.needs_review + s.safe + security, s.total_changes);
    assert_eq!(status_text(true), "fail");
    assert_eq!(status_text(false), "pass");
}

#[test]
fn json_entries_follow_the_report() {
    let r = sample_report();
    let c = json_changes(&r);
    assert_eq!(c.len(), 4);
    assert_eq!(c[0].file, "src\\api.rs");
    assert_eq!(c[0].line, 10);
    assert_eq!(c[0].kind, "SignatureChanged");
    assert_eq!(c[0].risk, "Breaking");
    assert_eq!(c[3].risk, "SecuritySensitive");
    assert_eq!(c[1].description, "query rewritten");
    let w = json_warnings(&r);
    assert_eq!(w.len(), 1);
    assert_eq!(w[0].severity, "info");
    assert_eq!(w[0].line, 7);
    let t = json_test_suggestions(&r);
    assert_eq!(t.len(), 2);
    assert_eq!(t[0].skeleton.as_deref(), Some("fn t() {}"));
    assert_eq!(t[1].priority, "Low");
    assert!(t[1].skeleton.is_none());
}

#[test]
fn sarif_log_rules_and_results() {
    let r = sample_report();
    let out = to_sarif_output(&r);
    assert_eq!(out.schema, "https://json.schemastore.org/sarif-2.1.0.json");
    assert_eq!(out.version, "2.1.0");
    assert_eq!(out.runs.len(), 1);
    let run = &out.runs[0];
    assert_eq!(run.tool.driver.name, "houndlens");
    assert_eq!(run.tool.driver.version, "0.1.0");
    assert_eq!(run.tool.driver.information_uri, "https://github.com/injaehwang/houndlens");
    let ids: Vec<&str> = run.tool.driver.rules.iter().map(|r| r.id.as_str()).collect();
    assert_eq!(
        ids,
        vec!["houndlens/signaturechanged", "houndlens/body-changed", "houndlens/authlogic", "houndlens/invariant-violation"]
    );
    let first = &run.tool.driver.rules[0];
    assert_eq!(first.name, "SignatureChanged");
    assert_eq!(first.short_description.text, "Semantic change: SignatureChanged");
    assert_eq!(first.default_configuration.level, "error");
    assert_eq!(run.tool.driver.rules[1].default_configuration.level, "note");
    assert_eq!(run.tool.driver.rules[3].name, "InvariantViolation");
    assert_eq!(run.tool.driver.rules[3].default_configuration.level, "warning");

    assert_eq!(run.results.len(), 5);
    let levels: Vec<&str> = run.results.iter().map(|r| r.level.as_str()).collect();
    assert_eq!(levels, vec!["error", "note", "warning", "error", "note"]);
    let first = &run.results[0];
    assert_eq!(first.rule_id, "houndlens/signaturechanged");
    assert_eq!(first.message.text, "login takes a token");
    assert_eq!(first.locations.len(), 1);
    let loc = &first.locations[0].physical_location;
    assert_eq!(loc.artifact_location.uri, "src/api.rs");
    assert_eq!(loc.region.start_line, 10);
    assert_eq!(loc.region.start_column, 5);
    let last = &run.results[4];
    assert_eq!(last.rule_id, "houndlens/invariant-violation");
    assert_eq!(last.locations[0].physical_location.artifact_location.uri, "src/db.rs");
    assert_eq!(last.locations[0].physical_location.region.start_column, 3);
    // Every result names a rule of the log, and rule ids do not repeat.
    for res in &run.results {
        assert!(ids.contains(&res.rule_id.as_str()));
    }
    let mut sorted = ids.clone();
    sorted.sort();
    sorted.dedup();
    assert_eq!(sorted.len(), ids.len());
}

#[test]
fn sarif_log_of_an_empty_report() {
    let r = VerifyReport {
        semantic_changes: vec![],
        invariant_violations: vec![],
        suggested_tests: vec![],
        error_count: 0,
        warning_count: 0,
        has_errors: false,
    };
    let out = to_sarif_output(&r);
    assert_eq!(out.runs[0].tool.driver.rules.len(), 1);
    assert_eq!(out.runs[0].tool.driver.rules[0].id, "houndlens/invariant-violation");
    assert!(out.runs[0].results.is_empty());
}

#[test]
fn sarif_change_named_like_the_invariant_rule() {
    let r = VerifyReport {
        semantic_changes: vec![change("a.rs", 1, 0, "Invariant Violation", ChangeRisk::Safe, "x")],
        invariant_violations: vec![],
        suggested_tests: vec![],
        error_count: 0,
        warning_count: 0,
        has_errors: false,
    };
    let out = to_sarif_output(&r);
    let rules = &out.runs[0].tool.driver.rules;
    assert_eq!(rules.len(), 1);
    assert_eq!(rules[0].name, "Invariant Violation");
    assert_eq!(rules[0].default_configuration.level, "note");
}
