use houndlens::ci::{
    configured_diff_base, detect_platform, format_markdown_summary, github_diff_base, github_output_content, gitlab_diff_base, gitlab_output_content,
    local_diff_base, platform_from_name, platform_name, risk_badge, should_fail, Platform,
};
use houndlens::output::{ChangeRisk, SemanticChange, VerifyReport};

#[test]
fn platforms() {
    assert_eq!(platform_from_name("github"), Platform::GitHub);
    assert_eq!(platform_from_name("gitlab"), Platform::GitLab);
    assert_eq!(platform_from_name("jenkins"), Platform::Local);
    assert_eq!(platform_from_name("GitHub"), Platform::Local);
    assert_eq!(detect_platform(true, true), Platform::GitHub);
    assert_eq!(detect_platform(false, true), Platform::GitLab);
    assert_eq!(detect_platform(false, false), Platform::Local);
    assert_eq!(platform_name(Platform::GitHub), "GitHub Actions");
    assert_eq!(platform_name(Platform::GitLab), "GitLab CI");
    assert_eq!(platform_name(Platform::Local), "Local");
}

#[test]
fn diff_bases() {
    assert_eq!(github_diff_base(Some("main")), "origin/main");
    assert_eq!(github_diff_base(Some("")), "HEAD~1");
    assert_eq!(github_diff_base(None), "HEAD~1");
    let zeros = "0000000000000000000000000000000000000000";
    assert_eq!(gitlab_diff_base(Some("abc123"), Some("def456")), "abc123");
    assert_eq!(gitlab_diff_base(Some(zeros), Some("def456")), "def456");
    assert_eq!(gitlab_diff_base(Some(""), Some(zeros)), "HEAD~1");
    assert_eq!(gitlab_diff_base(None, None), "HEAD~1");
    assert_eq!(local_diff_base(None, None, None, true, false), "HEAD");
    assert_eq!(local_diff_base(None, None, None, false, true), "HEAD");
    assert_eq!(local_diff_base(None, None, None, false, false), "HEAD~1");
    assert_eq!(local_diff_base(Some(""), None, None, false, false), "HEAD~1");
}

#[test]
fn pull_request_targets_of_other_services() {
    assert_eq!(local_diff_base(Some("main"), None, None, true, true), "origin/main");
    assert_eq!(local_diff_base(None, Some("develop"), None, false, false), "origin/develop");
    assert_eq!(local_diff_base(None, None, Some("refs/heads/release"), false, false), "origin/release");
    assert_eq!(local_diff_base(Some(""), Some("b"), Some("c"), false, false), "origin/b");
    assert_eq!(configured_diff_base(Some("main"), "HEAD~1".to_string()), "main");
    assert_eq!(configured_diff_base(Some(""), "HEAD~1".to_string()), "HEAD~1");
    assert_eq!(configured_diff_base(None, "origin/dev".to_string()), "origin/dev");
}

#[test]
fn failure_thresholds() {
    assert!(!should_fail("never", 5, true));
    assert!(should_fail("warning", 1, false));
    assert!(!should_fail("warning", 0, false));
    assert!(should_fail("error", 0, true));
    assert!(!should_fail("error", 3, false));
    assert!(should_fail("anything", 0, true));
    for w in [0usize, 1, 7] {
        for e in [false, true] {
            assert!(!should_fail("never", w, e));
            if should_fail("error", w, e) {
                assert!(should_fail("warning", w, e));
            }
        }
    }
}

#[test]
fn badges() {
    assert_eq!(risk_badge(ChangeRisk::Breaking), "BREAKING");
    assert_eq!(risk_badge(ChangeRisk::SecuritySensitive), "SECURITY");
    assert_eq!(risk_badge(ChangeRisk::NeedsReview), "REVIEW");
    assert_eq!(risk_badge(ChangeRisk::Safe), "SAFE");
}

#[test]
fn platform_outputs() {
    assert_eq!(github_output_content(false, "12", 3), "status=pass\nrisk-score=12\nchanges=3\n");
    assert_eq!(
        gitlab_output_content(true, "80", 10),
        "HOUNDLENS_STATUS=fail\nHOUNDLENS_RISK=80\nHOUNDLENS_CHANGES=10\n"
    );
}

#[test]
fn markdown_summary() {
    let change = |risk| SemanticChange {
        file: "a.rs".to_string(),
        start_line: 1,
        start_col: 0,
        kind: "SignatureChanged".to_string(),
        risk,
        description: "d".to_string(),
    };
    let report = VerifyReport {
        semantic_changes: vec![change(ChangeRisk::Breaking), change(ChangeRisk::Safe), change(ChangeRisk::Breaking)],
        invariant_violations: vec![],
        suggested_tests: vec![],
        error_count: 2,
        warning_count: 4,
        has_errors: true,
    };
    assert_eq!(
        format_markdown_summary(&report, "65"),
        "## ❌ FAIL houndlens verification\n\n| Metric | Value |\n|--------|-------|\n| Risk Score | **65%** |\n| Changes | 3 |\n| Breaking | 2 |\n| Warnings | 4 |\n\n"
    );
}
