//! CI decisions: which platform, which diff base, whether to fail, and the texts
//! written for the platform.
use vstd::prelude::*;
use crate::output::{count_changes, count_risk, ChangeRisk, VerifyReport};
use crate::text::{chars_of, copy_range, decimal, eq_lit, push_chars, push_decimal, push_lit, starts_with_at, string_of};

verus! {

/// The CI platform the run is on.
#[derive(Debug, Clone, Copy, PartialEq, Eq, Structural)]
pub enum Platform {
    GitHub,
    GitLab,
    Local,
}

/// The platform a `--platform` value names: `github`, `gitlab`, anything else local.
pub fn platform_from_name(name: &str) -> (p: Platform)
    ensures
        p == if name@ == "github"@ { Platform::GitHub } else if name@ == "gitlab"@ { Platform::GitLab } else { Platform::Local },
{
    let n = chars_of(name);
    if eq_lit(n.as_slice(), "github") {
        Platform::GitHub
    } else if eq_lit(n.as_slice(), "gitlab") {
        Platform::GitLab
    } else {
        Platform::Local
    }
}

/// The platform the environment shows: GitHub when `GITHUB_ACTIONS` is set, else
/// GitLab when `GITLAB_CI` is set, else local.
pub fn detect_platform(github_actions: bool, gitlab_ci: bool) -> (p: Platform)
    ensures
        p == if github_actions { Platform::GitHub } else if gitlab_ci { Platform::GitLab } else { Platform::Local },
{
    if github_actions {
        Platform::GitHub
    } else if gitlab_ci {
        Platform::GitLab
    } else {
        Platform::Local
    }
}

pub open spec fn platform_title(p: Platform) -> Seq<char> {
    match p {
        Platform::GitHub => "GitHub Actions"@,
        Platform::GitLab => "GitLab CI"@,
        Platform::Local => "Local"@,
    }
}

/// The platform's name as shown to the user.
pub fn platform_name(p: Platform) -> (s: String)
    ensures
        s@ == platform_title(p),
{
    match p {
        Platform::GitHub => "GitHub Actions".to_owned(),
        Platform::GitLab => "GitLab CI".to_owned(),
        Platform::Local => "Local".to_owned(),
    }
}

/// On GitHub: `origin/` and the pull request's base branch when `GITHUB_BASE_REF`
/// is set and not empty, else the previous commit.
pub fn github_diff_base(base_ref: Option<&str>) -> (r: String)
    ensures
        r@ == match base_ref {
            Some(b) => if b@.len() > 0 { "origin/"@ + b@ } else { "HEAD~1"@ },
            None => "HEAD~1"@,
        },
{
    match base_ref {
        Some(b) => {
            if b.is_empty() {
                "HEAD~1".to_owned()
            } else {
                let mut v: Vec<char> = Vec::new();
                push_lit(&mut v, "origin/");
                let bc = chars_of(b);
                push_chars(&mut v, bc.as_slice());
                string_of(v.as_slice())
            }
        },
        None => "HEAD~1".to_owned(),
    }
}

/// A GitLab commit value that names a commit: set, not empty and not all zeros.
pub open spec fn usable_sha(s: Option<Seq<char>>) -> bool {
    match s {
        Some(v) => v.len() > 0 && v != "0000000000000000000000000000000000000000"@,
        None => false,
    }
}

fn usable_sha_exec(s: Option<&str>) -> (r: bool)
    ensures
        r == usable_sha(match s { Some(v) => Some(v@), None => None }),
{
    match s {
        Some(v) => {
            let c = chars_of(v);
            c.len() > 0 && !eq_lit(c.as_slice(), "0000000000000000000000000000000000000000")
        },
        None => false,
    }
}

/// On GitLab: the merge request's base commit, else the commit before the push,
/// else the previous commit.
pub fn gitlab_diff_base(mr_base_sha: Option<&str>, before_sha: Option<&str>) -> (r: String)
    ensures
        r@ == if usable_sha(match mr_base_sha { Some(v) => Some(v@), None => None }) {
            mr_base_sha->0@
        } else if usable_sha(match before_sha { Some(v) => Some(v@), None => None }) {
            before_sha->0@
        } else {
            "HEAD~1"@
        },
{
    if usable_sha_exec(mr_base_sha) {
        match mr_base_sha {
            Some(v) => v.to_owned(),
            None => "HEAD~1".to_owned(),
        }
    } else if usable_sha_exec(before_sha) {
        match before_sha {
            Some(v) => v.to_owned(),
            None => "HEAD~1".to_owned(),
        }
    } else {
        "HEAD~1".to_owned()
    }
}

/// A branch name as a CI variable gives it, without a leading `refs/heads/`.
pub open spec fn branch_name(b: Seq<char>) -> Seq<char> {
    if "refs/heads/"@.is_prefix_of(b) { b.skip(11) } else { b }
}

/// The first set, non-empty value among the pull-request target variables.
pub open spec fn pr_target(targets: Seq<Option<Seq<char>>>) -> Option<Seq<char>>
    decreases targets.len(),
{
    if targets.len() == 0 {
        None
    } else {
        match targets[0] {
            Some(t) => if t.len() > 0 { Some(t) } else { pr_target(targets.drop_first()) },
            None => pr_target(targets.drop_first()),
        }
    }
}

pub open spec fn opt_view(s: Option<&str>) -> Option<Seq<char>> {
    match s {
        Some(v) => Some(v@),
        None => None,
    }
}

/// Elsewhere: `origin/` and the pull request's target branch when a CI service
/// gives one (`CHANGE_TARGET` on Jenkins, `BITBUCKET_PR_DESTINATION_BRANCH` on
/// Bitbucket, `SYSTEM_PULLREQUEST_TARGETBRANCH` on Azure DevOps, the first set and
/// non-empty in that order); otherwise the working tree when there are unstaged or
/// staged changes, else the previous commit.
pub fn local_diff_base(
    change_target: Option<&str>,
    bitbucket_target: Option<&str>,
    azure_target: Option<&str>,
    has_changes: bool,
    has_staged: bool,
) -> (r: String)
    ensures
        r@ == match pr_target(seq![opt_view(change_target), opt_view(bitbucket_target), opt_view(azure_target)]) {
            Some(b) => "origin/"@ + branch_name(b),
            None => if has_changes || has_staged { "HEAD"@ } else { "HEAD~1"@ },
        },
{
    let ghost ts = seq![opt_view(change_target), opt_view(bitbucket_target), opt_view(azure_target)];
    proof {
        assert(ts.drop_first() =~= seq![opt_view(bitbucket_target), opt_view(azure_target)]);
        assert(ts.drop_first().drop_first() =~= seq![opt_view(azure_target)]);
        assert(ts.drop_first().drop_first().drop_first() =~= Seq::<Option<Seq<char>>>::empty());
        reveal_with_fuel(pr_target, 4);
    }
    let target = match change_target {
        Some(t) if !t.is_empty() => Some(t),
        _ => match bitbucket_target {
            Some(t) if !t.is_empty() => Some(t),
            _ => match azure_target {
                Some(t) if !t.is_empty() => Some(t),
                _ => None,
            },
        },
    };
    match target {
        Some(t) => {
            let c = chars_of(t);
            let mut v: Vec<char> = Vec::new();
            push_lit(&mut v, "origin/");
            if starts_with_at(c.as_slice(), 0, "refs/heads/") {
                proof {
                    reveal_strlit("refs/heads/");
                }
                let rest = copy_range(c.as_slice(), 11, c.len());
                assert(rest@ =~= c@.skip(11));
                push_chars(&mut v, rest.as_slice());
            } else {
                assert(c@.skip(0) =~= c@);
                push_chars(&mut v, c.as_slice());
            }
            string_of(v.as_slice())
        },
        None => if has_changes || has_staged { "HEAD".to_owned() } else { "HEAD~1".to_owned() },
    }
}

/// A diff base configured by the user (`OMNILENS_DIFF_BASE`) wins over the detected
/// one when it is set and not empty.
pub fn configured_diff_base(configured: Option<&str>, detected: String) -> (r: String)
    ensures
        r@ == match configured {
            Some(c) => if c@.len() > 0 { c@ } else { detected@ },
            None => detected@,
        },
{
    match configured {
        Some(c) => if c.is_empty() { detected } else { c.to_owned() },
        None => detected,
    }
}

/// Whether a run fails at threshold `fail_on`: never for `never`; for `warning` on
/// any warning or error; otherwise on errors.
pub open spec fn fails_at(fail_on: Seq<char>, warnings: nat, has_errors: bool) -> bool {
    if fail_on == "never"@ {
        false
    } else if fail_on == "warning"@ {
        warnings > 0 || has_errors
    } else {
        has_errors
    }
}

/// Whether the run fails: never for `never`; for `warning` on any warning or
/// error; otherwise on errors.
pub fn should_fail(fail_on: &str, warning_count: usize, has_errors: bool) -> (r: bool)
    ensures
        r == fails_at(fail_on@, warning_count as nat, has_errors),
{
    let f = chars_of(fail_on);
    if eq_lit(f.as_slice(), "never") {
        false
    } else if eq_lit(f.as_slice(), "warning") {
        warning_count > 0 || has_errors
    } else {
        has_errors
    }
}

pub open spec fn badge_text(r: ChangeRisk) -> Seq<char> {
    match r {
        ChangeRisk::Breaking => "BREAKING"@,
        ChangeRisk::SecuritySensitive => "SECURITY"@,
        ChangeRisk::NeedsReview => "REVIEW"@,
        ChangeRisk::Safe => "SAFE"@,
    }
}

/// The badge a change gets in the text summary.
pub fn risk_badge(r: ChangeRisk) -> (s: String)
    ensures
        s@ == badge_text(r),
{
    match r {
        ChangeRisk::Breaking => "BREAKING".to_owned(),
        ChangeRisk::SecuritySensitive => "SECURITY".to_owned(),
        ChangeRisk::NeedsReview => "REVIEW".to_owned(),
        ChangeRisk::Safe => "SAFE".to_owned(),
    }
}

pub open spec fn status_word(has_errors: bool) -> Seq<char> {
    if has_errors { "fail"@ } else { "pass"@ }
}

/// The step outputs for GitHub: status, risk score in percent, number of changes.
pub open spec fn github_output_spec(has_errors: bool, risk_percent: Seq<char>, changes: nat) -> Seq<char> {
    "status="@ + status_word(has_errors) + "\nrisk-score="@ + risk_percent + "\nchanges="@ + decimal(changes) + "\n"@
}

/// The dotenv lines for GitLab: status, risk score in percent, number of changes.
pub open spec fn gitlab_output_spec(has_errors: bool, risk_percent: Seq<char>, changes: nat) -> Seq<char> {
    "HOUNDLENS_STATUS="@ + status_word(has_errors) + "\nHOUNDLENS_RISK="@ + risk_percent + "\nHOUNDLENS_CHANGES="@
        + decimal(changes) + "\n"@
}

fn push_status(v: &mut Vec<char>, has_errors: bool)
    ensures
        final(v)@ == old(v)@ + status_word(has_errors),
{
    if has_errors {
        push_lit(v, "fail");
    } else {
        push_lit(v, "pass");
    }
}

/// The GitHub step outputs; `risk_percent` is the risk score in percent, rounded.
pub fn github_output_content(has_errors: bool, risk_percent: &str, changes: usize) -> (s: String)
    ensures
        s@ == github_output_spec(has_errors, risk_percent@, changes as nat),
{
    let mut v: Vec<char> = Vec::new();
    push_lit(&mut v, "status=");
    push_status(&mut v, has_errors);
    push_lit(&mut v, "\nrisk-score=");
    push_lit(&mut v, risk_percent);
    push_lit(&mut v, "\nchanges=");
    push_decimal(&mut v, changes as u64);
    push_lit(&mut v, "\n");
    assert(v@ =~= github_output_spec(has_errors, risk_percent@, changes as nat));
    string_of(v.as_slice())
}

/// The GitLab dotenv lines; `risk_percent` is the risk score in percent, rounded.
pub fn gitlab_output_content(has_errors: bool, risk_percent: &str, changes: usize) -> (s: String)
    ensures
        s@ == gitlab_output_spec(has_errors, risk_percent@, changes as nat),
{
    let mut v: Vec<char> = Vec::new();
    push_lit(&mut v, "HOUNDLENS_STATUS=");
    push_status(&mut v, has_errors);
    push_lit(&mut v, "\nHOUNDLENS_RISK=");
    push_lit(&mut v, risk_percent);
    push_lit(&mut v, "\nHOUNDLENS_CHANGES=");
    push_decimal(&mut v, changes as u64);
    push_lit(&mut v, "\n");
    assert(v@ =~= gitlab_output_spec(has_errors, risk_percent@, changes as nat));
    string_of(v.as_slice())
}

/// The Markdown job summary: status, then a table of the risk score (in percent,
/// rounded, as `risk_percent` gives it), the number of changes, of breaking
/// changes and of warnings.
pub open spec fn markdown_summary_spec(has_errors: bool, risk_percent: Seq<char>, changes: nat, breaking: nat, warnings: nat) -> Seq<char> {
    "## "@ + (if has_errors { "❌ FAIL"@ } else { "✅ PASS"@ })
        + " houndlens verification\n\n| Metric | Value |\n|--------|-------|\n"@
        + "| Risk Score | **"@ + risk_percent + "%** |\n| Changes | "@ + decimal(changes)
        + " |\n| Breaking | "@ + decimal(breaking) + " |\n| Warnings | "@ + decimal(warnings) + " |\n\n"@
}

/// The Markdown job summary of a verification result.
pub fn format_markdown_summary(report: &VerifyReport, risk_percent: &str) -> (md: String)
    ensures
        md@ == markdown_summary_spec(
            report.has_errors,
            risk_percent@,
            report.semantic_changes@.len(),
            count_risk(report.semantic_changes@, ChangeRisk::Breaking, report.semantic_changes@.len() as int),
            report.warning_count as nat,
        ),
{
    let mut v: Vec<char> = Vec::new();
    push_lit(&mut v, "## ");
    if report.has_errors {
        push_lit(&mut v, "❌ FAIL");
    } else {
        push_lit(&mut v, "✅ PASS");
    }
    push_lit(&mut v, " houndlens verification\n\n| Metric | Value |\n|--------|-------|\n");
    push_lit(&mut v, "| Risk Score | **");
    push_lit(&mut v, risk_percent);
    push_lit(&mut v, "%** |\n| Changes | ");
    push_decimal(&mut v, report.semantic_changes.len() as u64);
    push_lit(&mut v, " |\n| Breaking | ");
    let breaking = count_changes(&report.semantic_changes, ChangeRisk::Breaking);
    push_decimal(&mut v, breaking as u64);
    push_lit(&mut v, " |\n| Warnings | ");
    push_decimal(&mut v, report.warning_count as u64);
    push_lit(&mut v, " |\n\n");
    let ghost expected = markdown_summary_spec(
        report.has_errors,
        risk_percent@,
        report.semantic_changes@.len(),
        count_risk(report.semantic_changes@, ChangeRisk::Breaking, report.semantic_changes@.len() as int),
        report.warning_count as nat,
    );
    assert(v@ =~= expected);
    string_of(v.as_slice())
}

/// The thresholds are nested: `never` never fails, `error` (or any other word)
/// fails exactly on errors, and `warning` fails whenever `error` does.
pub proof fn law_fail_thresholds_nested(warnings: nat, has_errors: bool)
    ensures
        !fails_at("never"@, warnings, has_errors),
        fails_at("error"@, warnings, has_errors) == has_errors,
        fails_at("error"@, warnings, has_errors) ==> fails_at("warning"@, warnings, has_errors),
{
    reveal_strlit("never");
    reveal_strlit("warning");
    reveal_strlit("error");
    assert("error"@ != "never"@) by {
        assert("error"@[0] != "never"@[0]);
    }
    assert("error"@ != "warning"@) by {
        assert("error"@[0] != "warning"@[0]);
    }
    assert("never"@ != "warning"@) by {
        assert("never"@[0] != "warning"@[0]);
    }
}

/// At threshold `warning` any warning fails the run; at every threshold more
/// warnings never turn a failure into a pass; and errors fail the run at every
/// threshold but `never`.
pub proof fn law_warnings_fail_at_warning(fail_on: Seq<char>, warnings: nat, more: nat, has_errors: bool)
    ensures
        warnings > 0 ==> fails_at("warning"@, warnings, has_errors),
        fails_at(fail_on, warnings, has_errors) && warnings <= more ==> fails_at(fail_on, more, has_errors),
        has_errors && fail_on != "never"@ ==> fails_at(fail_on, warnings, has_errors),
        !has_errors && warnings == 0 ==> !fails_at(fail_on, warnings, has_errors),
{
    reveal_strlit("never");
    reveal_strlit("warning");
    assert("never"@ != "warning"@) by {
        assert("never"@[0] != "warning"@[0]);
    }
}

} // verus!
