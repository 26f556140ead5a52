//! Report building for CI: the JSON summary parts and the SARIF log of a verification result.
use vstd::prelude::*;
use crate::text::{chars_of, eq_chars, lowercase_spec, push_chars, push_lit, string_of, to_lowercase};

verus! {

/// How risky a semantic change is.
#[derive(Debug, Clone, Copy, PartialEq, Eq, Structural)]
pub enum ChangeRisk {
    Breaking,
    SecuritySensitive,
    NeedsReview,
    Safe,
}

/// How serious an invariant violation is.
#[derive(Debug, Clone, Copy, PartialEq, Eq, Structural)]
pub enum ViolationSeverity {
    Error,
    Warning,
    Info,
}

/// A semantic change found by verification.
pub struct SemanticChange {
    /// The file's path as text.
    pub file: String,
    pub start_line: u32,
    pub start_col: u32,
    /// The kind of change, as its name prints.
    pub kind: String,
    pub risk: ChangeRisk,
    pub description: String,
}

/// A codebase invariant that a change may violate.
pub struct InvariantViolation {
    /// The file's path as text.
    pub file: String,
    pub start_line: u32,
    pub start_col: u32,
    pub severity: ViolationSeverity,
    pub description: String,
}

/// A test that verification suggests.
pub struct TestSuggestion {
    pub description: String,
    /// The priority, as its name prints.
    pub priority: String,
    pub skeleton: Option<String>,
}

/// The parts of a verification result that the reports read.
pub struct VerifyReport {
    pub semantic_changes: Vec<SemanticChange>,
    pub invariant_violations: Vec<InvariantViolation>,
    pub suggested_tests: Vec<TestSuggestion>,
    /// The result's error count.
    pub error_count: usize,
    /// The result's warning count.
    pub warning_count: usize,
    /// Whether the result has errors.
    pub has_errors: bool,
}

pub struct JsonSummary {
    pub total_changes: usize,
    pub breaking: usize,
    pub needs_review: usize,
    pub safe: usize,
    pub errors: usize,
    pub warnings: usize,
}

pub struct JsonChange {
    pub file: String,
    pub line: u32,
    pub kind: String,
    pub risk: String,
    pub description: String,
}

pub struct JsonWarning {
    pub file: String,
    pub line: u32,
    pub severity: String,
    pub description: String,
}

pub struct JsonTestSuggestion {
    pub description: String,
    pub priority: String,
    pub skeleton: Option<String>,
}

pub struct SarifOutput {
    pub schema: String,
    pub version: String,
    pub runs: Vec<SarifRun>,
}

pub struct SarifRun {
    pub tool: SarifTool,
    pub results: Vec<SarifResult>,
}

pub struct SarifTool {
    pub driver: SarifDriver,
}

pub struct SarifDriver {
    pub name: String,
    pub version: String,
    pub information_uri: String,
    pub rules: Vec<SarifRule>,
}

pub struct SarifRule {
    pub id: String,
    pub name: String,
    pub short_description: SarifMessage,
    pub default_configuration: SarifRuleConfig,
}

pub struct SarifRuleConfig {
    pub level: String,
}

pub struct SarifResult {
    pub rule_id: String,
    pub level: String,
    pub message: SarifMessage,
    pub locations: Vec<SarifLocation>,
}

pub struct SarifMessage {
    pub text: String,
}

pub struct SarifLocation {
    pub physical_location: SarifPhysicalLocation,
}

pub struct SarifPhysicalLocation {
    pub artifact_location: SarifArtifactLocation,
    pub region: SarifRegion,
}

pub struct SarifArtifactLocation {
    pub uri: String,
}

pub struct SarifRegion {
    pub start_line: u32,
    pub start_column: u32,
}

// ─── Names and counts ───────────────────────────────────────────

/// The name a risk prints as.
pub open spec fn risk_name(r: ChangeRisk) -> Seq<char> {
    match r {
        ChangeRisk::Breaking => "Breaking"@,
        ChangeRisk::SecuritySensitive => "SecuritySensitive"@,
        ChangeRisk::NeedsReview => "NeedsReview"@,
        ChangeRisk::Safe => "Safe"@,
    }
}

fn risk_name_exec(r: ChangeRisk) -> (s: String)
    ensures
        s@ == risk_name(r),
{
    match r {
        ChangeRisk::Breaking => "Breaking".to_owned(),
        ChangeRisk::SecuritySensitive => "SecuritySensitive".to_owned(),
        ChangeRisk::NeedsReview => "NeedsReview".to_owned(),
        ChangeRisk::Safe => "Safe".to_owned(),
    }
}

/// Number of the first `n` changes with risk `r`.
pub open spec fn count_risk(changes: Seq<SemanticChange>, r: ChangeRisk, n: int) -> nat
    decreases n,
{
    if n <= 0 {
        0
    } else {
        count_risk(changes, r, n - 1) + if changes[n - 1].risk == r { 1nat } else { 0nat }
    }
}

proof fn lemma_count_risk_bound(changes: Seq<SemanticChange>, r: ChangeRisk, n: int)
    requires
        0 <= n,
    ensures
        count_risk(changes, r, n) <= n,
    decreases n,
{
    if n > 0 {
        lemma_count_risk_bound(changes, r, n - 1);
    }
}

/// Number of changes with risk `r`.
pub fn count_changes(changes: &Vec<SemanticChange>, r: ChangeRisk) -> (c: usize)
    ensures
        c == count_risk(changes@, r, changes@.len() as int),
{
    let mut c: usize = 0;
    let mut i: usize = 0;
    while i < changes.len()
        invariant
            i <= changes@.len(),
            c == count_risk(changes@, r, i as int),
        decreases changes.len() - i,
    {
        proof {
            lemma_count_risk_bound(changes@, r, i as int);
        }
        if changes[i].risk == r {
            c = c + 1;
        }
        i = i + 1;
    }
    c
}

/// The result's status word: `fail` when it has errors, else `pass`.
pub fn status_text(has_errors: bool) -> (s: String)
    ensures
        s@ == if has_errors { "fail"@ } else { "pass"@ },
{
    if has_errors { "fail".to_owned() } else { "pass".to_owned() }
}

// ─── JSON parts ─────────────────────────────────────────────────

/// The summary counts: all changes, the breaking, needs-review and safe ones, and
/// the result's error and warning counts.
pub fn json_summary(report: &VerifyReport) -> (s: JsonSummary)
    ensures
        s.total_changes == report.semantic_changes@.len(),
        s.breaking == count_risk(report.semantic_changes@, ChangeRisk::Breaking, report.semantic_changes@.len() as int),
        s.needs_review == count_risk(report.semantic_changes@, ChangeRisk::NeedsReview, report.semantic_changes@.len() as int),
        s.safe == count_risk(report.semantic_changes@, ChangeRisk::Safe, report.semantic_changes@.len() as int),
        s.errors == report.error_count,
        s.warnings == report.warning_count,
{
    JsonSummary {
        total_changes: report.semantic_changes.len(),
        breaking: count_changes(&report.semantic_changes, ChangeRisk::Breaking),
        needs_review: count_changes(&report.semantic_changes, ChangeRisk::NeedsReview),
        safe: count_changes(&report.semantic_changes, ChangeRisk::Safe),
        errors: report.error_count,
        warnings: report.warning_count,
    }
}

pub open spec fn json_change_matches(j: JsonChange, c: SemanticChange) -> bool {
    &&& j.file@ == c.file@
    &&& j.line == c.start_line
    &&& j.kind@ == c.kind@
    &&& j.risk@ == risk_name(c.risk)
    &&& j.description@ == c.description@
}

/// One JSON entry per semantic change, in order.
pub fn json_changes(report: &VerifyReport) -> (v: Vec<JsonChange>)
    ensures
        v@.len() == report.semantic_changes@.len(),
        forall|i: int| 0 <= i < v@.len() ==> json_change_matches(#[trigger] v@[i], report.semantic_changes@[i]),
{
    let changes = &report.semantic_changes;
    let mut v: Vec<JsonChange> = Vec::new();
    let mut i: usize = 0;
    while i < changes.len()
        invariant
            i <= changes@.len(),
            v@.len() == i,
            forall|k: int| 0 <= k < i ==> json_change_matches(#[trigger] v@[k], changes@[k]),
        decreases changes.len() - i,
    {
        let c = &changes[i];
        v.push(JsonChange {
            file: c.file.clone(),
            line: c.start_line,
            kind: c.kind.clone(),
            risk: risk_name_exec(c.risk),
            description: c.description.clone(),
        });
        i = i + 1;
    }
    v
}

/// The name a JSON warning gives a severity.
pub open spec fn json_severity(s: ViolationSeverity) -> Seq<char> {
    match s {
        ViolationSeverity::Error => "error"@,
        ViolationSeverity::Warning => "warning"@,
        ViolationSeverity::Info => "info"@,
    }
}

pub open spec fn json_warning_matches(j: JsonWarning, v: InvariantViolation) -> bool {
    &&& j.file@ == v.file@
    &&& j.line == v.start_line
    &&& j.severity@ == json_severity(v.severity)
    &&& j.description@ == v.description@
}

/// One JSON warning per invariant violation, in order.
pub fn json_warnings(report: &VerifyReport) -> (w: Vec<JsonWarning>)
    ensures
        w@.len() == report.invariant_violations@.len(),
        forall|i: int| 0 <= i < w@.len() ==> json_warning_matches(#[trigger] w@[i], report.invariant_violations@[i]),
{
    let vs = &report.invariant_violations;
    let mut w: Vec<JsonWarning> = Vec::new();
    let mut i: usize = 0;
    while i < vs.len()
        invariant
            i <= vs@.len(),
            w@.len() == i,
            forall|k: int| 0 <= k < i ==> json_warning_matches(#[trigger] w@[k], vs@[k]),
        decreases vs.len() - i,
    {
        let v = &vs[i];
        let severity = match v.severity {
            ViolationSeverity::Error => "error".to_owned(),
            ViolationSeverity::Warning => "warning".to_owned(),
            ViolationSeverity::Info => "info".to_owned(),
        };
        w.push(JsonWarning {
            file: v.file.clone(),
            line: v.start_line,
            severity,
            description: v.description.clone(),
        });
        i = i + 1;
    }
    w
}

pub open spec fn json_suggestion_matches(j: JsonTestSuggestion, t: TestSuggestion) -> bool {
    &&& j.description@ == t.description@
    &&& j.priority@ == t.priority@
    &&& match (j.skeleton, t.skeleton) {
        (Some(a), Some(b)) => a@ == b@,
        (None, None) => true,
        _ => false,
    }
}

/// One JSON test suggestion per suggested test, in order.
pub fn json_test_suggestions(report: &VerifyReport) -> (s: Vec<JsonTestSuggestion>)
    ensures
        s@.len() == report.suggested_tests@.len(),
        forall|i: int| 0 <= i < s@.len() ==> json_suggestion_matches(#[trigger] s@[i], report.suggested_tests@[i]),
{
    let ts = &report.suggested_tests;
    let mut s: Vec<JsonTestSuggestion> = Vec::new();
    let mut i: usize = 0;
    while i < ts.len()
        invariant
            i <= ts@.len(),
            s@.len() == i,
            forall|k: int| 0 <= k < i ==> json_suggestion_matches(#[trigger] s@[k], ts@[k]),
        decreases ts.len() - i,
    {
        let t = &ts[i];
        let skeleton = match &t.skeleton {
            Some(k) => Some(k.clone()),
            None => None,
        };
        s.push(JsonTestSuggestion {
            description: t.description.clone(),
            priority: t.priority.clone(),
            skeleton,
        });
        i = i + 1;
    }
    s
}

// ─── SARIF log ──────────────────────────────────────────────────

/// `s` with every `a` replaced by `b`.
pub open spec fn replace_char(s: Seq<char>, a: char, b: char) -> Seq<char> {
    s.map_values(|c: char| if c == a { b } else { c })
}

fn replace_char_exec(v: &[char], a: char, b: char) -> (r: Vec<char>)
    ensures
        r@ == replace_char(v@, a, b),
{
    let mut r: Vec<char> = Vec::new();
    let mut i: usize = 0;
    while i < v.len()
        invariant
            i <= v@.len(),
            r@ == replace_char(v@.take(i as int), a, b),
        decreases v.len() - i,
    {
        let c = v[i];
        r.push(if c == a { b } else { c });
        i = i + 1;
        assert(r@ =~= replace_char(v@.take(i as int), a, b));
    }
    assert(v@.take(v@.len() as int) =~= v@);
    r
}

/// The SARIF rule id of a change kind: `houndlens/` and the kind, lowercased, with
/// spaces turned into dashes.
pub open spec fn rule_id_of(kind: Seq<char>) -> Seq<char> {
    replace_char(lowercase_spec("houndlens/"@ + kind), ' ', '-')
}

pub open spec fn risk_level(r: ChangeRisk) -> Seq<char> {
    match r {
        ChangeRisk::Breaking => "error"@,
        ChangeRisk::SecuritySensitive => "error"@,
        ChangeRisk::NeedsReview => "warning"@,
        ChangeRisk::Safe => "note"@,
    }
}

pub open spec fn severity_level(s: ViolationSeverity) -> Seq<char> {
    match s {
        ViolationSeverity::Error => "error"@,
        ViolationSeverity::Warning => "warning"@,
        ViolationSeverity::Info => "note"@,
    }
}

pub struct SpecRule {
    pub id: Seq<char>,
    pub name: Seq<char>,
    pub text: Seq<char>,
    pub level: Seq<char>,
}

pub open spec fn rule_view(r: SarifRule) -> SpecRule {
    SpecRule {
        id: r.id@,
        name: r.name@,
        text: r.short_description.text@,
        level: r.default_configuration.level@,
    }
}

/// The rule a change would add: its id, the kind's name, a description and the
/// change's level.
pub open spec fn change_rule(c: SemanticChange) -> SpecRule {
    SpecRule {
        id: rule_id_of(c.kind@),
        name: c.kind@,
        text: "Semantic change: "@ + c.kind@,
        level: risk_level(c.risk),
    }
}

pub open spec fn has_rule(rules: Seq<SpecRule>, id: Seq<char>) -> bool {
    exists|i: int| 0 <= i < rules.len() && (#[trigger] rules[i]).id == id
}

/// The rules of the first `n` changes: one per rule id, from the first change with
/// that id, in order of first appearance.
pub open spec fn change_rules(changes: Seq<SemanticChange>, n: int) -> Seq<SpecRule>
    decreases n,
{
    if n <= 0 {
        seq![]
    } else {
        let prev = change_rules(changes, n - 1);
        let r = change_rule(changes[n - 1]);
        if has_rule(prev, r.id) { prev } else { prev.push(r) }
    }
}

pub open spec fn invariant_rule() -> SpecRule {
    SpecRule {
        id: "houndlens/invariant-violation"@,
        name: "InvariantViolation"@,
        text: "Code change may violate a codebase invariant"@,
        level: "warning"@,
    }
}

/// The log's rules: those of the changes, then the invariant-violation rule unless
/// a change already has its id.
pub open spec fn sarif_rules(changes: Seq<SemanticChange>) -> Seq<SpecRule> {
    let cr = change_rules(changes, changes.len() as int);
    if has_rule(cr, invariant_rule().id) { cr } else { cr.push(invariant_rule()) }
}

pub struct SpecResult {
    pub rule_id: Seq<char>,
    pub level: Seq<char>,
    pub text: Seq<char>,
    pub uri: Seq<char>,
    pub line: u32,
    pub column: u32,
}

/// A result with its one location.
pub open spec fn result_view(r: SarifResult) -> SpecResult {
    let loc = r.locations@[0].physical_location;
    SpecResult {
        rule_id: r.rule_id@,
        level: r.level@,
        text: r.message.text@,
        uri: loc.artifact_location.uri@,
        line: loc.region.start_line,
        column: loc.region.start_column,
    }
}

/// The result for a change: its rule and level, its description, its file with `/`
/// for `\`, its line, and its column counted from 1.
pub open spec fn change_result(c: SemanticChange) -> SpecResult {
    SpecResult {
        rule_id: rule_id_of(c.kind@),
        level: risk_level(c.risk),
        text: c.description@,
        uri: replace_char(c.file@, '\\', '/'),
        line: c.start_line,
        column: (c.start_col + 1) as u32,
    }
}

/// The result for an invariant violation, under the invariant-violation rule.
pub open spec fn violation_result(v: InvariantViolation) -> SpecResult {
    SpecResult {
        rule_id: "houndlens/invariant-violation"@,
        level: severity_level(v.severity),
        text: v.description@,
        uri: replace_char(v.file@, '\\', '/'),
        line: v.start_line,
        column: (v.start_col + 1) as u32,
    }
}

/// The log's results: one per change, then one per invariant violation.
pub open spec fn sarif_results(report: VerifyReport) -> Seq<SpecResult> {
    report.semantic_changes@.map_values(|c: SemanticChange| change_result(c))
        + report.invariant_violations@.map_values(|v: InvariantViolation| violation_result(v))
}

/// Columns can be counted from 1 without overflow.
pub open spec fn columns_fit(report: VerifyReport) -> bool {
    &&& forall|i: int| 0 <= i < report.semantic_changes@.len() ==> (#[trigger] report.semantic_changes@[i]).start_col < u32::MAX
    &&& forall|i: int| 0 <= i < report.invariant_violations@.len() ==> (#[trigger] report.invariant_violations@[i]).start_col < u32::MAX
}

fn rule_id_exec(kind: &String) -> (r: String)
    ensures
        r@ == rule_id_of(kind@),
{
    let mut v: Vec<char> = Vec::new();
    push_lit(&mut v, "houndlens/");
    let k = chars_of(kind.as_str());
    push_chars(&mut v, k.as_slice());
    let s = string_of(v.as_slice());
    let l = to_lowercase(s.as_str());
    let lc = chars_of(l.as_str());
    let r = replace_char_exec(lc.as_slice(), ' ', '-');
    string_of(r.as_slice())
}

fn message_of(prefix: &str, kind: &String) -> (m: String)
    ensures
        m@ == prefix@ + kind@,
{
    let mut v: Vec<char> = Vec::new();
    push_lit(&mut v, prefix);
    let k = chars_of(kind.as_str());
    push_chars(&mut v, k.as_slice());
    string_of(v.as_slice())
}

fn level_of_risk(r: ChangeRisk) -> (s: String)
    ensures
        s@ == risk_level(r),
{
    match r {
        ChangeRisk::Breaking => "error".to_owned(),
        ChangeRisk::SecuritySensitive => "error".to_owned(),
        ChangeRisk::NeedsReview => "warning".to_owned(),
        ChangeRisk::Safe => "note".to_owned(),
    }
}

fn level_of_severity(s: ViolationSeverity) -> (r: String)
    ensures
        r@ == severity_level(s),
{
    match s {
        ViolationSeverity::Error => "error".to_owned(),
        ViolationSeverity::Warning => "warning".to_owned(),
        ViolationSeverity::Info => "note".to_owned(),
    }
}

fn slashed(file: &String) -> (r: String)
    ensures
        r@ == replace_char(file@, '\\', '/'),
{
    let f = chars_of(file.as_str());
    let r = replace_char_exec(f.as_slice(), '\\', '/');
    string_of(r.as_slice())
}

fn one_location(uri: String, line: u32, column: u32) -> (v: Vec<SarifLocation>)
    ensures
        v@.len() == 1,
        v@[0].physical_location.artifact_location.uri@ == uri@,
        v@[0].physical_location.region.start_line == line,
        v@[0].physical_location.region.start_column == column,
{
    let mut v: Vec<SarifLocation> = Vec::new();
    v.push(SarifLocation {
        physical_location: SarifPhysicalLocation {
            artifact_location: SarifArtifactLocation { uri },
            region: SarifRegion { start_line: line, start_column: column },
        },
    });
    v
}

fn find_rule(rules: &Vec<SarifRule>, id: &String) -> (r: bool)
    ensures
        r == has_rule(rules@.map_values(|x: SarifRule| rule_view(x)), id@),
{
    let ghost rv = rules@.map_values(|x: SarifRule| rule_view(x));
    let mut i: usize = 0;
    while i < rules.len()
        invariant
            i <= rules@.len(),
            rv == rules@.map_values(|x: SarifRule| rule_view(x)),
            forall|k: int| 0 <= k < i ==> (#[trigger] rv[k]).id != id@,
        decreases rules.len() - i,
    {
        if rules[i].id == *id {
            assert(rv[i as int].id == id@);
            return true;
        }
        i = i + 1;
    }
    false
}

/// The SARIF log of a verification result: one run of this tool, with a rule per
/// kind of change (plus the invariant-violation rule) and a result per change and
/// per violation.
pub fn to_sarif_output(report: &VerifyReport) -> (out: SarifOutput)
    requires
        columns_fit(*report),
    ensures
        out.schema@ == "https://json.schemastore.org/sarif-2.1.0.json"@,
        out.version@ == "2.1.0"@,
        out.runs@.len() == 1,
        out.runs@[0].tool.driver.name@ == "houndlens"@,
        out.runs@[0].tool.driver.version@ == "0.1.0"@,
        out.runs@[0].tool.driver.information_uri@ == "https://github.com/injaehwang/houndlens"@,
        out.runs@[0].tool.driver.rules@.map_values(|x: SarifRule| rule_view(x)) == sarif_rules(report.semantic_changes@),
        out.runs@[0].results@.map_values(|x: SarifResult| result_view(x)) == sarif_results(*report),
        forall|i: int| 0 <= i < out.runs@[0].results@.len() ==> (#[trigger] out.runs@[0].results@[i]).locations@.len() == 1,
{
    let changes = &report.semantic_changes;
    let violations = &report.invariant_violations;
    let mut rules: Vec<SarifRule> = Vec::new();
    let mut results: Vec<SarifResult> = Vec::new();
    let mut i: usize = 0;
    while i < changes.len()
        invariant
            columns_fit(*report),
            changes == &report.semantic_changes,
            i <= changes@.len(),
            rules@.map_values(|x: SarifRule| rule_view(x)) == change_rules(changes@, i as int),
            results@.map_values(|x: SarifResult| result_view(x))
                == changes@.take(i as int).map_values(|c: SemanticChange| change_result(c)),
            forall|k: int| 0 <= k < results@.len() ==> (#[trigger] results@[k]).locations@.len() == 1,
        decreases changes.len() - i,
    {
        let change = &changes[i];
        let rule_id = rule_id_exec(&change.kind);
        let ghost before_rules = rules@.map_values(|x: SarifRule| rule_view(x));
        if !find_rule(&rules, &rule_id) {
            let rule = SarifRule {
                id: rule_id.clone(),
                name: change.kind.clone(),
                short_description: SarifMessage { text: message_of("Semantic change: ", &change.kind) },
                default_configuration: SarifRuleConfig { level: level_of_risk(change.risk) },
            };
            let ghost rv = rule_view(rule);
            rules.push(rule);
            assert(rules@.map_values(|x: SarifRule| rule_view(x)) =~= before_rules.push(rv));
        }
        let ghost before_results = results@;
        assert(change.start_col < u32::MAX);
        let result = SarifResult {
            rule_id,
            level: level_of_risk(change.risk),
            message: SarifMessage { text: change.description.clone() },
            locations: one_location(slashed(&change.file), change.start_line, change.start_col + 1),
        };
        let ghost resv = result_view(result);
        results.push(result);
        i = i + 1;
        assert(resv == change_result(changes@[i - 1]));
        assert(results@.map_values(|x: SarifResult| result_view(x))
            =~= before_results.map_values(|x: SarifResult| result_view(x)).push(resv));
        assert(changes@.take(i as int).map_values(|c: SemanticChange| change_result(c))
            =~= changes@.take(i - 1).map_values(|c: SemanticChange| change_result(c)).push(change_result(changes@[i - 1])));
        assert(results@.map_values(|x: SarifResult| result_view(x))
            =~= changes@.take(i as int).map_values(|c: SemanticChange| change_result(c)));
    }
    assert(changes@.take(changes@.len() as int) =~= changes@);
    let ghost change_part = results@.map_values(|x: SarifResult| result_view(x));
    let mut j: usize = 0;
    while j < violations.len()
        invariant
            columns_fit(*report),
            violations == &report.invariant_violations,
            j <= violations@.len(),
            change_part == report.semantic_changes@.map_values(|c: SemanticChange| change_result(c)),
            results@.map_values(|x: SarifResult| result_view(x))
                == change_part + violations@.take(j as int).map_values(|v: InvariantViolation| violation_result(v)),
            forall|k: int| 0 <= k < results@.len() ==> (#[trigger] results@[k]).locations@.len() == 1,
        decreases violations.len() - j,
    {
        let v = &violations[j];
        assert(v.start_col < u32::MAX);
        let result = SarifResult {
            rule_id: "houndlens/invariant-violation".to_owned(),
            level: level_of_severity(v.severity),
            message: SarifMessage { text: v.description.clone() },
            locations: one_location(slashed(&v.file), v.start_line, v.start_col + 1),
        };
        let ghost resv = result_view(result);
        let ghost before_results = results@;
        results.push(result);
        j = j + 1;
        assert(resv == violation_result(violations@[j - 1]));
        assert(results@.map_values(|x: SarifResult| result_view(x))
            =~= before_results.map_values(|x: SarifResult| result_view(x)).push(resv));
        assert(violations@.take(j as int).map_values(|v: InvariantViolation| violation_result(v))
            =~= violations@.take(j - 1).map_values(|v: InvariantViolation| violation_result(v)).push(violation_result(violations@[j - 1])));
        assert(results@.map_values(|x: SarifResult| result_view(x))
            =~= change_part + violations@.take(j as int).map_values(|v: InvariantViolation| violation_result(v)));
    }
    assert(violations@.take(violations@.len() as int) =~= violations@);
    let inv_id = "houndlens/invariant-violation".to_owned();
    if !find_rule(&rules, &inv_id) {
        let ghost before_rules = rules@.map_values(|x: SarifRule| rule_view(x));
        let rule = SarifRule {
            id: inv_id,
            name: "InvariantViolation".to_owned(),
            short_description: SarifMessage { text: "Code change may violate a codebase invariant".to_owned() },
            default_configuration: SarifRuleConfig { level: "warning".to_owned() },
        };
        let ghost rv = rule_view(rule);
        rules.push(rule);
        assert(rules@.map_values(|x: SarifRule| rule_view(x)) =~= before_rules.push(rv));
    }
    let mut runs: Vec<SarifRun> = Vec::new();
    runs.push(SarifRun {
        tool: SarifTool {
            driver: SarifDriver {
                name: "houndlens".to_owned(),
                version: "0.1.0".to_owned(),
                information_uri: "https://github.com/injaehwang/houndlens".to_owned(),
                rules,
            },
        },
        results,
    });
    SarifOutput {
        schema: "https://json.schemastore.org/sarif-2.1.0.json".to_owned(),
        version: "2.1.0".to_owned(),
        runs,
    }
}

// ─── Laws ───────────────────────────────────────────────────────

/// Every change has one of the four risks, so the four counts add up to the
/// number of changes.
pub proof fn law_risk_counts_add_up(changes: Seq<SemanticChange>, n: int)
    requires
        0 <= n <= changes.len(),
    ensures
        count_risk(changes, ChangeRisk::Breaking, n) + count_risk(changes, ChangeRisk::SecuritySensitive, n)
            + count_risk(changes, ChangeRisk::NeedsReview, n) + count_risk(changes, ChangeRisk::Safe, n) == n,
    decreases n,
{
    if n > 0 {
        law_risk_counts_add_up(changes, n - 1);
    }
}

proof fn lemma_change_rules_grow(changes: Seq<SemanticChange>, n: int, id: Seq<char>)
    requires
        0 <= n,
        has_rule(change_rules(changes, n), id),
    ensures
        has_rule(change_rules(changes, n + 1), id),
{
    let prev = change_rules(changes, n);
    let k = choose|k: int| 0 <= k < prev.len() && (#[trigger] prev[k]).id == id;
    let next = change_rules(changes, n + 1);
    assert(next[k] == prev[k]);
}

proof fn lemma_change_rules_cover(changes: Seq<SemanticChange>, n: int, k: int)
    requires
        0 <= k < n,
    ensures
        has_rule(change_rules(changes, n), rule_id_of(changes[k].kind@)),
    decreases n,
{
    if k == n - 1 {
        let prev = change_rules(changes, n - 1);
        let r = change_rule(changes[n - 1]);
        if !has_rule(prev, r.id) {
            assert(prev.push(r)[prev.len() as int] == r);
        }
    } else {
        lemma_change_rules_cover(changes, n - 1, k);
        lemma_change_rules_grow(changes, n - 1, rule_id_of(changes[k].kind@));
    }
}

/// Every result of the SARIF log names a rule that the log defines.
pub proof fn law_sarif_results_have_rules(report: VerifyReport, i: int)
    requires
        0 <= i < sarif_results(report).len(),
    ensures
        has_rule(sarif_rules(report.semantic_changes@), sarif_results(report)[i].rule_id),
{
    let changes = report.semantic_changes@;
    let cr = change_rules(changes, changes.len() as int);
    let rules = sarif_rules(changes);
    let n = changes.len() as int;
    if i < n {
        assert(sarif_results(report)[i] == change_result(changes[i]));
        lemma_change_rules_cover(changes, n, i);
        if !has_rule(cr, invariant_rule().id) {
            let k = choose|k: int| 0 <= k < cr.len() && (#[trigger] cr[k]).id == rule_id_of(changes[i].kind@);
            assert(rules[k] == cr[k]);
        }
    } else {
        assert(sarif_results(report)[i] == violation_result(report.invariant_violations@[i - n]));
        if !has_rule(cr, invariant_rule().id) {
            assert(rules[cr.len() as int] == invariant_rule());
        }
    }
}

proof fn lemma_change_rules_distinct(changes: Seq<SemanticChange>, n: int)
    requires
        0 <= n,
    ensures
        forall|a: int, b: int| 0 <= a < b < change_rules(changes, n).len()
            ==> (#[trigger] change_rules(changes, n)[a]).id != (#[trigger] change_rules(changes, n)[b]).id,
    decreases n,
{
    if n > 0 {
        lemma_change_rules_distinct(changes, n - 1);
        let prev = change_rules(changes, n - 1);
        let r = change_rule(changes[n - 1]);
        let cur = change_rules(changes, n);
        if !has_rule(prev, r.id) {
            assert forall|a: int, b: int| 0 <= a < b < cur.len() implies (#[trigger] cur[a]).id != (#[trigger] cur[b]).id by {
                if b == prev.len() {
                    assert(cur[b] == r);
                    assert(cur[a] == prev[a]);
                    if prev[a].id == r.id {
                        assert(has_rule(prev, r.id));
                    }
                } else {
                    assert(cur[a] == prev[a] && cur[b] == prev[b]);
                }
            }
        }
    }
}

/// No two rules of the SARIF log share an id.
pub proof fn law_sarif_rule_ids_distinct(changes: Seq<SemanticChange>)
    ensures
        forall|a: int, b: int| 0 <= a < b < sarif_rules(changes).len()
            ==> (#[trigger] sarif_rules(changes)[a]).id != (#[trigger] sarif_rules(changes)[b]).id,
{
    lemma_change_rules_distinct(changes, changes.len() as int);
}

} // verus!
