//! Source checks for changed files: bracket balance, Python indentation, and
//! HTML/Vue tag and attribute shape.
use vstd::prelude::*;
use crate::text::{
    lemma_lines_avoid, trail_ws, lemma_first_occurrence_unique,
    contains_seq, copy_range, find_from, first_occurrence, lemma_first_occurrence_found, seq_contains,
    starts_with_at, push_chars, eq_chars, run_len, lemma_run_len_bounds, trim_bounds, trim_spec, utf8_len, utf8_len_of, is_alphabetic, is_alphabetic_spec,
    is_whitespace, is_whitespace_spec, lowercase_spec, to_lowercase, eq_lit, occurs_at, is_first_occurrence,
    chars_of, decimal, decode_lossy, utf8_lossy_spec, lead_ws, lemma_lines_len, line_ranges, lines_spec, push_decimal, push_lit, range_has, ranges_match,
    skip_ws, string_of,
};

verus! {

/// A problem found in a file.
#[derive(Debug)]
pub struct SyntaxError {
    pub file: String,
    pub line: u32,
    pub col: u32,
    pub message: String,
    pub severity: SyntaxSeverity,
}

#[derive(Debug, Clone, Copy, PartialEq, Eq, Structural)]
pub enum SyntaxSeverity {
    Error,
    Warning,
}

pub struct SpecSyntaxError {
    pub file: Seq<char>,
    pub line: u32,
    pub col: u32,
    pub message: Seq<char>,
    pub severity: SyntaxSeverity,
}

impl View for SyntaxError {
    type V = SpecSyntaxError;

    open spec fn view(&self) -> SpecSyntaxError {
        SpecSyntaxError {
            file: self.file@,
            line: self.line,
            col: self.col,
            message: self.message@,
            severity: self.severity,
        }
    }
}

pub open spec fn errors_view(v: Seq<SyntaxError>) -> Seq<SpecSyntaxError> {
    v.map_values(|e: SyntaxError| e@)
}

pub open spec fn an_error(file: Seq<char>, line: u32, col: u32, message: Seq<char>) -> SpecSyntaxError {
    SpecSyntaxError { file, line, col, message, severity: SyntaxSeverity::Error }
}

fn push_error(errors: &mut Vec<SyntaxError>, file: &str, line: u32, col: u32, message: String, severity: SyntaxSeverity)
    ensures
        errors_view(final(errors)@) == errors_view(old(errors)@).push(
            SpecSyntaxError { file: file@, line, col, message: message@, severity },
        ),
{
    let e = SyntaxError { file: file.to_owned(), line, col, message, severity };
    let ghost ev = e@;
    errors.push(e);
    assert(errors_view(errors@) =~= errors_view(old(errors)@).push(ev));
}

// ─── Bracket balance ────────────────────────────────────────────

pub open spec fn msg_mismatch(ch: char, line: u32, open: char, open_line: u32, open_col: u32) -> Seq<char> {
    "Mismatched bracket: '"@ + seq![ch] + "' at line "@ + decimal(line as nat) + " closes '"@ + seq![open]
        + "' from line "@ + decimal(open_line as nat) + ":"@ + decimal(open_col as nat)
}

pub open spec fn msg_unexpected(ch: char) -> Seq<char> {
    "Unexpected closing '"@ + seq![ch] + "' with no matching opener"@
}

pub open spec fn msg_unclosed(ch: char, line: u32, col: u32) -> Seq<char> {
    "Unclosed '"@ + seq![ch] + "' at line "@ + decimal(line as nat) + ":"@ + decimal(col as nat)
}

/// The state of the bracket scan between two characters.
pub struct BracketScan {
    /// Open brackets, innermost last, with the line and column where each opened.
    pub stack: Seq<(char, u32, u32)>,
    pub in_string: bool,
    pub string_char: char,
    pub escaped: bool,
    pub line: u32,
    pub col: u32,
    pub in_comment: bool,
    pub in_line_comment: bool,
    /// Problems found so far.
    pub found: Seq<SpecSyntaxError>,
}

pub open spec fn opener_of(ch: char) -> char {
    if ch == ')' { '(' } else if ch == ']' { '[' } else { '{' }
}

/// One step of the scan at `t[i]`: the next state and where the scan goes on.
/// `//` and `#` start a comment to the end of the line, `/* ... */` a block comment;
/// quotes (`"`, `'`, backquote) open a string closed by the same quote, in which
/// `\` escapes the next character; outside strings and comments each closing
/// bracket is checked against the innermost open one.
pub open spec fn bracket_step(file: Seq<char>, t: Seq<char>, i: int, s: BracketScan) -> (BracketScan, int) {
    let ch = t[i];
    let col = (s.col + 1) as u32;
    if ch == '\n' {
        (BracketScan { line: (s.line + 1) as u32, col: 0, in_line_comment: false, ..s }, i + 1)
    } else if s.in_line_comment {
        (BracketScan { col, ..s }, i + 1)
    } else if s.in_comment {
        if ch == '*' && i + 1 < t.len() && t[i + 1] == '/' {
            (BracketScan { col, in_comment: false, ..s }, i + 2)
        } else {
            (BracketScan { col, ..s }, i + 1)
        }
    } else if !s.in_string && ch == '/' && i + 1 < t.len() && t[i + 1] == '/' {
        (BracketScan { col, in_line_comment: true, ..s }, i + 2)
    } else if !s.in_string && ch == '/' && i + 1 < t.len() && t[i + 1] == '*' {
        (BracketScan { col, in_comment: true, ..s }, i + 2)
    } else if !s.in_string && ch == '#' {
        (BracketScan { col, in_line_comment: true, ..s }, i + 1)
    } else if s.escaped {
        (BracketScan { col, escaped: false, ..s }, i + 1)
    } else if ch == '\\' && s.in_string {
        (BracketScan { col, escaped: true, ..s }, i + 1)
    } else if (ch == '"' || ch == '\'' || ch == '`') && !s.in_string {
        (BracketScan { col, in_string: true, string_char: ch, ..s }, i + 1)
    } else if s.in_string && ch == s.string_char {
        (BracketScan { col, in_string: false, ..s }, i + 1)
    } else if s.in_string {
        (BracketScan { col, ..s }, i + 1)
    } else if ch == '(' || ch == '[' || ch == '{' {
        (BracketScan { col, stack: s.stack.push((ch, s.line, col)), ..s }, i + 1)
    } else if ch == ')' || ch == ']' || ch == '}' {
        if s.stack.len() == 0 {
            (BracketScan { col, found: s.found.push(an_error(file, s.line, col, msg_unexpected(ch))), ..s }, i + 1)
        } else {
            let top = s.stack.last();
            if top.0 == opener_of(ch) {
                (BracketScan { col, stack: s.stack.drop_last(), ..s }, i + 1)
            } else {
                (BracketScan {
                    col,
                    stack: s.stack.drop_last(),
                    found: s.found.push(an_error(file, s.line, col, msg_mismatch(ch, s.line, top.0, top.1, top.2))),
                    ..s
                }, i + 1)
            }
        }
    } else {
        (BracketScan { col, ..s }, i + 1)
    }
}

/// The scan from `t[i]` to the end.
pub open spec fn bracket_run(file: Seq<char>, t: Seq<char>, i: int, s: BracketScan) -> BracketScan
    decreases t.len() - i,
{
    if i < 0 || i >= t.len() {
        s
    } else {
        let (s2, j) = bracket_step(file, t, i, s);
        bracket_run(file, t, j, s2)
    }
}

pub open spec fn bracket_start() -> BracketScan {
    BracketScan {
        stack: seq![],
        in_string: false,
        string_char: '"',
        escaped: false,
        line: 1,
        col: 0,
        in_comment: false,
        in_line_comment: false,
        found: seq![],
    }
}

pub open spec fn unclosed_errors(file: Seq<char>, stack: Seq<(char, u32, u32)>) -> Seq<SpecSyntaxError> {
    stack.map_values(|e: (char, u32, u32)| an_error(file, e.1, e.2, msg_unclosed(e.0, e.1, e.2)))
}

/// The problems the bracket scan finds in `t`: those found along the way, then one
/// for each bracket still open at the end, outermost first.
pub open spec fn bracket_errors(file: Seq<char>, t: Seq<char>) -> Seq<SpecSyntaxError> {
    let s = bracket_run(file, t, 0, bracket_start());
    s.found + unclosed_errors(file, s.stack)
}

/// A character that brackets or quotes.
pub open spec fn is_bracket_or_quote(c: char) -> bool {
    c == '(' || c == ')' || c == '[' || c == ']' || c == '{' || c == '}' || c == '"' || c == '\'' || c == '`'
}

spec fn calm(s: BracketScan) -> bool {
    s.stack.len() == 0 && s.found.len() == 0 && !s.in_string && !s.escaped
}

proof fn lemma_calm_run(file: Seq<char>, t: Seq<char>, i: int, s: BracketScan)
    requires
        calm(s),
        forall|k: int| 0 <= k < t.len() ==> !is_bracket_or_quote(#[trigger] t[k]),
    ensures
        calm(bracket_run(file, t, i, s)),
    decreases t.len() - i,
{
    if 0 <= i < t.len() {
        assert(!is_bracket_or_quote(t[i]));
        let (s2, j) = bracket_step(file, t, i, s);
        assert(j > i);
        lemma_calm_run(file, t, j, s2);
    }
}

/// Text with no bracket and no quote character gets no bracket errors.
pub proof fn law_no_brackets_no_errors(file: Seq<char>, t: Seq<char>)
    requires
        forall|k: int| 0 <= k < t.len() ==> !is_bracket_or_quote(#[trigger] t[k]),
    ensures
        bracket_errors(file, t) == Seq::<SpecSyntaxError>::empty(),
{
    lemma_calm_run(file, t, 0, bracket_start());
    let s = bracket_run(file, t, 0, bracket_start());
    assert(s.found + unclosed_errors(file, s.stack) =~= Seq::<SpecSyntaxError>::empty());
}

/// Brackets read as a stack machine, everything else skipped: the open brackets
/// left at the end, or `None` when a closing bracket does not close the innermost
/// open one.
pub open spec fn nest(s: Seq<char>, open: Seq<char>) -> Option<Seq<char>>
    decreases s.len(),
{
    if s.len() == 0 {
        Some(open)
    } else {
        let c = s[0];
        if c == '(' || c == '[' || c == '{' {
            nest(s.drop_first(), open.push(c))
        } else if c == ')' || c == ']' || c == '}' {
            if open.len() > 0 && open.last() == opener_of(c) {
                nest(s.drop_first(), open.drop_last())
            } else {
                None
            }
        } else {
            nest(s.drop_first(), open)
        }
    }
}

/// The brackets of `s` are properly nested: each closes the innermost open one,
/// and none is left open.
pub open spec fn well_nested(s: Seq<char>) -> bool {
    nest(s, Seq::empty()) == Some(Seq::<char>::empty())
}

/// A character that starts a string or a comment.
pub open spec fn quote_or_comment(c: char) -> bool {
    c == '"' || c == '\'' || c == '`' || c == '#' || c == '/'
}

spec fn open_chars(stack: Seq<(char, u32, u32)>) -> Seq<char> {
    stack.map_values(|e: (char, u32, u32)| e.0)
}

spec fn plain_state(s: BracketScan) -> bool {
    !s.in_string && !s.escaped && !s.in_comment && !s.in_line_comment
}

proof fn lemma_run_is_nest(file: Seq<char>, t: Seq<char>, i: int, s: BracketScan)
    requires
        0 <= i <= t.len(),
        plain_state(s),
        forall|k: int| 0 <= k < t.len() ==> !quote_or_comment(#[trigger] t[k]),
    ensures
        bracket_run(file, t, i, s).found.len() >= s.found.len(),
        (bracket_run(file, t, i, s).found.len() == s.found.len()) == (nest(t.subrange(i, t.len() as int), open_chars(s.stack)) is Some),
        nest(t.subrange(i, t.len() as int), open_chars(s.stack)) matches Some(o) ==> open_chars(bracket_run(file, t, i, s).stack) == o,
    decreases t.len() - i,
{
    let rest = t.subrange(i, t.len() as int);
    if i < t.len() {
        let ch = t[i];
        assert(!quote_or_comment(ch));
        let (s2, j) = bracket_step(file, t, i, s);
        assert(j == i + 1);
        assert(plain_state(s2));
        lemma_run_is_nest(file, t, j, s2);
        assert(rest[0] == ch);
        assert(rest.drop_first() =~= t.subrange(j, t.len() as int));
        let st = open_chars(s.stack);
        if ch == '(' || ch == '[' || ch == '{' {
            assert(open_chars(s2.stack) =~= st.push(ch));
        } else if ch == ')' || ch == ']' || ch == '}' {
            if s.stack.len() > 0 {
                assert(st.last() == s.stack.last().0);
                assert(open_chars(s2.stack) =~= st.drop_last());
            }
        } else {
            assert(open_chars(s2.stack) == st);
        }
    } else {
        assert(rest.len() == 0);
    }
}

/// On text without quotes or comment starters, the bracket check finds nothing
/// exactly when the brackets are properly nested.
pub proof fn law_no_errors_iff_well_nested(file: Seq<char>, t: Seq<char>)
    requires
        forall|k: int| 0 <= k < t.len() ==> !quote_or_comment(#[trigger] t[k]),
    ensures
        (bracket_errors(file, t).len() == 0) == well_nested(t),
{
    let s0 = bracket_start();
    lemma_run_is_nest(file, t, 0, s0);
    assert(t.subrange(0, t.len() as int) =~= t);
    assert(open_chars(s0.stack) =~= Seq::<char>::empty());
    let r = bracket_run(file, t, 0, s0);
    assert(bracket_errors(file, t).len() == r.found.len() + r.stack.len());
    assert(open_chars(r.stack).len() == r.stack.len());
    match nest(t, Seq::empty()) {
        Some(o) => {
            if o.len() == 0 {
                assert(o =~= Seq::<char>::empty());
            }
        },
        None => {},
    }
}

pub open spec fn is_bracket(c: char) -> bool {
    c == '(' || c == ')' || c == '[' || c == ']' || c == '{' || c == '}'
}

/// Number of bracket characters in `s`.
pub open spec fn bracket_count(s: Seq<char>) -> nat
    decreases s.len(),
{
    if s.len() == 0 {
        0
    } else {
        bracket_count(s.drop_last()) + if is_bracket(s.last()) { 1nat } else { 0nat }
    }
}

proof fn lemma_bracket_count_step(t: Seq<char>, i: int)
    requires
        0 <= i < t.len(),
    ensures
        bracket_count(t.take(i + 1)) == bracket_count(t.take(i)) + if is_bracket(t[i]) { 1nat } else { 0nat },
{
    assert(t.take(i + 1).drop_last() =~= t.take(i));
}

/// An error of `file`, of severity `Error`, at a line and a column counted from 1.
pub open spec fn well_placed(file: Seq<char>, e: SpecSyntaxError) -> bool {
    e.file == file && e.severity is Error && e.line >= 1 && e.col >= 1
}

spec fn scan_sound(file: Seq<char>, t: Seq<char>, i: int, s: BracketScan) -> bool {
    &&& 1 <= s.line <= i + 1
    &&& s.col <= i
    &&& forall|k: int| 0 <= k < s.found.len() ==> well_placed(file, #[trigger] s.found[k])
    &&& forall|k: int| 0 <= k < s.stack.len() ==> (#[trigger] s.stack[k]).1 >= 1 && s.stack[k].2 >= 1
    &&& s.found.len() + s.stack.len() <= bracket_count(t.take(i))
}

proof fn lemma_scan_sound(file: Seq<char>, t: Seq<char>, i: int, s: BracketScan)
    requires
        0 <= i <= t.len(),
        t.len() < u32::MAX,
        scan_sound(file, t, i, s),
    ensures
        scan_sound(file, t, t.len() as int, bracket_run(file, t, i, s)),
    decreases t.len() - i,
{
    if i < t.len() {
        let (s2, j) = bracket_step(file, t, i, s);
        lemma_bracket_count_step(t, i);
        if j == i + 2 {
            lemma_bracket_count_step(t, i + 1);
        }
        assert(s2.found.len() + s2.stack.len() <= bracket_count(t.take(i)) + if is_bracket(t[i]) { 1nat } else { 0nat });
        assert forall|k: int| 0 <= k < s2.found.len() implies well_placed(file, #[trigger] s2.found[k]) by {
            if k < s.found.len() {
                assert(s2.found[k] == s.found[k]);
            }
        }
        assert forall|k: int| 0 <= k < s2.stack.len() implies (#[trigger] s2.stack[k]).1 >= 1 && s2.stack[k].2 >= 1 by {
            if k < s.stack.len() {
                assert(s2.stack[k] == s.stack[k]);
            }
        }
        assert(scan_sound(file, t, j, s2));
        lemma_scan_sound(file, t, j, s2);
    } else {
        assert(t.take(i) =~= t.take(t.len() as int));
    }
}

/// Every problem the bracket check reports is an error of the checked file at a
/// line and column counted from 1, and there are no more of them than bracket
/// characters in the text.
pub proof fn law_bracket_errors_well_placed(file: Seq<char>, t: Seq<char>)
    requires
        t.len() < u32::MAX,
    ensures
        forall|k: int| 0 <= k < bracket_errors(file, t).len() ==> well_placed(file, #[trigger] bracket_errors(file, t)[k]),
        bracket_errors(file, t).len() <= bracket_count(t),
{
    let s0 = bracket_start();
    assert(t.take(0) =~= Seq::<char>::empty());
    assert(scan_sound(file, t, 0, s0));
    lemma_scan_sound(file, t, 0, s0);
    let r = bracket_run(file, t, 0, s0);
    assert(t.take(t.len() as int) =~= t);
    let e = bracket_errors(file, t);
    assert forall|k: int| 0 <= k < e.len() implies well_placed(file, #[trigger] e[k]) by {
        if k < r.found.len() {
            assert(e[k] == r.found[k]);
        } else {
            assert(e[k] == unclosed_errors(file, r.stack)[k - r.found.len()]);
            assert(r.stack[k - r.found.len()].1 >= 1);
        }
    }
}

pub open spec fn is_quote(c: char) -> bool {
    c == '"' || c == '\'' || c == '`'
}

/// The body of a string closed by `q`: no `q`, no backslash, no line break.
pub open spec fn plain_string_body(body: Seq<char>, q: char) -> bool {
    forall|k: int| 0 <= k < body.len() ==> #[trigger] body[k] != q && body[k] != '\\' && body[k] != '\n'
}

/// The scan between two characters outside strings, comments and escapes.
pub open spec fn in_code(s: BracketScan) -> bool {
    !s.in_string && !s.escaped && !s.in_comment && !s.in_line_comment
}

proof fn lemma_inside_string(file: Seq<char>, t: Seq<char>, i: int, m: int, j: int, st: BracketScan, q: char)
    requires
        0 <= i,
        i + 1 <= j <= i + 1 + m,
        i + m + 2 <= t.len(),
        is_quote(q),
        t[i + 1 + m] == q,
        plain_string_body(t.subrange(i + 1, i + 1 + m), q),
        st.in_string && st.string_char == q && !st.escaped && !st.in_comment && !st.in_line_comment,
        st.col + (i + 1 + m - j) + 1 <= u32::MAX,
    ensures
        bracket_run(file, t, j, st) == bracket_run(file, t, i + m + 2, BracketScan {
            col: (st.col + (i + 1 + m - j) + 1) as u32,
            in_string: false,
            ..st
        }),
    decreases i + 1 + m - j,
{
    let (s2, j2) = bracket_step(file, t, j, st);
    if j < i + 1 + m {
        assert(t.subrange(i + 1, i + 1 + m)[j - (i + 1)] == t[j]);
        assert(t[j] != q && t[j] != '\\' && t[j] != '\n');
        assert(j2 == j + 1);
        assert(s2 == BracketScan { col: (st.col + 1) as u32, ..st });
        lemma_inside_string(file, t, i, m, j + 1, s2, q);
    } else {
        assert(t[j] == q);
        assert(j2 == j + 1);
        assert(s2 == BracketScan { col: (st.col + 1) as u32, in_string: false, ..st });
    }
}

/// A string is closed only by the quote that opened it: from code, a string
/// `q body q` whose body holds no `q`, no backslash and no line break (other quote
/// kinds included) is passed over whole: the scan goes on after it in the state it
/// had before, only the column moved past it.
pub proof fn law_string_skipped_whole(file: Seq<char>, t: Seq<char>, i: int, m: int, st: BracketScan)
    requires
        0 <= i,
        0 <= m,
        i + m + 2 <= t.len(),
        is_quote(t[i]),
        t[i + m + 1] == t[i],
        plain_string_body(t.subrange(i + 1, i + 1 + m), t[i]),
        in_code(st),
        st.col + m + 2 <= u32::MAX,
    ensures
        bracket_run(file, t, i, st) == bracket_run(file, t, i + m + 2, BracketScan {
            col: (st.col + m + 2) as u32,
            string_char: t[i],
            ..st
        }),
{
    let q = t[i];
    let (s1, j1) = bracket_step(file, t, i, st);
    assert(j1 == i + 1);
    assert(s1 == BracketScan { col: (st.col + 1) as u32, in_string: true, string_char: q, ..st });
    lemma_inside_string(file, t, i, m, i + 1, s1, q);
}

/// Brackets around a string: `( q body q )` has no bracket errors whatever quote
/// kinds the body holds besides `q` (no backslash, no line break).
pub proof fn law_string_in_brackets_balanced(file: Seq<char>, q: char, body: Seq<char>)
    requires
        is_quote(q),
        plain_string_body(body, q),
        body.len() + 4 < u32::MAX,
    ensures
        bracket_errors(file, seq!['('] + seq![q] + body + seq![q, ')']) == Seq::<SpecSyntaxError>::empty(),
{
    let t = seq!['('] + seq![q] + body + seq![q, ')'];
    let m = body.len() as int;
    let s0 = bracket_start();
    assert(t[0] == '(');
    assert(t[1] == q);
    assert(t[m + 2] == q);
    assert(t[m + 3] == ')');
    assert(t.subrange(2, 2 + m) =~= body);
    let (s1, j1) = bracket_step(file, t, 0, s0);
    assert(j1 == 1);
    assert(in_code(s1));
    assert(s1.stack == seq![('(', 1u32, 1u32)]);
    law_string_skipped_whole(file, t, 1, m, s1);
    let s2 = BracketScan { col: (s1.col + m + 2) as u32, string_char: q, ..s1 };
    let (s3, j3) = bracket_step(file, t, m + 3, s2);
    assert(j3 == m + 4);
    assert(s3.stack.len() == 0 && s3.found.len() == 0);
    assert(bracket_run(file, t, m + 4, s3) == s3);
    assert(bracket_errors(file, t) =~= Seq::<SpecSyntaxError>::empty());
}

fn mismatch_message(ch: char, line: u32, open: char, open_line: u32, open_col: u32) -> (m: String)
    ensures
        m@ == msg_mismatch(ch, line, open, open_line, open_col),
{
    let mut v: Vec<char> = Vec::new();
    push_lit(&mut v, "Mismatched bracket: '");
    v.push(ch);
    push_lit(&mut v, "' at line ");
    push_decimal(&mut v, line as u64);
    push_lit(&mut v, " closes '");
    v.push(open);
    push_lit(&mut v, "' from line ");
    push_decimal(&mut v, open_line as u64);
    push_lit(&mut v, ":");
    push_decimal(&mut v, open_col as u64);
    let ghost m = msg_mismatch(ch, line, open, open_line, open_col);
    assert(v@ =~= m);
    string_of(v.as_slice())
}

fn unexpected_message(ch: char) -> (m: String)
    ensures
        m@ == msg_unexpected(ch),
{
    let mut v: Vec<char> = Vec::new();
    push_lit(&mut v, "Unexpected closing '");
    v.push(ch);
    push_lit(&mut v, "' with no matching opener");
    assert(v@ =~= msg_unexpected(ch));
    string_of(v.as_slice())
}

fn unclosed_message(ch: char, line: u32, col: u32) -> (m: String)
    ensures
        m@ == msg_unclosed(ch, line, col),
{
    let mut v: Vec<char> = Vec::new();
    push_lit(&mut v, "Unclosed '");
    v.push(ch);
    push_lit(&mut v, "' at line ");
    push_decimal(&mut v, line as u64);
    push_lit(&mut v, ":");
    push_decimal(&mut v, col as u64);
    assert(v@ =~= msg_unclosed(ch, line, col));
    string_of(v.as_slice())
}

fn scan_brackets(file: &str, text: &str, errors: &mut Vec<SyntaxError>)
    requires
        text@.len() < u32::MAX,
    ensures
        errors_view(final(errors)@) == errors_view(old(errors)@) + bracket_errors(file@, text@),
{
    let chars = chars_of(text);
    let ghost t = chars@;
    let mut stack: Vec<(char, u32, u32)> = Vec::new();
    let mut in_string = false;
    let mut string_char: char = '"';
    let mut escaped = false;
    let mut line: u32 = 1;
    let mut col: u32 = 0;
    let mut in_comment = false;
    let mut in_line_comment = false;
    let ghost mut found: Seq<SpecSyntaxError> = seq![];
    let mut i: usize = 0;
    proof {
        assert(errors_view(errors@) =~= errors_view(old(errors)@) + found);
    }
    while i < chars.len()
        invariant
            t == chars@,
            t == text@,
            t.len() < u32::MAX,
            i <= t.len(),
            line <= i + 1,
            col <= i,
            errors_view(errors@) == errors_view(old(errors)@) + found,
            bracket_run(file@, t, 0, bracket_start()) == bracket_run(file@, t, i as int, BracketScan {
                stack: stack@, in_string, string_char, escaped, line, col, in_comment, in_line_comment, found,
            }),
        decreases chars.len() - i,
    {
        let ghost s0 = BracketScan {
            stack: stack@, in_string, string_char, escaped, line, col, in_comment, in_line_comment, found,
        };
        let ghost i0 = i as int;
        let ch = chars[i];
        col = col + 1;
        if ch == '\n' {
            line = line + 1;
            col = 0;
            in_line_comment = false;
            i = i + 1;
        } else if in_line_comment {
            i = i + 1;
        } else if in_comment {
            if ch == '*' && i + 1 < chars.len() && chars[i + 1] == '/' {
                in_comment = false;
                i = i + 2;
            } else {
                i = i + 1;
            }
        } else if !in_string && ch == '/' && i + 1 < chars.len() && chars[i + 1] == '/' {
            in_line_comment = true;
            i = i + 2;
        } else if !in_string && ch == '/' && i + 1 < chars.len() && chars[i + 1] == '*' {
            in_comment = true;
            i = i + 2;
        } else if !in_string && ch == '#' {
            in_line_comment = true;
            i = i + 1;
        } else if escaped {
            escaped = false;
            i = i + 1;
        } else if ch == '\\' && in_string {
            escaped = true;
            i = i + 1;
        } else if (ch == '"' || ch == '\'' || ch == '`') && !in_string {
            in_string = true;
            string_char = ch;
            i = i + 1;
        } else if in_string && ch == string_char {
            in_string = false;
            i = i + 1;
        } else if in_string {
            i = i + 1;
        } else if ch == '(' || ch == '[' || ch == '{' {
            stack.push((ch, line, col));
            i = i + 1;
        } else if ch == ')' || ch == ']' || ch == '}' {
            let expected = if ch == ')' { '(' } else if ch == ']' { '[' } else { '{' };
            match stack.pop() {
                Some((open, open_line, open_col)) => {
                    if open != expected {
                        let m = mismatch_message(ch, line, open, open_line, open_col);
                        let ghost mv = m@;
                        push_error(errors, file, line, col, m, SyntaxSeverity::Error);
                        proof {
                            found = found.push(an_error(file@, line, col, mv));
                            assert(errors_view(errors@) =~= errors_view(old(errors)@) + found);
                        }
                    }
                },
                None => {
                    let m = unexpected_message(ch);
                    let ghost mv = m@;
                    push_error(errors, file, line, col, m, SyntaxSeverity::Error);
                    proof {
                        found = found.push(an_error(file@, line, col, mv));
                        assert(errors_view(errors@) =~= errors_view(old(errors)@) + found);
                    }
                },
            }
            i = i + 1;
        } else {
            i = i + 1;
        }
        proof {
            let s1 = BracketScan {
                stack: stack@, in_string, string_char, escaped, line, col, in_comment, in_line_comment, found,
            };
            let (sx, jx) = bracket_step(file@, t, i0, s0);
            assert(sx.stack =~= s1.stack);
            assert(sx.found =~= s1.found);
            assert(sx == s1);
            assert(jx == i);
        }
    }
    let mut k: usize = 0;
    let ghost fin = BracketScan {
        stack: stack@, in_string, string_char, escaped, line, col, in_comment, in_line_comment, found,
    };
    proof {
        assert(bracket_run(file@, t, i as int, fin) == fin);
        assert(errors_view(errors@) =~= errors_view(old(errors)@) + found + unclosed_errors(file@, stack@).take(0));
    }
    while k < stack.len()
        invariant
            k <= stack@.len(),
            stack@ == fin.stack,
            found == fin.found,
            bracket_errors(file@, text@) == fin.found + unclosed_errors(file@, fin.stack),
            errors_view(errors@) == errors_view(old(errors)@) + found + unclosed_errors(file@, stack@).take(k as int),
        decreases stack.len() - k,
    {
        let (ch, open_line, open_col) = stack[k];
        let m = unclosed_message(ch, open_line, open_col);
        push_error(errors, file, open_line, open_col, m, SyntaxSeverity::Error);
        k = k + 1;
        assert(unclosed_errors(file@, stack@).take(k as int) =~= unclosed_errors(file@, stack@).take(k - 1).push(
            an_error(file@, open_line, open_col, msg_unclosed(ch, open_line, open_col))));
        assert(errors_view(errors@) =~= errors_view(old(errors)@) + found + unclosed_errors(file@, stack@).take(k as int));
    }
    assert(unclosed_errors(file@, stack@).take(k as int) =~= unclosed_errors(file@, stack@));
}

/// Checks that brackets, parentheses and braces outside strings and comments are
/// balanced, and appends what it finds to `errors`.
pub fn check_bracket_balance(file: &str, text: &str, errors: &mut Vec<SyntaxError>)
    requires
        text@.len() < u32::MAX,
    ensures
        errors_view(final(errors)@) == errors_view(old(errors)@) + bracket_errors(file@, text@),
        final(errors)@.len() <= old(errors)@.len() + bracket_count(text@),
        forall|k: int| old(errors)@.len() <= k < final(errors)@.len() ==> well_placed(file@, #[trigger] final(errors)@[k]@),
        (forall|k: int| 0 <= k < text@.len() ==> !quote_or_comment(#[trigger] text@[k]))
            ==> ((final(errors)@.len() == old(errors)@.len()) == well_nested(text@)),
{
    scan_brackets(file, text, errors);
    proof {
        let n = old(errors)@.len();
        let e = bracket_errors(file@, text@);
        law_bracket_errors_well_placed(file@, text@);
        assert(errors_view(errors@).len() == errors@.len());
        assert forall|k: int| n <= k < errors@.len() implies well_placed(file@, #[trigger] errors@[k]@) by {
            assert(errors_view(errors@)[k] == errors@[k]@);
            assert(errors_view(errors@)[k] == e[k - n]);
        }
        if forall|k: int| 0 <= k < text@.len() ==> !quote_or_comment(#[trigger] text@[k]) {
            law_no_errors_iff_well_nested(file@, text@);
        }
    }
}


// ─── Python indentation ─────────────────────────────────────────

/// The line is empty or white space only.
pub open spec fn is_blank(l: Seq<char>) -> bool {
    lead_ws(l) == l.len()
}

/// The white space that starts the line.
pub open spec fn indent_of(l: Seq<char>) -> Seq<char> {
    l.take(lead_ws(l) as int)
}

pub open spec fn mixed_indent(l: Seq<char>) -> bool {
    !is_blank(l) && indent_of(l).contains('\t') && indent_of(l).contains(' ')
}

pub open spec fn tab_indent(l: Seq<char>) -> bool {
    !is_blank(l) && indent_of(l).contains('\t')
}

pub open spec fn space_indent(l: Seq<char>) -> bool {
    !is_blank(l) && indent_of(l).contains(' ') && !indent_of(l).contains('\t')
}

/// One error for each of the first `n` lines whose indentation mixes tabs and
/// spaces, numbered from 1.
pub open spec fn mixed_indent_errors(file: Seq<char>, ls: Seq<Seq<char>>, n: int) -> Seq<SpecSyntaxError>
    decreases n,
{
    if n <= 0 {
        seq![]
    } else {
        mixed_indent_errors(file, ls, n - 1) + if mixed_indent(ls[n - 1]) {
            seq![an_error(file, n as u32, 1, "Mixed tabs and spaces in indentation"@)]
        } else {
            seq![]
        }
    }
}

/// What the indentation check finds: the lines that mix tabs and spaces, then a
/// warning when some lines indent with tabs and others with spaces only.
pub open spec fn python_errors(file: Seq<char>, t: Seq<char>) -> Seq<SpecSyntaxError> {
    let ls = lines_spec(t);
    mixed_indent_errors(file, ls, ls.len() as int) + if (exists|k: int| 0 <= k < ls.len() && tab_indent(#[trigger] ls[k]))
        && (exists|k: int| 0 <= k < ls.len() && space_indent(#[trigger] ls[k])) {
        seq![SpecSyntaxError {
            file,
            line: 0,
            col: 0,
            message: "File mixes tab and space indentation"@,
            severity: SyntaxSeverity::Warning,
        }]
    } else {
        seq![]
    }
}

proof fn lemma_no_mixed_lines(file: Seq<char>, ls: Seq<Seq<char>>, n: int)
    requires
        0 <= n <= ls.len(),
        forall|k: int| 0 <= k < n ==> !mixed_indent(#[trigger] ls[k]),
    ensures
        mixed_indent_errors(file, ls, n) == Seq::<SpecSyntaxError>::empty(),
    decreases n,
{
    if n > 0 {
        lemma_no_mixed_lines(file, ls, n - 1);
        assert(!mixed_indent(ls[n - 1]));
        assert(Seq::<SpecSyntaxError>::empty() + Seq::<SpecSyntaxError>::empty() =~= Seq::<SpecSyntaxError>::empty());
    }
}

/// A file without tab characters has no indentation problems.
pub proof fn law_no_tabs_no_indentation_errors(file: Seq<char>, t: Seq<char>)
    requires
        !t.contains('\t'),
    ensures
        python_errors(file, t) == Seq::<SpecSyntaxError>::empty(),
{
    let ls = lines_spec(t);
    lemma_lines_avoid(t, '\t');
    assert forall|k: int| 0 <= k < ls.len() implies !(#[trigger] indent_of(ls[k])).contains('\t') by {
        let l = ls[k];
        assert(!l.contains('\t'));
        if indent_of(l).contains('\t') {
            let j = choose|j: int| 0 <= j < indent_of(l).len() && indent_of(l)[j] == '\t';
            lemma_run_len_bounds(l, |c: char| is_whitespace_spec(c));
            assert(l[j] == '\t');
        }
    }
    assert forall|k: int| 0 <= k < ls.len() implies !mixed_indent(#[trigger] ls[k]) && !tab_indent(ls[k]) by {
        assert(!indent_of(ls[k]).contains('\t'));
    }
    lemma_no_mixed_lines(file, ls, ls.len() as int);
    assert(Seq::<SpecSyntaxError>::empty() + Seq::<SpecSyntaxError>::empty() =~= Seq::<SpecSyntaxError>::empty());
}

/// Checks that Python indentation does not mix tabs and spaces, and appends what
/// it finds to `errors`.
pub fn check_python_indentation(file: &str, text: &str, errors: &mut Vec<SyntaxError>)
    requires
        text@.len() < u32::MAX,
    ensures
        errors_view(final(errors)@) == errors_view(old(errors)@) + python_errors(file@, text@),
{
    let chars = chars_of(text);
    let ranges = line_ranges(chars.as_slice());
    let ghost ls = lines_spec(text@);
    let mut uses_tabs = false;
    let mut uses_spaces = false;
    let mut k: usize = 0;
    proof {
        assert(errors_view(errors@) =~= errors_view(old(errors)@) + mixed_indent_errors(file@, ls, 0));
    }
    while k < ranges.len()
        invariant
            chars@ == text@,
            ls == lines_spec(text@),
            text@.len() < u32::MAX,
            ranges_match(chars@, ranges@, ls),
            k <= ranges@.len(),
            uses_tabs == exists|j: int| 0 <= j < k && tab_indent(#[trigger] ls[j]),
            uses_spaces == exists|j: int| 0 <= j < k && space_indent(#[trigger] ls[j]),
            errors_view(errors@) == errors_view(old(errors)@) + mixed_indent_errors(file@, ls, k as int),
        decreases ranges.len() - k,
    {
        let (a, b) = ranges[k];
        let ghost l = ls[k as int];
        assert(chars@.subrange(a as int, b as int) == l);
        let e = skip_ws(chars.as_slice(), a, b);
        assert(indent_of(l) =~= chars@.subrange(a as int, e as int));
        if e == b {
            // Blank line.
            k = k + 1;
            continue;
        }
        let has_tab = range_has(chars.as_slice(), a, e, '\t');
        let has_space = range_has(chars.as_slice(), a, e, ' ');
        if has_tab {
            uses_tabs = true;
        }
        if has_space && !has_tab {
            uses_spaces = true;
        }
        let ghost before = errors_view(errors@);
        if has_tab && has_space {
            proof {
                lemma_lines_len(text@);
            }
            push_error(errors, file, (k + 1) as u32, 1, "Mixed tabs and spaces in indentation".to_owned(),
                SyntaxSeverity::Error);
        }
        k = k + 1;
        assert(errors_view(errors@) =~= errors_view(old(errors)@) + mixed_indent_errors(file@, ls, k as int));
    }
    if uses_tabs && uses_spaces {
        push_error(errors, file, 0, 0, "File mixes tab and space indentation".to_owned(), SyntaxSeverity::Warning);
    }
    proof {
        assert(errors_view(errors@) =~= errors_view(old(errors)@) + python_errors(file@, text@));
    }
}

// ─── HTML attributes ────────────────────────────────────────────

pub open spec fn msg_slash_space() -> Seq<char> {
    "Malformed tag: '/' followed by space — did you mean '/>' (self-closing)?"@
}

pub open spec fn msg_bare_value() -> Seq<char> {
    "Attribute value without attribute name"@
}

/// What the attribute check finds on one trimmed line `tr`, numbered `n`: a `/ `
/// inside tag-like text (the line has `<` or `>`, starts with neither `//` nor `*`,
/// and no `//` or `<!--` comes before it), reported at its byte column from 1; and
/// a `="` with no attribute name before it.
pub open spec fn attribute_line_errors(file: Seq<char>, n: u32, tr: Seq<char>) -> Seq<SpecSyntaxError> {
    let slash = if seq_contains(tr, "/ "@) && !"//"@.is_prefix_of(tr) && !"*"@.is_prefix_of(tr)
        && (seq_contains(tr, ">"@) || seq_contains(tr, "<"@)) {
        match first_occurrence(tr, "/ "@) {
            Some(p) => {
                let before = tr.take(p);
                if !seq_contains(before, "//"@) && !seq_contains(before, "<!--"@) {
                    seq![an_error(file, n, #[verifier::truncate] ((utf8_len(before) + 1) as u32), msg_slash_space())]
                } else {
                    seq![]
                }
            },
            None => seq![],
        }
    } else {
        seq![]
    };
    let bare = if seq_contains(tr, " =\""@) || "=\""@.is_prefix_of(tr) {
        seq![an_error(file, n, 0, msg_bare_value())]
    } else {
        seq![]
    };
    slash + bare
}

pub open spec fn attribute_errors_upto(file: Seq<char>, ls: Seq<Seq<char>>, n: int) -> Seq<SpecSyntaxError>
    decreases n,
{
    if n <= 0 {
        seq![]
    } else {
        attribute_errors_upto(file, ls, n - 1) + attribute_line_errors(file, n as u32, trim_spec(ls[n - 1]))
    }
}

/// What the attribute check finds in `t`, line by line.
pub open spec fn attribute_errors(file: Seq<char>, t: Seq<char>) -> Seq<SpecSyntaxError> {
    attribute_errors_upto(file, lines_spec(t), lines_spec(t).len() as int)
}

fn lit_in(v: &[char], lit: &str) -> (r: bool)
    ensures
        r == seq_contains(v@, lit@),
{
    let l = chars_of(lit);
    contains_seq(v, l.as_slice())
}

/// Checks HTML attribute shape line by line, and appends what it finds to `errors`.
pub fn check_html_attributes(file: &str, text: &str, errors: &mut Vec<SyntaxError>)
    requires
        text@.len() < u32::MAX,
    ensures
        errors_view(final(errors)@) == errors_view(old(errors)@) + attribute_errors(file@, text@),
{
    let chars = chars_of(text);
    let ranges = line_ranges(chars.as_slice());
    let ghost ls = lines_spec(text@);
    let mut k: usize = 0;
    proof {
        lemma_lines_len(text@);
        assert(errors_view(errors@) =~= errors_view(old(errors)@) + attribute_errors_upto(file@, ls, 0));
    }
    while k < ranges.len()
        invariant
            chars@ == text@,
            ls == lines_spec(text@),
            ls.len() <= text@.len() < u32::MAX,
            ranges_match(chars@, ranges@, ls),
            k <= ranges@.len(),
            errors_view(errors@) == errors_view(old(errors)@) + attribute_errors_upto(file@, ls, k as int),
        decreases ranges.len() - k,
    {
        let (a, b) = ranges[k];
        let ghost l = ls[k as int];
        assert(chars@.subrange(a as int, b as int) == l);
        let (ta, tb) = trim_bounds(chars.as_slice(), a, b);
        let tr = copy_range(chars.as_slice(), ta, tb);
        let trs = tr.as_slice();
        let n: u32 = (k + 1) as u32;
        let ghost before_errors = errors_view(errors@);
        let ghost slash: Seq<SpecSyntaxError> = seq![];
        if lit_in(trs, "/ ") && !starts_with_at(trs, 0, "//") && !starts_with_at(trs, 0, "*") {
            if lit_in(trs, ">") || lit_in(trs, "<") {
                let pat = chars_of("/ ");
                let found = find_from(trs, 0, pat.as_slice());
                proof {
                    assert(tr@.subrange(0, tr@.len() as int) =~= tr@);
                    assert(tr@.skip(0) =~= tr@);
                }
                match found {
                    Some(p) => {
                        proof {
                            lemma_first_occurrence_found(tr@, pat@);
                        }
                        let before = copy_range(trs, 0, p);
                        assert(before@ =~= tr@.take(p as int));
                        if !lit_in(before.as_slice(), "//") && !lit_in(before.as_slice(), "<!--") {
                            let w = utf8_len_of(trs, 0, p);
                            assert(tr@.subrange(0, p as int) =~= tr@.take(p as int));
                            push_error(errors, file, n, #[verifier::truncate] ((w + 1) as u32),
                                "Malformed tag: '/' followed by space — did you mean '/>' (self-closing)?".to_owned(),
                                SyntaxSeverity::Error);
                            proof {
                                slash = seq![an_error(file@, n, #[verifier::truncate] ((utf8_len(tr@.take(p as int)) + 1) as u32), msg_slash_space())];
                            }
                        }
                    },
                    None => {},
                }
            }
        }
        assert(errors_view(errors@) =~= before_errors + slash);
        let ghost mid_errors = errors_view(errors@);
        if lit_in(trs, " =\"") || starts_with_at(trs, 0, "=\"") {
            push_error(errors, file, n, 0, "Attribute value without attribute name".to_owned(), SyntaxSeverity::Error);
        }
        proof {
            assert(trim_spec(l) == tr@);
            assert(tr@.skip(0) =~= tr@);
            assert(attribute_line_errors(file@, n, tr@) == slash + (errors_view(errors@).skip(mid_errors.len() as int)));
        }
        k = k + 1;
        assert(errors_view(errors@) =~= errors_view(old(errors)@) + attribute_errors_upto(file@, ls, k as int));
    }
}

// ─── HTML tags ──────────────────────────────────────────────────

/// Tags that need no closing tag.
pub open spec fn is_void_tag(t: Seq<char>) -> bool {
    t == "br"@ || t == "hr"@ || t == "img"@ || t == "input"@ || t == "meta"@ || t == "link"@
        || t == "area"@ || t == "base"@ || t == "col"@ || t == "embed"@ || t == "source"@
        || t == "track"@ || t == "wbr"@
}

/// Tags that are not tracked when they open at the top level (Vue file sections).
pub open spec fn is_section_tag(t: Seq<char>) -> bool {
    t == "template"@ || t == "script"@ || t == "style"@
}

pub open spec fn msg_unclosed_tag(t: Seq<char>) -> Seq<char> {
    "Unclosed <"@ + t + ">"@
}

pub type TagStack = Seq<(Seq<char>, u32)>;

/// Index of the innermost open tag named `tag`.
pub open spec fn innermost_index(stack: TagStack, tag: Seq<char>) -> Option<int>
    decreases stack.len(),
{
    if stack.len() == 0 {
        None
    } else if stack.last().0 == tag {
        Some(stack.len() - 1)
    } else {
        innermost_index(stack.drop_last(), tag)
    }
}

/// Errors for the open tags above index `idx` when they are closed all at once,
/// innermost first (those named `tag` are not reported).
pub open spec fn unwound_errors(file: Seq<char>, stack: TagStack, idx: int, tag: Seq<char>) -> Seq<SpecSyntaxError>
    decreases stack.len(),
{
    if stack.len() <= idx || stack.len() == 0 {
        seq![]
    } else {
        let top = stack.last();
        (if top.0 != tag { seq![an_error(file, top.1, 0, msg_unclosed_tag(top.0))] } else { seq![] })
            + unwound_errors(file, stack.drop_last(), idx, tag)
    }
}

/// A closing tag `tag`: it closes the innermost open tag when that has its name;
/// otherwise, when a tag of that name is open further out, every tag above it is
/// closed too and reported as unclosed; otherwise nothing changes.
pub open spec fn close_tag(file: Seq<char>, stack: TagStack, tag: Seq<char>) -> (TagStack, Seq<SpecSyntaxError>) {
    if stack.len() == 0 {
        (stack, seq![])
    } else if stack.last().0 == tag {
        (stack.drop_last(), seq![])
    } else {
        match innermost_index(stack, tag) {
            None => (stack, seq![]),
            Some(idx) => (stack.take(idx), unwound_errors(file, stack, idx, tag)),
        }
    }
}

pub open spec fn tag_name_stop(c: char) -> bool {
    is_whitespace_spec(c) || c == '>' || c == '/'
}

pub open spec fn name_chars() -> spec_fn(char) -> bool {
    |c: char| !tag_name_stop(c)
}

/// Length of the tag name at the start of `s`, when something ends it.
pub open spec fn tag_name_len(s: Seq<char>) -> Option<int> {
    let n = run_len(s, name_chars()) as int;
    if n < s.len() { Some(n) } else { None }
}

pub open spec fn join_found(e: Seq<SpecSyntaxError>, r: Option<(TagStack, Seq<SpecSyntaxError>)>) -> Option<(TagStack, Seq<SpecSyntaxError>)> {
    match r {
        Some((st, e2)) => Some((st, e + e2)),
        None => None,
    }
}

/// The tag scan of the trimmed line `tr` (numbered `n`) from position `pos`: the
/// next `<` is handled by `tag_at`; with none left the line is done. `None` when
/// the scan would read past the end of the line.
pub open spec fn tag_line_scan(file: Seq<char>, tr: Seq<char>, pos: int, n: u32, stack: TagStack) -> Option<(TagStack, Seq<SpecSyntaxError>)>
    decreases tr.len() - pos, 1int,
{
    if pos < 0 || pos > tr.len() {
        None
    } else {
        match first_occurrence(tr.skip(pos), "<"@) {
            None => Some((stack, seq![])),
            Some(start) => {
                proof {
                    reveal_strlit("<");
                    lemma_first_occurrence_found(tr.skip(pos), "<"@);
                }
                tag_at(file, tr, pos + start, n, stack)
            },
        }
    }
}

/// The `<` at `abs` starts a comment or doctype (`<!`: the rest of the line is
/// skipped), a closing tag (`</` with a `>` after it), or an opening tag whose
/// lowercase name starts with a letter; an opening tag that is neither self-closing
/// (`/>`) nor void is pushed, unless it is a Vue section tag at the top level.
/// An opening tag with no `>` on its line makes the scan read past the end (`None`).
/// Anything else is skipped.
pub open spec fn tag_at(file: Seq<char>, tr: Seq<char>, abs: int, n: u32, stack: TagStack) -> Option<(TagStack, Seq<SpecSyntaxError>)>
    decreases tr.len() - abs, 0int,
{
    if abs < 0 || abs >= tr.len() {
        None
    } else {
        let rest = tr.skip(abs);
        if "<!"@.is_prefix_of(rest) {
            Some((stack, seq![]))
        } else if "</"@.is_prefix_of(rest) && seq_contains(rest, ">"@) {
            proof {
                reveal_strlit(">");
                lemma_first_occurrence_found(rest, ">"@);
            }
            let end = first_occurrence(rest, ">"@)->0;
            let tag = lowercase_spec(trim_spec(rest.subrange(2, end)));
            if tag.len() == 0 {
                tag_line_scan(file, tr, abs + end + 1, n, stack)
            } else {
                let (st2, errs) = close_tag(file, stack, tag);
                join_found(errs, tag_line_scan(file, tr, abs + end + 1, n, st2))
            }
        } else if !"</"@.is_prefix_of(rest) && tag_name_len(rest.skip(1)) is Some
            && lowercase_spec(rest.subrange(1, 1 + tag_name_len(rest.skip(1))->0)).len() > 0
            && is_alphabetic_spec(lowercase_spec(rest.subrange(1, 1 + tag_name_len(rest.skip(1))->0))[0]) {
            let tag = lowercase_spec(rest.subrange(1, 1 + tag_name_len(rest.skip(1))->0));
            if !seq_contains(rest, ">"@) {
                None
            } else {
                proof {
                    reveal_strlit(">");
                    lemma_first_occurrence_found(rest, ">"@);
                }
                let full = first_occurrence(rest, ">"@)->0;
                let self_closing = (full > 0 && rest[full - 1] == '/') || is_void_tag(tag);
                let st2 = if !self_closing && !is_void_tag(tag) && (!is_section_tag(tag) || stack.len() > 0) {
                    stack.push((tag, n))
                } else {
                    stack
                };
                tag_line_scan(file, tr, abs + full + 1, n, st2)
            }
        } else {
            tag_line_scan(file, tr, abs + 1, n, stack)
        }
    }
}

/// One error for each tag still open at the end, innermost first, at the line
/// where it opened.
pub open spec fn left_open_errors(file: Seq<char>, stack: TagStack) -> Seq<SpecSyntaxError>
    decreases stack.len(),
{
    if stack.len() == 0 {
        seq![]
    } else {
        seq![an_error(file, stack.last().1, 0, msg_unclosed_tag(stack.last().0))]
            + left_open_errors(file, stack.drop_last())
    }
}

/// `v` is one of the HTML void elements, which never take a closing tag.
pub open spec fn html_void_element(v: Seq<char>) -> bool {
    v == "br"@ || v == "hr"@ || v == "img"@ || v == "input"@ || v == "meta"@ || v == "link"@ || v == "area"@ || v == "base"@ || v == "col"@ || v == "embed"@ || v == "source"@ || v == "track"@ || v == "wbr"@
}

proof fn lemma_void_letters(v: Seq<char>)
    requires
        html_void_element(v),
    ensures
        v.len() > 0,
        forall|k: int| 0 <= k < v.len() ==> 'a' <= #[trigger] v[k] && v[k] <= 'z',
{
        reveal_strlit("br");
        reveal_strlit("hr");
        reveal_strlit("img");
        reveal_strlit("input");
        reveal_strlit("meta");
        reveal_strlit("link");
        reveal_strlit("area");
        reveal_strlit("base");
        reveal_strlit("col");
        reveal_strlit("embed");
        reveal_strlit("source");
        reveal_strlit("track");
        reveal_strlit("wbr");
}

proof fn lemma_run_len_prefix(a: Seq<char>, b: Seq<char>, p: spec_fn(char) -> bool)
    requires
        forall|k: int| 0 <= k < a.len() ==> p(#[trigger] a[k]),
        b.len() > 0,
        !p(b[0]),
    ensures
        run_len(a + b, p) == a.len(),
    decreases a.len(),
{
    if a.len() > 0 {
        assert((a + b)[0] == a[0]);
        assert((a + b).drop_first() =~= a.drop_first() + b);
        lemma_run_len_prefix(a.drop_first(), b, p);
    } else {
        assert(a + b =~= b);
    }
}

/// An opening tag of an HTML void element (`br`, `hr`, `img`, `input`, `meta`,
/// `link`, `area`, `base`, `col`, `embed`, `source`, `track`, `wbr`), with or
/// without attributes and without `/>`, is never left open: the scan goes on after
/// its `>` with the same open tags and no error. (The tag name must read as itself
/// in lowercase and start with a letter, as `str::to_lowercase` and
/// `char::is_alphabetic` give for these ASCII names.)
pub proof fn law_void_elements_stay_closed(
    file: Seq<char>,
    v: Seq<char>,
    attrs: Seq<char>,
    rest: Seq<char>,
    n: u32,
    stack: TagStack,
)
    requires
        html_void_element(v),
        lowercase_spec(v) == v,
        is_alphabetic_spec(v[0]),
        attrs.len() == 0 || is_whitespace_spec(attrs[0]),
        !attrs.contains('>'),
    ensures
        ({
            let tr = seq!['<'] + v + attrs + seq!['>'] + rest;
            tag_at(file, tr, 0, n, stack) == tag_line_scan(file, tr, v.len() + attrs.len() + 2int, n, stack)
        }),
{
    let tr = seq!['<'] + v + attrs + seq!['>'] + rest;
    lemma_void_letters(v);
    let full: int = v.len() as int + attrs.len() as int + 1;
    assert(tr.skip(0) =~= tr);
    assert(tr[0] == '<');
    assert(tr[1] == v[0]);
    reveal_strlit("<!");
    reveal_strlit("</");
    reveal_strlit(">");
    assert(!"<!"@.is_prefix_of(tr)) by {
        assert("<!"@[1] != tr[1]);
    }
    assert(!"</"@.is_prefix_of(tr)) by {
        assert("</"@[1] != tr[1]);
    }
    let after = tr.skip(1);
    let tail = attrs + seq!['>'] + rest;
    assert(after =~= v + tail);
    assert(tail[0] == if attrs.len() == 0 { '>' } else { attrs[0] });
    assert forall|k: int| 0 <= k < v.len() implies (name_chars())(#[trigger] v[k]) by {
        assert('a' <= v[k] && v[k] <= 'z');
    }
    lemma_run_len_prefix(v, tail, name_chars());
    assert(tag_name_len(after) == Some(v.len() as int));
    assert(tr.subrange(1, 1 + v.len() as int) =~= v);
    assert(is_void_tag(v)) by {
        reveal_strlit("br");
        reveal_strlit("hr");
        reveal_strlit("img");
        reveal_strlit("input");
        reveal_strlit("meta");
        reveal_strlit("link");
        reveal_strlit("area");
        reveal_strlit("base");
        reveal_strlit("col");
        reveal_strlit("embed");
        reveal_strlit("source");
        reveal_strlit("track");
        reveal_strlit("wbr");
    }
    assert(tr[full] == '>');
    assert(occurs_at(tr, ">"@, full)) by {
        assert(tr.subrange(full, full + 1) =~= ">"@);
    }
    assert forall|j: int| 0 <= j < full implies !occurs_at(tr, ">"@, j) by {
        if occurs_at(tr, ">"@, j) {
            assert(tr.subrange(j, j + 1)[0] == tr[j]);
            if j >= 1 && j < 1 + v.len() {
                assert(tr[j] == v[j - 1]);
            } else if j >= 1 + v.len() {
                assert(tr[j] == attrs[j - 1 - v.len()]);
            }
        }
    }
    assert(is_first_occurrence(tr, ">"@, full));
    lemma_first_occurrence_unique(tr, ">"@, full);
}

/// The tag scan of lines `k..` with the tags open before line `k`; after the last
/// line, each tag still open is reported.
pub open spec fn tag_lines_scan(file: Seq<char>, ls: Seq<Seq<char>>, k: int, stack: TagStack) -> Option<Seq<SpecSyntaxError>>
    decreases ls.len() - k,
{
    if k < 0 || k >= ls.len() {
        Some(left_open_errors(file, stack))
    } else {
        match tag_line_scan(file, trim_spec(ls[k]), 0, (k + 1) as u32, stack) {
            None => None,
            Some((st, e)) => match tag_lines_scan(file, ls, k + 1, st) {
                None => None,
                Some(e2) => Some(e + e2),
            },
        }
    }
}

/// What the tag check finds in `t`; `None` when the scan would read past the end of
/// a line (an opening tag with no `>` on its line).
pub open spec fn html_tag_errors(file: Seq<char>, t: Seq<char>) -> Option<Seq<SpecSyntaxError>> {
    tag_lines_scan(file, lines_spec(t), 0, seq![])
}

proof fn lemma_trail_ws_stops(s: Seq<char>, k: int)
    requires
        0 <= k < s.len(),
        !is_whitespace_spec(s[k]),
    ensures
        trail_ws(s) <= s.len() - 1 - k,
    decreases s.len(),
{
    if is_whitespace_spec(s.last()) {
        assert(k != s.len() - 1);
        assert(s.drop_last()[k] == s[k]);
        lemma_trail_ws_stops(s.drop_last(), k);
    }
}

proof fn lemma_no_angle_lines(file: Seq<char>, ls: Seq<Seq<char>>, k: int, stack: TagStack)
    requires
        0 <= k <= ls.len(),
        forall|j: int| 0 <= j < ls.len() ==> !(#[trigger] ls[j]).contains('<'),
    ensures
        tag_lines_scan(file, ls, k, stack) == Some(left_open_errors(file, stack)),
    decreases ls.len() - k,
{
    if k < ls.len() {
        let l = ls[k];
        let tr = trim_spec(l);
        assert(!tr.contains('<')) by {
            if tr.contains('<') {
                let j = choose|j: int| 0 <= j < tr.len() && tr[j] == '<';
                lemma_run_len_bounds(l, |c: char| is_whitespace_spec(c));
                let a = lead_ws(l) as int;
                assert(a < l.len());
                lemma_trail_ws_stops(l, a);
                assert(tr[j] == l[a + j]);
                assert(l.contains('<'));
            }
        }
        reveal_strlit("<");
        assert(tr.skip(0) =~= tr);
        assert(!seq_contains(tr, "<"@)) by {
            if seq_contains(tr, "<"@) {
                let i = choose|i: int| occurs_at(tr, "<"@, i);
                assert(tr.subrange(i, i + 1)[0] == tr[i]);
            }
        }
        lemma_no_angle_lines(file, ls, k + 1, stack);
        assert(Seq::<SpecSyntaxError>::empty() + left_open_errors(file, stack) =~= left_open_errors(file, stack));
    }
}

/// Text without `<` gets no tag errors, and its tag scan always completes.
pub proof fn law_no_tags_no_errors(file: Seq<char>, t: Seq<char>)
    requires
        !t.contains('<'),
    ensures
        html_tag_errors(file, t) == Some(Seq::<SpecSyntaxError>::empty()),
{
    lemma_lines_avoid(t, '<');
    lemma_no_angle_lines(file, lines_spec(t), 0, seq![]);
}

pub open spec fn tag_stack_view(v: Seq<(Vec<char>, u32)>) -> TagStack {
    v.map_values(|e: (Vec<char>, u32)| (e.0@, e.1))
}

fn lower_chars(v: &[char]) -> (r: Vec<char>)
    ensures
        r@ == lowercase_spec(v@),
{
    let s = string_of(v);
    let l = to_lowercase(s.as_str());
    chars_of(l.as_str())
}

fn is_void_tag_exec(t: &[char]) -> (r: bool)
    ensures
        r == is_void_tag(t@),
{
    eq_lit(t, "br") || eq_lit(t, "hr") || eq_lit(t, "img") || eq_lit(t, "input") || eq_lit(t, "meta")
        || eq_lit(t, "link") || eq_lit(t, "area") || eq_lit(t, "base") || eq_lit(t, "col") || eq_lit(t, "embed")
        || eq_lit(t, "source") || eq_lit(t, "track") || eq_lit(t, "wbr")
}

fn is_section_tag_exec(t: &[char]) -> (r: bool)
    ensures
        r == is_section_tag(t@),
{
    eq_lit(t, "template") || eq_lit(t, "script") || eq_lit(t, "style")
}

fn unclosed_tag_message(t: &[char]) -> (m: String)
    ensures
        m@ == msg_unclosed_tag(t@),
{
    let mut v: Vec<char> = Vec::new();
    push_lit(&mut v, "Unclosed <");
    push_chars(&mut v, t);
    push_lit(&mut v, ">");
    assert(v@ =~= msg_unclosed_tag(t@));
    string_of(v.as_slice())
}

fn close_tag_exec(file: &str, stack: &mut Vec<(Vec<char>, u32)>, tag: &[char], errors: &mut Vec<SyntaxError>)
    ensures
        tag_stack_view(final(stack)@) == close_tag(file@, tag_stack_view(old(stack)@), tag@).0,
        errors_view(final(errors)@) == errors_view(old(errors)@) + close_tag(file@, tag_stack_view(old(stack)@), tag@).1,
{
    let ghost sv = tag_stack_view(stack@);
    if stack.len() == 0 {
        assert(errors_view(errors@) =~= errors_view(old(errors)@) + Seq::<SpecSyntaxError>::empty());
        return;
    }
    let top = stack.len() - 1;
    if eq_chars(stack[top].0.as_slice(), tag) {
        stack.pop();
        assert(tag_stack_view(stack@) =~= sv.drop_last());
        assert(errors_view(errors@) =~= errors_view(old(errors)@) + Seq::<SpecSyntaxError>::empty());
        return;
    }
    let mut j: usize = stack.len();
    assert(sv.take(j as int) =~= sv);
    while j > 0
        invariant
            j <= stack@.len(),
            sv == tag_stack_view(stack@),
            innermost_index(sv, tag@) == innermost_index(sv.take(j as int), tag@),
        ensures
            innermost_index(sv, tag@) == if j == 0 { None } else { Some(j - 1) },
        decreases j,
    {
        assert(sv.take(j as int).last() == sv[j - 1]);
        assert(sv.take(j as int).drop_last() =~= sv.take(j - 1));
        if eq_chars(stack[j - 1].0.as_slice(), tag) {
            break;
        }
        j = j - 1;
    }
    if j == 0 {
        assert(sv.take(0) =~= Seq::<(Seq<char>, u32)>::empty());
        assert(errors_view(errors@) =~= errors_view(old(errors)@) + Seq::<SpecSyntaxError>::empty());
        return;
    }
    let idx = j - 1;
    let ghost mut reported: Seq<SpecSyntaxError> = seq![];
    assert(errors_view(errors@) =~= errors_view(old(errors)@) + reported);
    while stack.len() > idx
        invariant
            idx < sv.len(),
            idx <= stack@.len() <= sv.len(),
            tag_stack_view(stack@) == sv.take(stack@.len() as int),
            errors_view(errors@) == errors_view(old(errors)@) + reported,
            reported + unwound_errors(file@, tag_stack_view(stack@), idx as int, tag@) == unwound_errors(file@, sv, idx as int, tag@),
        decreases stack.len(),
    {
        let ghost cur = tag_stack_view(stack@);
        let (t, l) = stack.pop().unwrap();
        assert(tag_stack_view(stack@) =~= cur.drop_last());
        assert(cur.last() == (t@, l));
        assert(sv.take(stack@.len() as int) =~= sv.take(cur.len() as int).drop_last());
        if !eq_chars(t.as_slice(), tag) {
            let m = unclosed_tag_message(t.as_slice());
            push_error(errors, file, l, 0, m, SyntaxSeverity::Error);
            proof {
                reported = reported.push(an_error(file@, l, 0, msg_unclosed_tag(t@)));
            }
        }
        assert(reported + unwound_errors(file@, tag_stack_view(stack@), idx as int, tag@) =~= unwound_errors(file@, sv, idx as int, tag@));
    }
    assert(unwound_errors(file@, tag_stack_view(stack@), idx as int, tag@) == Seq::<SpecSyntaxError>::empty());
    assert(reported =~= unwound_errors(file@, sv, idx as int, tag@));
}

/// End of the tag name that starts at `i`: the first white space, `>` or `/`.
fn tag_name_end(t: &[char], i: usize) -> (j: usize)
    requires
        i <= t.len(),
    ensures
        i <= j <= t.len(),
        j - i == run_len(t@.skip(i as int), name_chars()),
{
    let mut j: usize = i;
    while j < t.len() && !(is_whitespace(t[j]) || t[j] == '>' || t[j] == '/')
        invariant
            i <= j <= t.len(),
            run_len(t@.skip(i as int), name_chars()) == (j - i) + run_len(t@.skip(j as int), name_chars()),
        decreases t.len() - j,
    {
        assert(t@.skip(j as int).drop_first() =~= t@.skip(j + 1));
        j = j + 1;
    }
    j
}

enum TagStep {
    /// The scan goes on at this position.
    Next(usize),
    /// The rest of the line is skipped.
    Done,
    /// The scan would read past the end of the line.
    Overrun,
}

/// Handles the `<` at `abs`; new problems go to `found`.
fn tag_step(file: &str, tr: &[char], abs: usize, n: u32, stack: &mut Vec<(Vec<char>, u32)>, found: &mut Vec<SyntaxError>) -> (r: TagStep)
    requires
        abs < tr.len(),
        old(found)@.len() == 0,
    ensures
        match r {
            TagStep::Next(p) => abs < p <= tr.len() && tag_at(file@, tr@, abs as int, n, tag_stack_view(old(stack)@))
                == join_found(errors_view(final(found)@), tag_line_scan(file@, tr@, p as int, n, tag_stack_view(final(stack)@))),
            TagStep::Done => tag_at(file@, tr@, abs as int, n, tag_stack_view(old(stack)@))
                == Some((tag_stack_view(final(stack)@), errors_view(final(found)@))),
            TagStep::Overrun => tag_at(file@, tr@, abs as int, n, tag_stack_view(old(stack)@)) is None,
        },
{
    let ghost sv = tag_stack_view(stack@);
    let ghost rest = tr@.skip(abs as int);
    let gt = chars_of(">");
    proof {
        reveal_strlit(">");
        reveal_strlit("</");
        assert(errors_view(found@) =~= Seq::<SpecSyntaxError>::empty());
    }
    if starts_with_at(tr, abs, "<!") {
        return TagStep::Done;
    }
    let closing = starts_with_at(tr, abs, "</");
    let fe = find_from(tr, abs, gt.as_slice());
    proof {
        assert(tr@.subrange(abs as int, tr@.len() as int) =~= rest);
        lemma_first_occurrence_found(rest, ">"@);
    }
    if closing {
        if let Some(end) = fe {
            proof {
                assert("</"@.len() == 2 && "</"@[0] == '<' && "</"@[1] == '/');
                assert(rest.subrange(0, 2)[0] == rest[0] && rest.subrange(0, 2)[1] == rest[1]);
                assert(rest[0] == '<' && rest[1] == '/');
                assert(occurs_at(rest, ">"@, end as int));
                assert(rest.subrange(end as int, end + 1)[0] == '>');
            }
            let (a, b) = trim_bounds(tr, abs + 2, abs + end);
            assert(rest.subrange(2, end as int) =~= tr@.subrange(abs + 2, abs + end));
            let raw = copy_range(tr, a, b);
            let tag = lower_chars(raw.as_slice());
            if tag.len() > 0 {
                close_tag_exec(file, stack, tag.as_slice(), found);
                proof {
                    let (st2, errs) = close_tag(file@, sv, tag@);
                    assert(errors_view(found@) =~= errs);
                }
            } else {
                assert(errors_view(found@) =~= Seq::<SpecSyntaxError>::empty());
            }
            proof {
                let r = tag_line_scan(file@, tr@, (abs + end + 1) as int, n, tag_stack_view(stack@));
                if let Some((s3, e3)) = r {
                    assert(Seq::<SpecSyntaxError>::empty() + e3 =~= e3);
                }
            }
            return TagStep::Next(abs + end + 1);
        }
    } else {
        let j = tag_name_end(tr, abs + 1);
        assert(rest.skip(1) =~= tr@.skip(abs + 1));
        if j < tr.len() {
            let raw = copy_range(tr, abs + 1, j);
            assert(rest.subrange(1, 1 + (j - abs - 1)) =~= tr@.subrange(abs + 1, j as int));
            let tag = lower_chars(raw.as_slice());
            if tag.len() > 0 && is_alphabetic(tag[0]) {
                match fe {
                    None => {
                        return TagStep::Overrun;
                    },
                    Some(full) => {
                        proof {
                            assert(occurs_at(rest, ">"@, full as int));
                            assert(rest.subrange(full as int, full + 1)[0] == '>');
                        }
                        let void = is_void_tag_exec(tag.as_slice());
                        let self_closing = (full > 0 && tr[abs + full - 1] == '/') || void;
                        proof {
                            if full > 0 {
                                assert(rest[full - 1] == tr@[abs + full - 1]);
                            }
                        }
                        if !self_closing && !void {
                            if !is_section_tag_exec(tag.as_slice()) || stack.len() > 0 {
                                let ghost tv = tag@;
                                stack.push((tag, n));
                                assert(tag_stack_view(stack@) =~= sv.push((tv, n)));
                            }
                        }
                        proof {
                            let r = tag_line_scan(file@, tr@, (abs + full + 1) as int, n, tag_stack_view(stack@));
                            if let Some((s3, e3)) = r {
                                assert(Seq::<SpecSyntaxError>::empty() + e3 =~= e3);
                            }
                        }
                        return TagStep::Next(abs + full + 1);
                    },
                }
            }
        }
    }
    proof {
        let r = tag_line_scan(file@, tr@, (abs + 1) as int, n, sv);
        if let Some((s3, e3)) = r {
            assert(Seq::<SpecSyntaxError>::empty() + e3 =~= e3);
        }
    }
    TagStep::Next(abs + 1)
}

fn append_errors(errors: &mut Vec<SyntaxError>, more: &mut Vec<SyntaxError>)
    ensures
        errors_view(final(errors)@) == errors_view(old(errors)@) + errors_view(old(more)@),
{
    errors.append(more);
    assert(errors_view(errors@) =~= errors_view(old(errors)@) + errors_view(old(more)@));
}

/// Runs the tag scan over one trimmed line; `false` when the scan would read past
/// the end of the line.
fn scan_tag_line(file: &str, tr: &[char], n: u32, stack: &mut Vec<(Vec<char>, u32)>, errors: &mut Vec<SyntaxError>) -> (ok: bool)
    ensures
        match tag_line_scan(file@, tr@, 0, n, tag_stack_view(old(stack)@)) {
            Some((st, e)) => ok && tag_stack_view(final(stack)@) == st
                && errors_view(final(errors)@) == errors_view(old(errors)@) + e,
            None => !ok,
        },
{
    let lt = chars_of("<");
    let ghost st0 = tag_stack_view(stack@);
    let ghost mut found: Seq<SpecSyntaxError> = seq![];
    let mut pos: usize = 0;
    proof {
        reveal_strlit("<");
        assert(errors_view(errors@) =~= errors_view(old(errors)@) + found);
        assert(found + Seq::<SpecSyntaxError>::empty() =~= found);
    }
    loop
        invariant
            lt@ == "<"@,
            "<"@.len() == 1,
            pos <= tr@.len(),
            errors_view(errors@) == errors_view(old(errors)@) + found,
            tag_line_scan(file@, tr@, 0, n, st0) == join_found(found, tag_line_scan(file@, tr@, pos as int, n, tag_stack_view(stack@))),
            st0 == tag_stack_view(old(stack)@),
        decreases tr@.len() - pos,
    {
        let f = find_from(tr, pos, lt.as_slice());
        assert(tr@.subrange(pos as int, tr@.len() as int) == tr@.skip(pos as int));
        match f {
            None => {
                assert(found + Seq::<SpecSyntaxError>::empty() =~= found);
                return true;
            },
            Some(start) => {
                proof {
                    lemma_first_occurrence_found(tr@.skip(pos as int), "<"@);
                }
                let tlen = tr.len();
                assert(start + 1 <= tlen - pos);
                let abs = pos + start;
                let mut more: Vec<SyntaxError> = Vec::new();
                let ghost sv = tag_stack_view(stack@);
                match tag_step(file, tr, abs, n, stack, &mut more) {
                    TagStep::Next(p) => {
                        let ghost e = errors_view(more@);
                        append_errors(errors, &mut more);
                        proof {
                            let r = tag_line_scan(file@, tr@, p as int, n, tag_stack_view(stack@));
                            if let Some((s3, e3)) = r {
                                assert(found + (e + e3) =~= (found + e) + e3);
                            }
                            found = found + e;
                        }
                        pos = p;
                    },
                    TagStep::Done => {
                        let ghost e = errors_view(more@);
                        append_errors(errors, &mut more);
                        return true;
                    },
                    TagStep::Overrun => {
                        return false;
                    },
                }
            },
        }
    }
}

/// Runs the tag scan over every line of `text`; `false` when it would read past the
/// end of a line.
fn scan_html_tags(file: &str, text: &str, errors: &mut Vec<SyntaxError>) -> (ok: bool)
    requires
        text@.len() < u32::MAX,
    ensures
        match html_tag_errors(file@, text@) {
            Some(e) => ok && errors_view(final(errors)@) == errors_view(old(errors)@) + e,
            None => !ok,
        },
{
    let chars = chars_of(text);
    let ranges = line_ranges(chars.as_slice());
    let ghost ls = lines_spec(text@);
    let mut stack: Vec<(Vec<char>, u32)> = Vec::new();
    let ghost mut found: Seq<SpecSyntaxError> = seq![];
    let mut k: usize = 0;
    proof {
        lemma_lines_len(text@);
        assert(errors_view(errors@) =~= errors_view(old(errors)@) + found);
        assert(tag_stack_view(stack@) =~= Seq::<(Seq<char>, u32)>::empty());
        let r = tag_lines_scan(file@, ls, 0, seq![]);
        if let Some(e) = r {
            assert(found + e =~= e);
        }
    }
    while k < ranges.len()
        invariant
            chars@ == text@,
            ls == lines_spec(text@),
            ls.len() <= text@.len() < u32::MAX,
            ranges_match(chars@, ranges@, ls),
            k <= ranges@.len(),
            errors_view(errors@) == errors_view(old(errors)@) + found,
            html_tag_errors(file@, text@) == match tag_lines_scan(file@, ls, k as int, tag_stack_view(stack@)) {
                Some(e) => Some(found + e),
                None => None::<Seq<SpecSyntaxError>>,
            },
        decreases ranges.len() - k,
    {
        let (a, b) = ranges[k];
        let ghost l = ls[k as int];
        assert(chars@.subrange(a as int, b as int) == l);
        let (ta, tb) = trim_bounds(chars.as_slice(), a, b);
        let tr = copy_range(chars.as_slice(), ta, tb);
        let ghost sv = tag_stack_view(stack@);
        let ghost errs0 = errors_view(errors@);
        let ok = scan_tag_line(file, tr.as_slice(), (k + 1) as u32, &mut stack, errors);
        if !ok {
            return false;
        }
        proof {
            let (st, e) = tag_line_scan(file@, tr@, 0, (k + 1) as u32, sv)->0;
            assert(errors_view(errors@) =~= errors_view(old(errors)@) + (found + e));
            let r = tag_lines_scan(file@, ls, k + 1, st);
            if let Some(e2) = r {
                assert(found + (e + e2) =~= (found + e) + e2);
            }
            found = found + e;
        }
        k = k + 1;
    }
    while stack.len() > 0
        invariant
            errors_view(errors@) == errors_view(old(errors)@) + found,
            html_tag_errors(file@, text@) == Some(found + left_open_errors(file@, tag_stack_view(stack@))),
        decreases stack.len(),
    {
        let ghost cur = tag_stack_view(stack@);
        let (t, l) = stack.pop().unwrap();
        assert(tag_stack_view(stack@) =~= cur.drop_last());
        assert(cur.last() == (t@, l));
        let m = unclosed_tag_message(t.as_slice());
        push_error(errors, file, l, 0, m, SyntaxSeverity::Error);
        proof {
            let e = an_error(file@, l, 0, msg_unclosed_tag(t@));
            assert(found + left_open_errors(file@, cur) =~= found.push(e) + left_open_errors(file@, cur.drop_last()));
            found = found.push(e);
        }
    }
    assert(found + left_open_errors(file@, tag_stack_view(stack@)) =~= found);
    true
}

/// Whether the tag check can run over `text` (see `check_html_tags`): it cannot
/// when an opening tag has no `>` on its line.
pub fn html_tag_scan_completes(file: &str, text: &str) -> (r: bool)
    requires
        text@.len() < u32::MAX,
    ensures
        r == html_tag_errors(file@, text@) is Some,
{
    let mut scratch: Vec<SyntaxError> = Vec::new();
    scan_html_tags(file, text, &mut scratch)
}

/// Checks that HTML/Vue tags are balanced, and appends what it finds to `errors`.
/// A closing tag that skips over open tags reports each of them as unclosed, and
/// so does the end of the text for each tag still open.
pub fn check_html_tags(file: &str, text: &str, errors: &mut Vec<SyntaxError>)
    requires
        text@.len() < u32::MAX,
        html_tag_errors(file@, text@) is Some,
    ensures
        errors_view(final(errors)@) == errors_view(old(errors)@) + html_tag_errors(file@, text@)->0,
{
    scan_html_tags(file, text, errors);
}

// ─── Per-file checks ────────────────────────────────────────────

/// What the checks common to all languages find in `text`: bracket balance, and
/// for Python (`ext` is `py`) mixed indentation.
pub open spec fn common_issue_errors(file: Seq<char>, text: Seq<char>, ext: Seq<char>) -> Seq<SpecSyntaxError> {
    bracket_errors(file, text) + if ext == "py"@ { python_errors(file, text) } else { seq![] }
}

/// What the Vue/HTML checks find in `text`: tag balance, then attribute shape;
/// `None` when the tag scan cannot run (see `html_tag_errors`).
pub open spec fn vue_errors(file: Seq<char>, text: Seq<char>) -> Option<Seq<SpecSyntaxError>> {
    match html_tag_errors(file, text) {
        Some(e) => Some(e + attribute_errors(file, text)),
        None => None,
    }
}

/// Runs the checks common to all languages on `content` (decoded as UTF-8, invalid
/// sequences replaced), and appends what they find to `errors`.
pub fn check_common_issues(file: &str, content: &[u8], ext: &str, errors: &mut Vec<SyntaxError>)
    requires
        utf8_lossy_spec(content@).len() < u32::MAX,
    ensures
        errors_view(final(errors)@) == errors_view(old(errors)@)
            + common_issue_errors(file@, utf8_lossy_spec(content@), ext@),
{
    let text = decode_lossy(content);
    check_bracket_balance(file, text.as_str(), errors);
    let e = chars_of(ext);
    if eq_lit(e.as_slice(), "py") {
        check_python_indentation(file, text.as_str(), errors);
    }
    proof {
        let t = utf8_lossy_spec(content@);
        assert(errors_view(errors@) =~= errors_view(old(errors)@) + common_issue_errors(file@, t, ext@));
    }
}

/// Runs the Vue/HTML checks on `content` (decoded as UTF-8, invalid sequences
/// replaced), and appends what they find to `errors`.
pub fn check_vue_syntax(file: &str, content: &[u8], errors: &mut Vec<SyntaxError>)
    requires
        utf8_lossy_spec(content@).len() < u32::MAX,
        html_tag_errors(file@, utf8_lossy_spec(content@)) is Some,
    ensures
        errors_view(final(errors)@) == errors_view(old(errors)@) + vue_errors(file@, utf8_lossy_spec(content@))->0,
{
    let text = decode_lossy(content);
    check_html_tags(file, text.as_str(), errors);
    check_html_attributes(file, text.as_str(), errors);
    proof {
        let t = utf8_lossy_spec(content@);
        assert(errors_view(errors@) =~= errors_view(old(errors)@) + vue_errors(file@, t)->0);
    }
}

/// A front end handles an extension when its list names it.
pub open spec fn handles_ext(exts: Seq<String>, ext: Seq<char>) -> bool {
    exists|k: int| 0 <= k < exts.len() && (#[trigger] exts[k])@ == ext
}

/// Picks the first front end, in the given order, whose extensions include `ext`.
pub fn select_frontend(extensions: &Vec<Vec<String>>, ext: &str) -> (r: Option<usize>)
    ensures
        match r {
            Some(i) => i < extensions@.len() && handles_ext(extensions@[i as int]@, ext@)
                && forall|j: int| 0 <= j < i ==> !handles_ext(#[trigger] extensions@[j]@, ext@),
            None => forall|j: int| 0 <= j < extensions@.len() ==> !handles_ext(#[trigger] extensions@[j]@, ext@),
        },
{
    let e = chars_of(ext);
    let mut i: usize = 0;
    while i < extensions.len()
        invariant
            i <= extensions@.len(),
            e@ == ext@,
            forall|j: int| 0 <= j < i ==> !handles_ext(#[trigger] extensions@[j]@, ext@),
        decreases extensions.len() - i,
    {
        let list = &extensions[i];
        let mut k: usize = 0;
        while k < list.len()
            invariant
                k <= list@.len(),
                i < extensions@.len(),
                e@ == ext@,
                list@ == extensions@[i as int]@,
                forall|j: int| 0 <= j < i ==> !handles_ext(#[trigger] extensions@[j]@, ext@),
                forall|m: int| 0 <= m < k ==> (#[trigger] list@[m])@ != ext@,
            decreases list.len() - k,
        {
            let c = chars_of(list[k].as_str());
            if eq_chars(c.as_slice(), e.as_slice()) {
                assert((list@[k as int])@ == ext@);
                return Some(i);
            }
            k = k + 1;
        }
        i = i + 1;
    }
    None
}

/// What the language front end made of a file.
pub enum FrontendOutcome {
    /// No front end handles the file's extension.
    NoFrontend,
    /// The front end parsed the file.
    Parsed,
    /// The front end failed, with this message.
    Failed(String),
}

pub enum SpecFrontendOutcome {
    NoFrontend,
    Parsed,
    Failed(Seq<char>),
}

impl View for FrontendOutcome {
    type V = SpecFrontendOutcome;

    open spec fn view(&self) -> SpecFrontendOutcome {
        match self {
            FrontendOutcome::NoFrontend => SpecFrontendOutcome::NoFrontend,
            FrontendOutcome::Parsed => SpecFrontendOutcome::Parsed,
            FrontendOutcome::Failed(m) => SpecFrontendOutcome::Failed(m@),
        }
    }
}

/// How the checks of one file went.
#[derive(Debug, Clone, Copy, PartialEq, Eq, Structural)]
pub enum FileCheck {
    /// The checks ran.
    Done,
    /// The decoded text has `u32::MAX` characters or more; nothing was checked.
    TooLarge,
    /// A Vue/HTML file has an opening tag with no `>` on its line, so the tag scan
    /// cannot run; nothing was checked.
    TagScanOverrun,
}

/// What the checks of one file find: the front end's failure, or after a
/// successful parse the common checks; then for `vue` and `html` files the
/// Vue/HTML checks. `None` when the Vue/HTML tag scan cannot run.
pub open spec fn file_errors(file: Seq<char>, text: Seq<char>, ext: Seq<char>, fe: SpecFrontendOutcome) -> Option<Seq<SpecSyntaxError>> {
    let first = match fe {
        SpecFrontendOutcome::NoFrontend => seq![],
        SpecFrontendOutcome::Parsed => common_issue_errors(file, text, ext),
        SpecFrontendOutcome::Failed(m) => seq![an_error(file, 0, 0, "Parse error: "@ + m)],
    };
    if ext == "vue"@ || ext == "html"@ {
        match vue_errors(file, text) {
            Some(e) => Some(first + e),
            None => None,
        }
    } else {
        Some(first)
    }
}

/// Checks one file given its content, its extension and what the language front end
/// made of it, and appends what it finds to `errors`.
pub fn check_file(file: &str, content: &[u8], ext: &str, frontend: &FrontendOutcome, errors: &mut Vec<SyntaxError>) -> (r: FileCheck)
    ensures
        r == FileCheck::TooLarge <==> utf8_lossy_spec(content@).len() >= u32::MAX,
        r == FileCheck::TagScanOverrun <==> utf8_lossy_spec(content@).len() < u32::MAX
            && file_errors(file@, utf8_lossy_spec(content@), ext@, frontend@) is None,
        r == FileCheck::Done ==> errors_view(final(errors)@) == errors_view(old(errors)@)
            + file_errors(file@, utf8_lossy_spec(content@), ext@, frontend@)->0,
        r != FileCheck::Done ==> final(errors)@ == old(errors)@,
{
    let text = decode_lossy(content);
    let tlen = text.as_str().unicode_len();
    if tlen >= 4294967295 {
        return FileCheck::TooLarge;
    }
    let e = chars_of(ext);
    let markup = eq_lit(e.as_slice(), "vue") || eq_lit(e.as_slice(), "html");
    if markup && !html_tag_scan_completes(file, text.as_str()) {
        return FileCheck::TagScanOverrun;
    }
    let ghost t = utf8_lossy_spec(content@);
    match frontend {
        FrontendOutcome::NoFrontend => {},
        FrontendOutcome::Parsed => {
            check_common_issues(file, content, ext, errors);
        },
        FrontendOutcome::Failed(msg) => {
            let mut v: Vec<char> = Vec::new();
            push_lit(&mut v, "Parse error: ");
            let mc = chars_of(msg.as_str());
            push_chars(&mut v, mc.as_slice());
            push_error(errors, file, 0, 0, string_of(v.as_slice()), SyntaxSeverity::Error);
        },
    }
    if markup {
        check_vue_syntax(file, content, errors);
    }
    proof {
        assert(errors_view(errors@) =~= errors_view(old(errors)@) + file_errors(file@, t, ext@, frontend@)->0);
    }
    FileCheck::Done
}

} // verus!
