//! Query language parser: tokenizer and syntax tree.
//!
//! ```text
//! query     := FIND? target (WHERE condition (AND condition)*)?
//! target    := "functions" | "types" | "modules" | "bindings" | "all" (and aliases)
//! condition := predicate | comparison | regex | NOT condition
//! predicate := IDENT "(" args ")"
//! comparison:= field OP value
//! regex     := field "~" (STRING | IDENT)
//! ```
use vstd::prelude::*;
use crate::text::{
    chars_of, copy_range, eq_lit, is_alphanumeric, is_alphanumeric_spec, lemma_run_len_bounds, lowercase_spec,
    run_len, string_of, to_lowercase,
};

verus! {

// ─── Syntax tree ────────────────────────────────────────────────

/// What kind of nodes a query searches for.
#[derive(Debug, Clone, Copy, PartialEq, Eq, Structural)]
pub enum Target {
    Functions,
    Types,
    Modules,
    Bindings,
    All,
}

/// A comparison operator.
#[derive(Debug, Clone, Copy, PartialEq, Eq, Structural)]
pub enum CompOp {
    Eq,
    NotEq,
    Gt,
    Lt,
    Gte,
    Lte,
}

/// A comparison operand. A number is kept as the text it was written with
/// (text that `f64`'s `FromStr` accepts, see `float_text`).
#[derive(Debug)]
pub enum Value {
    String(String),
    Number(String),
    Bool(bool),
    Ident(String),
}

/// A filter condition.
#[derive(Debug)]
pub enum Condition {
    /// field OP value (e.g., `complexity > 10`)
    Comparison { field: String, op: CompOp, value: Value },
    /// predicate(args) (e.g., `calls(db.query)`, `handles(Error)`)
    Predicate { name: String, args: Vec<String> },
    /// NOT condition
    Not(Box<Condition>),
    /// name ~ "pattern"
    Regex { field: String, pattern: String },
}

/// Root of a parsed query.
#[derive(Debug)]
pub struct Query {
    pub target: Target,
    pub conditions: Vec<Condition>,
}

pub enum SpecValue {
    Str(Seq<char>),
    Number(Seq<char>),
    Bool(bool),
    Ident(Seq<char>),
}

pub enum SpecCondition {
    Comparison { field: Seq<char>, op: CompOp, value: SpecValue },
    Predicate { name: Seq<char>, args: Seq<Seq<char>> },
    Not(Box<SpecCondition>),
    Regex { field: Seq<char>, pattern: Seq<char> },
}

pub struct SpecQuery {
    pub target: Target,
    pub conditions: Seq<SpecCondition>,
}

impl View for Value {
    type V = SpecValue;

    open spec fn view(&self) -> SpecValue {
        match self {
            Value::String(s) => SpecValue::Str(s@),
            Value::Number(s) => SpecValue::Number(s@),
            Value::Bool(b) => SpecValue::Bool(*b),
            Value::Ident(s) => SpecValue::Ident(s@),
        }
    }
}

pub open spec fn strings_view(v: Seq<String>) -> Seq<Seq<char>> {
    v.map_values(|s: String| s@)
}

pub open spec fn condition_view(c: &Condition) -> SpecCondition
    decreases c,
{
    match c {
        Condition::Comparison { field, op, value } => SpecCondition::Comparison {
            field: field@,
            op: *op,
            value: value@,
        },
        Condition::Predicate { name, args } => SpecCondition::Predicate {
            name: name@,
            args: strings_view(args@),
        },
        Condition::Not(inner) => SpecCondition::Not(Box::new(condition_view(&**inner))),
        Condition::Regex { field, pattern } => SpecCondition::Regex {
            field: field@,
            pattern: pattern@,
        },
    }
}

impl View for Condition {
    type V = SpecCondition;

    open spec fn view(&self) -> SpecCondition {
        condition_view(self)
    }
}

pub open spec fn conditions_view(v: Seq<Condition>) -> Seq<SpecCondition> {
    v.map_values(|c: Condition| c@)
}

impl View for Query {
    type V = SpecQuery;

    open spec fn view(&self) -> SpecQuery {
        SpecQuery { target: self.target, conditions: conditions_view(self.conditions@) }
    }
}

// ─── Tokens ─────────────────────────────────────────────────────

/// A lexical token. A number literal is kept as its text.
#[derive(Debug)]
pub enum Token {
    Find,
    Where,
    And,
    Or,
    Not,
    Ident(String),
    StringLit(String),
    NumberLit(String),
    BoolLit(bool),
    Eq,
    NotEq,
    Gt,
    Lt,
    Gte,
    Lte,
    Tilde,
    LParen,
    RParen,
    Comma,
    Eof,
}

pub enum SpecToken {
    Find,
    Where,
    And,
    Or,
    Not,
    Ident(Seq<char>),
    StringLit(Seq<char>),
    NumberLit(Seq<char>),
    BoolLit(bool),
    Eq,
    NotEq,
    Gt,
    Lt,
    Gte,
    Lte,
    Tilde,
    LParen,
    RParen,
    Comma,
    Eof,
}

impl View for Token {
    type V = SpecToken;

    open spec fn view(&self) -> SpecToken {
        match self {
            Token::Find => SpecToken::Find,
            Token::Where => SpecToken::Where,
            Token::And => SpecToken::And,
            Token::Or => SpecToken::Or,
            Token::Not => SpecToken::Not,
            Token::Ident(s) => SpecToken::Ident(s@),
            Token::StringLit(s) => SpecToken::StringLit(s@),
            Token::NumberLit(s) => SpecToken::NumberLit(s@),
            Token::BoolLit(b) => SpecToken::BoolLit(*b),
            Token::Eq => SpecToken::Eq,
            Token::NotEq => SpecToken::NotEq,
            Token::Gt => SpecToken::Gt,
            Token::Lt => SpecToken::Lt,
            Token::Gte => SpecToken::Gte,
            Token::Lte => SpecToken::Lte,
            Token::Tilde => SpecToken::Tilde,
            Token::LParen => SpecToken::LParen,
            Token::RParen => SpecToken::RParen,
            Token::Comma => SpecToken::Comma,
            Token::Eof => SpecToken::Eof,
        }
    }
}

impl Token {
    /// A copy of the token.
    pub fn duplicate(&self) -> (r: Token)
        ensures
            r@ == self@,
    {
        match self {
            Token::Find => Token::Find,
            Token::Where => Token::Where,
            Token::And => Token::And,
            Token::Or => Token::Or,
            Token::Not => Token::Not,
            Token::Ident(s) => Token::Ident(s.clone()),
            Token::StringLit(s) => Token::StringLit(s.clone()),
            Token::NumberLit(s) => Token::NumberLit(s.clone()),
            Token::BoolLit(b) => Token::BoolLit(*b),
            Token::Eq => Token::Eq,
            Token::NotEq => Token::NotEq,
            Token::Gt => Token::Gt,
            Token::Lt => Token::Lt,
            Token::Gte => Token::Gte,
            Token::Lte => Token::Lte,
            Token::Tilde => Token::Tilde,
            Token::LParen => Token::LParen,
            Token::RParen => Token::RParen,
            Token::Comma => Token::Comma,
            Token::Eof => Token::Eof,
        }
    }
}

pub open spec fn tokens_view(v: Seq<Token>) -> Seq<SpecToken> {
    v.map_values(|t: Token| t@)
}

/// Why a query was rejected.
#[derive(Debug)]
pub enum ParseError {
    /// `!` not followed by `=`.
    BangWithoutEq,
    /// A run of digits and dots that is not a number.
    InvalidNumber,
    /// A character that starts no token.
    UnexpectedChar(char),
    /// An identifier was expected; the token found instead.
    ExpectedIdentifier(Token),
    /// The target word is none of the known ones.
    UnknownTarget(String),
    /// A token that cannot stand among predicate arguments.
    UnexpectedPredicateArg(Token),
    /// No pattern after `~`.
    ExpectedPattern(Token),
    /// No operator after the field name.
    ExpectedOperator(String, Token),
    /// No value after the operator.
    ExpectedValue(Token),
    /// A token after the end of the query (after the target, or after the last
    /// condition).
    TrailingToken(Token),
}

pub enum SpecParseError {
    BangWithoutEq,
    InvalidNumber,
    UnexpectedChar(char),
    ExpectedIdentifier(SpecToken),
    UnknownTarget(Seq<char>),
    UnexpectedPredicateArg(SpecToken),
    ExpectedPattern(SpecToken),
    ExpectedOperator(Seq<char>, SpecToken),
    ExpectedValue(SpecToken),
    TrailingToken(SpecToken),
}

impl View for ParseError {
    type V = SpecParseError;

    open spec fn view(&self) -> SpecParseError {
        match self {
            ParseError::BangWithoutEq => SpecParseError::BangWithoutEq,
            ParseError::InvalidNumber => SpecParseError::InvalidNumber,
            ParseError::UnexpectedChar(c) => SpecParseError::UnexpectedChar(*c),
            ParseError::ExpectedIdentifier(t) => SpecParseError::ExpectedIdentifier(t@),
            ParseError::UnknownTarget(s) => SpecParseError::UnknownTarget(s@),
            ParseError::UnexpectedPredicateArg(t) => SpecParseError::UnexpectedPredicateArg(t@),
            ParseError::ExpectedPattern(t) => SpecParseError::ExpectedPattern(t@),
            ParseError::ExpectedOperator(s, t) => SpecParseError::ExpectedOperator(s@, t@),
            ParseError::ExpectedValue(t) => SpecParseError::ExpectedValue(t@),
            ParseError::TrailingToken(t) => SpecParseError::TrailingToken(t@),
        }
    }
}

// ─── Character classes and number text ──────────────────────────

pub open spec fn is_digit(c: char) -> bool {
    '0' <= c && c <= '9'
}

pub open spec fn is_number_char(c: char) -> bool {
    is_digit(c) || c == '.'
}

pub open spec fn is_ident_start(c: char) -> bool {
    is_alphanumeric_spec(c) || c == '_' || c == '.' || c == ':' || c == '*'
}

pub open spec fn is_ident_char(c: char) -> bool {
    is_ident_start(c) || c == '/'
}

pub open spec fn number_chars() -> spec_fn(char) -> bool {
    |c: char| is_number_char(c)
}

pub open spec fn ident_chars() -> spec_fn(char) -> bool {
    |c: char| is_ident_char(c)
}

pub open spec fn not_char(q: char) -> spec_fn(char) -> bool {
    |c: char| c != q
}

/// `c` equals the lowercase ASCII letter or symbol `w`, ignoring ASCII case.
pub open spec fn eq_ignore_case_char(c: char, w: char) -> bool {
    c == w || ('A' <= c && c <= 'Z' && (c as u32) + 32 == (w as u32))
}

pub open spec fn eq_ignore_case(s: Seq<char>, w: Seq<char>) -> bool {
    s.len() == w.len() && forall|i: int| 0 <= i < s.len() ==> eq_ignore_case_char(s[i], w[i])
}

/// Digits and dots, at most one dot, at least one digit.
pub open spec fn is_mantissa(m: Seq<char>) -> bool {
    &&& forall|i: int| 0 <= i < m.len() ==> is_number_char(#[trigger] m[i])
    &&& forall|i: int, j: int| 0 <= i < j < m.len() ==> !(#[trigger] m[i] == '.' && #[trigger] m[j] == '.')
    &&& exists|i: int| 0 <= i < m.len() && is_digit(#[trigger] m[i])
}

pub open spec fn all_digits(d: Seq<char>) -> bool {
    forall|i: int| 0 <= i < d.len() ==> is_digit(#[trigger] d[i])
}

/// What follows `e` or `E` and an optional sign.
pub open spec fn exponent_digits(x: Seq<char>) -> Seq<char> {
    if x[1] == '+' || x[1] == '-' { x.skip(2) } else { x.skip(1) }
}

/// `e` or `E`, an optional sign, and at least one digit.
pub open spec fn is_exponent(x: Seq<char>) -> bool {
    x.len() >= 2 && (x[0] == 'e' || x[0] == 'E') && exponent_digits(x).len() >= 1
        && all_digits(exponent_digits(x))
}

/// Text that `f64`'s `FromStr` accepts, as its documentation gives the grammar:
/// an optional sign, then `inf`, `infinity` or `nan` in any ASCII case, or digits
/// with at most one dot (at least one digit) and an optional exponent.
pub open spec fn float_text(s: Seq<char>) -> bool {
    let body = if s.len() > 0 && (s[0] == '+' || s[0] == '-') { s.skip(1) } else { s };
    let m = run_len(body, number_chars()) as int;
    ||| eq_ignore_case(body, "inf"@)
    ||| eq_ignore_case(body, "infinity"@)
    ||| eq_ignore_case(body, "nan"@)
    ||| is_mantissa(body.take(m)) && (m == body.len() || is_exponent(body.skip(m)))
}

// ─── Tokenizer (specification) ──────────────────────────────────

pub open spec fn prepend(t: SpecToken, r: Result<Seq<SpecToken>, SpecParseError>) -> Result<Seq<SpecToken>, SpecParseError> {
    match r {
        Ok(ts) => Ok(seq![t] + ts),
        Err(e) => Err(e),
    }
}

/// The token that a word of identifier characters stands for: a keyword, a
/// boolean literal (both by their lowercase form), or an identifier.
pub open spec fn word_token(w: Seq<char>) -> SpecToken {
    let l = lowercase_spec(w);
    if l == "find"@ {
        SpecToken::Find
    } else if l == "where"@ {
        SpecToken::Where
    } else if l == "and"@ {
        SpecToken::And
    } else if l == "or"@ {
        SpecToken::Or
    } else if l == "not"@ {
        SpecToken::Not
    } else if l == "true"@ {
        SpecToken::BoolLit(true)
    } else if l == "false"@ {
        SpecToken::BoolLit(false)
    } else {
        SpecToken::Ident(w)
    }
}

/// Keywords, boolean literals and target names are read by their lowercase form:
/// two words with the same lowercase form give the same keyword or literal and
/// name the same target.
pub proof fn law_keywords_ignore_case(w1: Seq<char>, w2: Seq<char>)
    requires
        lowercase_spec(w1) == lowercase_spec(w2),
    ensures
        (word_token(w1) is Ident) == (word_token(w2) is Ident),
        !(word_token(w1) is Ident) ==> word_token(w1) == word_token(w2),
        target_of(w1) == target_of(w2),
{
}

/// The tokens of `s`, without the final `Eof`, or why `s` has none.
pub open spec fn lex(s: Seq<char>) -> Result<Seq<SpecToken>, SpecParseError>
    decreases s.len(),
{
    if s.len() == 0 {
        Ok(seq![])
    } else {
        let c = s[0];
        if c == ' ' || c == '\t' || c == '\n' || c == '\r' {
            lex(s.skip(1))
        } else if c == '(' {
            prepend(SpecToken::LParen, lex(s.skip(1)))
        } else if c == ')' {
            prepend(SpecToken::RParen, lex(s.skip(1)))
        } else if c == ',' {
            prepend(SpecToken::Comma, lex(s.skip(1)))
        } else if c == '~' {
            prepend(SpecToken::Tilde, lex(s.skip(1)))
        } else if c == '=' {
            prepend(SpecToken::Eq, lex(s.skip(1)))
        } else if c == '!' {
            if s.len() > 1 && s[1] == '=' {
                prepend(SpecToken::NotEq, lex(s.skip(2)))
            } else {
                Err(SpecParseError::BangWithoutEq)
            }
        } else if c == '>' {
            if s.len() > 1 && s[1] == '=' {
                prepend(SpecToken::Gte, lex(s.skip(2)))
            } else {
                prepend(SpecToken::Gt, lex(s.skip(1)))
            }
        } else if c == '<' {
            if s.len() > 1 && s[1] == '=' {
                prepend(SpecToken::Lte, lex(s.skip(2)))
            } else {
                prepend(SpecToken::Lt, lex(s.skip(1)))
            }
        } else if c == '"' || c == '\'' {
            // The literal runs to the next matching quote, or to the end.
            let n = run_len(s.skip(1), not_char(c)) as int;
            let next = if 1 + n < s.len() { 2 + n } else { 1 + n };
            proof {
                lemma_run_len_bounds(s.skip(1), not_char(c));
            }
            prepend(SpecToken::StringLit(s.subrange(1, 1 + n)), lex(s.skip(next)))
        } else if is_digit(c) {
            let n = run_len(s, number_chars()) as int;
            proof {
                lemma_run_len_bounds(s, number_chars());
            }
            if float_text(s.take(n)) {
                prepend(SpecToken::NumberLit(s.take(n)), lex(s.skip(n)))
            } else {
                Err(SpecParseError::InvalidNumber)
            }
        } else if is_ident_start(c) {
            let n = run_len(s, ident_chars()) as int;
            proof {
                lemma_run_len_bounds(s, ident_chars());
            }
            prepend(word_token(s.take(n)), lex(s.skip(n)))
        } else {
            Err(SpecParseError::UnexpectedChar(c))
        }
    }
}

// ─── Tokenizer (implementation) ─────────────────────────────────

#[derive(Clone, Copy)]
enum CharClass {
    Number,
    Ident,
    NotQuote(char),
}

spec fn class_pred(k: CharClass) -> spec_fn(char) -> bool {
    match k {
        CharClass::Number => number_chars(),
        CharClass::Ident => ident_chars(),
        CharClass::NotQuote(q) => not_char(q),
    }
}

fn in_class(k: CharClass, c: char) -> (r: bool)
    ensures
        r == class_pred(k)(c),
{
    match k {
        CharClass::Number => ('0' <= c && c <= '9') || c == '.',
        CharClass::Ident => is_alphanumeric(c) || c == '_' || c == '.' || c == ':' || c == '*' || c == '/',
        CharClass::NotQuote(q) => c != q,
    }
}

/// End of the run of characters of class `k` that starts at `start`.
fn scan(s: &[char], start: usize, k: CharClass) -> (end: usize)
    requires
        start <= s.len(),
    ensures
        start <= end <= s.len(),
        end - start == run_len(s@.skip(start as int), class_pred(k)),
{
    let mut j: usize = start;
    while j < s.len() && in_class(k, s[j])
        invariant
            start <= j <= s.len(),
            run_len(s@.skip(start as int), class_pred(k)) == (j - start) + run_len(s@.skip(j as int), class_pred(k)),
        decreases s.len() - j,
    {
        assert(s@.skip(j as int).drop_first() =~= s@.skip(j + 1));
        j = j + 1;
    }
    j
}

pub(crate) fn eq_ignore_case_lit(v: &[char], lit: &str) -> (r: bool)
    ensures
        r == eq_ignore_case(v@, lit@),
{
    let w = chars_of(lit);
    if v.len() != w.len() {
        return false;
    }
    let mut i: usize = 0;
    while i < v.len()
        invariant
            v@.len() == w@.len(),
            w@ == lit@,
            i <= v@.len(),
            forall|k: int| 0 <= k < i ==> eq_ignore_case_char(v@[k], w@[k]),
        decreases v.len() - i,
    {
        let c = v[i];
        let d = w[i];
        if !(c == d || ('A' <= c && c <= 'Z' && (c as u32) + 32 == (d as u32))) {
            assert(!eq_ignore_case_char(v@[i as int], w@[i as int]));
            return false;
        }
        i = i + 1;
    }
    true
}

/// Whether `x[..m]` is a mantissa, given that it is a run of digits and dots.
fn mantissa_ok(x: &[char], m: usize) -> (r: bool)
    requires
        m <= x.len(),
        forall|i: int| 0 <= i < m ==> is_number_char(#[trigger] x@[i]),
    ensures
        r == is_mantissa(x@.take(m as int)),
{
    let ghost t = x@.take(m as int);
    let mut seen_dot = false;
    let mut seen_digit = false;
    let mut i: usize = 0;
    while i < m
        invariant
            m <= x.len(),
            t == x@.take(m as int),
            forall|k: int| 0 <= k < m ==> is_number_char(#[trigger] x@[k]),
            i <= m,
            seen_dot <==> exists|k: int| 0 <= k < i && #[trigger] t[k] == '.',
            seen_digit <==> exists|k: int| 0 <= k < i && is_digit(#[trigger] t[k]),
            forall|k: int, l: int| 0 <= k < l < i ==> !(#[trigger] t[k] == '.' && #[trigger] t[l] == '.'),
        decreases m - i,
    {
        let c = x[i];
        assert(t[i as int] == c);
        if c == '.' {
            if seen_dot {
                let ghost k = choose|k: int| 0 <= k < i && #[trigger] t[k] == '.';
                assert(t[k] == '.' && t[i as int] == '.');
                return false;
            }
            seen_dot = true;
        } else {
            seen_digit = true;
        }
        i = i + 1;
    }
    proof {
        assert forall|k: int| 0 <= k < t.len() implies is_number_char(#[trigger] t[k]) by {
            assert(t[k] == x@[k]);
        }
    }
    seen_digit
}

/// Whether `x[m..]` is an exponent.
fn exponent_ok(x: &[char], m: usize) -> (r: bool)
    requires
        m <= x.len(),
    ensures
        r == is_exponent(x@.skip(m as int)),
{
    let ghost e = x@.skip(m as int);
    if x.len() - m < 2 {
        return false;
    }
    if !(x[m] == 'e' || x[m] == 'E') {
        return false;
    }
    assert(e[0] == x@[m as int] && e[1] == x@[m + 1]);
    let start: usize = if x[m + 1] == '+' || x[m + 1] == '-' { m + 2 } else { m + 1 };
    let ghost d = exponent_digits(e);
    assert(d =~= x@.skip(start as int));
    if start >= x.len() {
        return false;
    }
    assert(is_exponent(e) == all_digits(d));
    let mut i: usize = start;
    while i < x.len()
        invariant
            start <= i <= x.len(),
            d == x@.skip(start as int),
            is_exponent(x@.skip(m as int)) == all_digits(d),
            forall|k: int| 0 <= k < i - start ==> is_digit(#[trigger] d[k]),
        decreases x.len() - i,
    {
        if !('0' <= x[i] && x[i] <= '9') {
            assert(d[i - start] == x@[i as int]);
            return false;
        }
        i = i + 1;
    }
    true
}

/// Whether `s` is text that `f64`'s `FromStr` accepts.
pub fn is_float_text(s: &[char]) -> (r: bool)
    ensures
        r == float_text(s@),
{
    let b: usize = if s.len() > 0 && (s[0] == '+' || s[0] == '-') { 1 } else { 0 };
    let body = copy_range(s, b, s.len());
    proof {
        let ghost sb = if s@.len() > 0 && (s@[0] == '+' || s@[0] == '-') { s@.skip(1) } else { s@ };
        assert(body@ =~= sb);
    }
    if eq_ignore_case_lit(body.as_slice(), "inf") || eq_ignore_case_lit(body.as_slice(), "infinity")
        || eq_ignore_case_lit(body.as_slice(), "nan") {
        return true;
    }
    let m = scan(body.as_slice(), 0, CharClass::Number);
    proof {
        assert(body@.skip(0) =~= body@);
        lemma_run_len_bounds(body@, number_chars());
        assert forall|i: int| 0 <= i < m implies is_number_char(#[trigger] body@[i]) by {
            assert(number_chars()(body@[i]));
        }
    }
    if !mantissa_ok(body.as_slice(), m) {
        return false;
    }
    if m == body.len() {
        return true;
    }
    exponent_ok(body.as_slice(), m)
}

/// The token for a word of identifier characters.
fn word_to_token(w: &[char]) -> (t: Token)
    ensures
        t@ == word_token(w@),
{
    let ws = string_of(w);
    let l = to_lowercase(ws.as_str());
    let lc = chars_of(l.as_str());
    if eq_lit(lc.as_slice(), "find") {
        Token::Find
    } else if eq_lit(lc.as_slice(), "where") {
        Token::Where
    } else if eq_lit(lc.as_slice(), "and") {
        Token::And
    } else if eq_lit(lc.as_slice(), "or") {
        Token::Or
    } else if eq_lit(lc.as_slice(), "not") {
        Token::Not
    } else if eq_lit(lc.as_slice(), "true") {
        Token::BoolLit(true)
    } else if eq_lit(lc.as_slice(), "false") {
        Token::BoolLit(false)
    } else {
        Token::Ident(ws)
    }
}

/// Reads the token that starts at `i`: gives it (or none, for white space) and
/// where the next one starts.
fn lex_one(s: &[char], i: usize) -> (r: Result<(Option<Token>, usize), ParseError>)
    requires
        i < s.len(),
    ensures
        match r {
            Ok((Some(t), j)) => i < j <= s.len() && lex(s@.skip(i as int)) == prepend(t@, lex(s@.skip(j as int))),
            Ok((None, j)) => i < j <= s.len() && lex(s@.skip(i as int)) == lex(s@.skip(j as int)),
            Err(e) => lex(s@.skip(i as int)) == Err::<Seq<SpecToken>, SpecParseError>(e@),
        },
{
    let ghost u = s@.skip(i as int);
    let c = s[i];
    assert(u[0] == c);
    assert(u.skip(1) =~= s@.skip(i + 1));
    if c == ' ' || c == '\t' || c == '\n' || c == '\r' {
        return Ok((None, i + 1));
    }
    if c == '(' {
        return Ok((Some(Token::LParen), i + 1));
    }
    if c == ')' {
        return Ok((Some(Token::RParen), i + 1));
    }
    if c == ',' {
        return Ok((Some(Token::Comma), i + 1));
    }
    if c == '~' {
        return Ok((Some(Token::Tilde), i + 1));
    }
    if c == '=' {
        return Ok((Some(Token::Eq), i + 1));
    }
    if c == '!' || c == '>' || c == '<' {
        let followed = i + 1 < s.len() && s[i + 1] == '=';
        proof {
            if i + 1 < s.len() {
                assert(u.skip(2) =~= s@.skip(i + 2));
                assert(u[1] == s@[i + 1]);
            }
        }
        if c == '!' {
            if followed {
                return Ok((Some(Token::NotEq), i + 2));
            }
            return Err(ParseError::BangWithoutEq);
        } else if c == '>' {
            if followed {
                return Ok((Some(Token::Gte), i + 2));
            }
            return Ok((Some(Token::Gt), i + 1));
        } else {
            if followed {
                return Ok((Some(Token::Lte), i + 2));
            }
            return Ok((Some(Token::Lt), i + 1));
        }
    }
    if c == '"' || c == '\'' {
        let end = scan(s, i + 1, CharClass::NotQuote(c));
        let body = copy_range(s, i + 1, end);
        let next = if end < s.len() { end + 1 } else { end };
        proof {
            let n = end - (i + 1);
            lemma_run_len_bounds(u.skip(1), not_char(c));
            assert(u.subrange(1, 1 + n) =~= s@.subrange(i + 1, end as int));
            assert(u.skip(next - i) =~= s@.skip(next as int));
        }
        return Ok((Some(Token::StringLit(string_of(body.as_slice()))), next));
    }
    if '0' <= c && c <= '9' {
        let end = scan(s, i, CharClass::Number);
        let run = copy_range(s, i, end);
        proof {
            lemma_run_len_bounds(u, number_chars());
            assert(u.take(end - i) =~= s@.subrange(i as int, end as int));
            assert(u.skip(end - i) =~= s@.skip(end as int));
        }
        if is_float_text(run.as_slice()) {
            return Ok((Some(Token::NumberLit(string_of(run.as_slice()))), end));
        }
        return Err(ParseError::InvalidNumber);
    }
    if is_alphanumeric(c) || c == '_' || c == '.' || c == ':' || c == '*' {
        let end = scan(s, i, CharClass::Ident);
        let run = copy_range(s, i, end);
        proof {
            lemma_run_len_bounds(u, ident_chars());
            assert(u.take(end - i) =~= s@.subrange(i as int, end as int));
            assert(u.skip(end - i) =~= s@.skip(end as int));
        }
        return Ok((Some(word_to_token(run.as_slice())), end));
    }
    Err(ParseError::UnexpectedChar(c))
}

/// The tokens of `s` followed by `Eof`, or why `s` has none.
pub open spec fn lex_all(s: Seq<char>) -> Result<Seq<SpecToken>, SpecParseError> {
    match lex(s) {
        Ok(ts) => Ok(ts.push(SpecToken::Eof)),
        Err(e) => Err(e),
    }
}

pub open spec fn joined(toks: Seq<SpecToken>, r: Result<Seq<SpecToken>, SpecParseError>) -> Result<Seq<SpecToken>, SpecParseError> {
    match r {
        Ok(ts) => Ok(toks + ts),
        Err(e) => Err(e),
    }
}

proof fn lemma_joined_prepend(toks: Seq<SpecToken>, t: SpecToken, r: Result<Seq<SpecToken>, SpecParseError>)
    ensures
        joined(toks, prepend(t, r)) == joined(toks.push(t), r),
{
    if let Ok(ts) = r {
        assert(toks + (seq![t] + ts) =~= toks.push(t) + ts);
    }
}

/// Splits a query into tokens, ending with `Eof`.
pub fn tokenize(input: &str) -> (r: Result<Vec<Token>, ParseError>)
    ensures
        match r {
            Ok(v) => lex_all(input@) == Ok::<Seq<SpecToken>, SpecParseError>(tokens_view(v@)),
            Err(e) => lex_all(input@) == Err::<Seq<SpecToken>, SpecParseError>(e@),
        },
{
    let s = chars_of(input);
    let mut tokens: Vec<Token> = Vec::new();
    let mut i: usize = 0;
    proof {
        assert(s@.skip(0) =~= s@);
        assert(tokens_view(tokens@) + Seq::<SpecToken>::empty() =~= tokens_view(tokens@));
    }
    while i < s.len()
        invariant
            s@ == input@,
            i <= s.len(),
            lex(s@) == joined(tokens_view(tokens@), lex(s@.skip(i as int))),
        decreases s.len() - i,
    {
        match lex_one(s.as_slice(), i) {
            Ok((Some(t), j)) => {
                proof {
                    lemma_joined_prepend(tokens_view(tokens@), t@, lex(s@.skip(j as int)));
                }
                let ghost before = tokens_view(tokens@);
                let ghost tv = t@;
                tokens.push(t);
                assert(tokens_view(tokens@) =~= before.push(tv));
                i = j;
            }
            Ok((None, j)) => {
                i = j;
            }
            Err(e) => {
                return Err(e);
            }
        }
    }
    proof {
        assert(s@.skip(i as int) =~= Seq::<char>::empty());
        assert(tokens_view(tokens@) + Seq::<SpecToken>::empty() =~= tokens_view(tokens@));
    }
    let ghost before = tokens_view(tokens@);
    tokens.push(Token::Eof);
    proof {
        assert(tokens_view(tokens@) =~= before.push(SpecToken::Eof));
    }
    Ok(tokens)
}

// ─── Parser (specification) ─────────────────────────────────────

/// The token at `pos`; past the end there is only `Eof`.
pub open spec fn tok_at(t: Seq<SpecToken>, pos: int) -> SpecToken {
    if 0 <= pos < t.len() {
        t[pos]
    } else {
        SpecToken::Eof
    }
}

/// The target a word names, compared by its lowercase form.
pub open spec fn target_of(name: Seq<char>) -> Option<Target> {
    let l = lowercase_spec(name);
    if l == "functions"@ || l == "function"@ || l == "fn"@ || l == "fns"@ || l == "methods"@ {
        Some(Target::Functions)
    } else if l == "types"@ || l == "type"@ || l == "structs"@ || l == "classes"@ || l == "interfaces"@ {
        Some(Target::Types)
    } else if l == "modules"@ || l == "module"@ || l == "mod"@ {
        Some(Target::Modules)
    } else if l == "bindings"@ || l == "binding"@ || l == "vars"@ || l == "constants"@ {
        Some(Target::Bindings)
    } else if l == "all"@ || l == "*"@ {
        Some(Target::All)
    } else {
        None
    }
}

pub open spec fn parse_target_spec(t: Seq<SpecToken>, pos: int) -> Result<(Target, int), SpecParseError> {
    match tok_at(t, pos) {
        SpecToken::Ident(name) => match target_of(name) {
            Some(tg) => Ok((tg, pos + 1)),
            None => Err(SpecParseError::UnknownTarget(name)),
        },
        other => Err(SpecParseError::ExpectedIdentifier(other)),
    }
}

pub open spec fn op_of(tok: SpecToken) -> Option<CompOp> {
    match tok {
        SpecToken::Eq => Some(CompOp::Eq),
        SpecToken::NotEq => Some(CompOp::NotEq),
        SpecToken::Gt => Some(CompOp::Gt),
        SpecToken::Lt => Some(CompOp::Lt),
        SpecToken::Gte => Some(CompOp::Gte),
        SpecToken::Lte => Some(CompOp::Lte),
        _ => None,
    }
}

/// The operand a token stands for; an identifier that reads as a number is one.
pub open spec fn value_of(tok: SpecToken) -> Option<SpecValue> {
    match tok {
        SpecToken::StringLit(s) => Some(SpecValue::Str(s)),
        SpecToken::NumberLit(n) => Some(SpecValue::Number(n)),
        SpecToken::BoolLit(b) => Some(SpecValue::Bool(b)),
        SpecToken::Ident(s) => if float_text(s) {
            Some(SpecValue::Number(s))
        } else {
            Some(SpecValue::Ident(s))
        },
        _ => None,
    }
}

/// Predicate arguments from `pos` up to `)` or the end; `acc` holds those read so far.
/// Gives the arguments and the position after the closing `)` (or of `Eof`).
pub open spec fn parse_args_spec(t: Seq<SpecToken>, pos: int, acc: Seq<Seq<char>>) -> Result<(Seq<Seq<char>>, int), SpecParseError>
    decreases t.len() - pos,
{
    if pos < 0 || pos >= t.len() {
        Ok((acc, pos))
    } else {
        match t[pos] {
            SpecToken::RParen => Ok((acc, pos + 1)),
            SpecToken::Eof => Ok((acc, pos)),
            SpecToken::Ident(s) => parse_args_spec(t, pos + 1, acc.push(s)),
            SpecToken::StringLit(s) => parse_args_spec(t, pos + 1, acc.push(s)),
            SpecToken::NumberLit(s) => parse_args_spec(t, pos + 1, acc.push(s)),
            SpecToken::Comma => parse_args_spec(t, pos + 1, acc),
            other => Err(SpecParseError::UnexpectedPredicateArg(other)),
        }
    }
}

/// One condition starting at `pos`, and the position after it.
pub open spec fn parse_condition_spec(t: Seq<SpecToken>, pos: int) -> Result<(SpecCondition, int), SpecParseError>
    decreases t.len() - pos,
{
    if 0 <= pos < t.len() && t[pos] is Not {
        match parse_condition_spec(t, pos + 1) {
            Ok((c, p)) => Ok((SpecCondition::Not(Box::new(c)), p)),
            Err(e) => Err(e),
        }
    } else {
        match tok_at(t, pos) {
            SpecToken::Ident(name) => {
                let p1 = pos + 1;
                if tok_at(t, p1) is LParen {
                    match parse_args_spec(t, p1 + 1, seq![]) {
                        Ok((args, p)) => Ok((SpecCondition::Predicate { name, args }, p)),
                        Err(e) => Err(e),
                    }
                } else if tok_at(t, p1) is Tilde {
                    match tok_at(t, p1 + 1) {
                        SpecToken::StringLit(s) => Ok((SpecCondition::Regex { field: name, pattern: s }, p1 + 2)),
                        SpecToken::Ident(s) => Ok((SpecCondition::Regex { field: name, pattern: s }, p1 + 2)),
                        other => Err(SpecParseError::ExpectedPattern(other)),
                    }
                } else {
                    match op_of(tok_at(t, p1)) {
                        None => Err(SpecParseError::ExpectedOperator(name, tok_at(t, p1))),
                        Some(op) => match value_of(tok_at(t, p1 + 1)) {
                            Some(v) => Ok((SpecCondition::Comparison { field: name, op, value: v }, p1 + 2)),
                            None => Err(SpecParseError::ExpectedValue(tok_at(t, p1 + 1))),
                        },
                    }
                }
            },
            other => Err(SpecParseError::ExpectedIdentifier(other)),
        }
    }
}

pub proof fn lemma_args_progress(t: Seq<SpecToken>, pos: int, acc: Seq<Seq<char>>)
    requires
        0 <= pos <= t.len(),
    ensures
        parse_args_spec(t, pos, acc) matches Ok((a, p)) ==> pos <= p <= t.len(),
    decreases t.len() - pos,
{
    if pos < t.len() {
        match t[pos] {
            SpecToken::Ident(s) => lemma_args_progress(t, pos + 1, acc.push(s)),
            SpecToken::StringLit(s) => lemma_args_progress(t, pos + 1, acc.push(s)),
            SpecToken::NumberLit(s) => lemma_args_progress(t, pos + 1, acc.push(s)),
            SpecToken::Comma => lemma_args_progress(t, pos + 1, acc),
            _ => {},
        }
    }
}

/// A condition that parses consumes at least one token and stays within the tokens.
pub proof fn lemma_condition_progress(t: Seq<SpecToken>, pos: int)
    requires
        0 <= pos <= t.len(),
    ensures
        parse_condition_spec(t, pos) matches Ok((c, p)) ==> pos < p <= t.len(),
    decreases t.len() - pos,
{
    if 0 <= pos < t.len() && t[pos] is Not {
        lemma_condition_progress(t, pos + 1);
    } else if pos < t.len() && tok_at(t, pos + 1) is LParen {
        lemma_args_progress(t, pos + 2, seq![]);
    }
}

/// Further `AND`-joined conditions from `pos`; `acc` holds those read so far.
pub open spec fn parse_more_spec(t: Seq<SpecToken>, pos: int, acc: Seq<SpecCondition>) -> Result<(Seq<SpecCondition>, int), SpecParseError>
    decreases t.len() - pos,
{
    if 0 <= pos < t.len() && t[pos] is And {
        proof {
            lemma_condition_progress(t, pos + 1);
        }
        match parse_condition_spec(t, pos + 1) {
            Ok((c, p)) => parse_more_spec(t, p, acc.push(c)),
            Err(e) => Err(e),
        }
    } else {
        Ok((acc, pos))
    }
}

/// A condition followed by any number of `AND condition`.
pub open spec fn parse_conditions_spec(t: Seq<SpecToken>, pos: int) -> Result<(Seq<SpecCondition>, int), SpecParseError> {
    match parse_condition_spec(t, pos) {
        Ok((c, p)) => parse_more_spec(t, p, seq![c]),
        Err(e) => Err(e),
    }
}

/// The end of a query: only `Eof` may follow what was read.
pub open spec fn at_end(t: Seq<SpecToken>, pos: int, q: SpecQuery) -> Result<SpecQuery, SpecParseError> {
    if tok_at(t, pos) is Eof {
        Ok(q)
    } else {
        Err(SpecParseError::TrailingToken(tok_at(t, pos)))
    }
}

/// A whole query: optional `FIND`, a target, then optionally `WHERE` and
/// `AND`-joined conditions, and nothing after them.
pub open spec fn parse_query_spec(t: Seq<SpecToken>) -> Result<SpecQuery, SpecParseError> {
    let p0: int = if tok_at(t, 0) is Find { 1 } else { 0 };
    match parse_target_spec(t, p0) {
        Err(e) => Err(e),
        Ok((target, p1)) => if tok_at(t, p1) is Where {
            match parse_conditions_spec(t, p1 + 1) {
                Ok((conditions, p)) => at_end(t, p, SpecQuery { target, conditions }),
                Err(e) => Err(e),
            }
        } else {
            at_end(t, p1, SpecQuery { target, conditions: seq![] })
        },
    }
}

/// What `parse` gives for the text `s`.
pub open spec fn parse_spec(s: Seq<char>) -> Result<SpecQuery, SpecParseError> {
    match lex_all(s) {
        Ok(t) => parse_query_spec(t),
        Err(e) => Err(e),
    }
}

// ─── Parser (implementation) ────────────────────────────────────

struct Parser {
    tokens: Vec<Token>,
    pos: usize,
}

/// Token sequences as the tokenizer makes them: `Eof` at the end and nowhere else.
pub open spec fn well_ended(t: Seq<SpecToken>) -> bool {
    &&& t.len() >= 1
    &&& t.last() is Eof
    &&& forall|i: int| 0 <= i < t.len() - 1 ==> !(#[trigger] t[i] is Eof)
}

impl Parser {
    spec fn toks(&self) -> Seq<SpecToken> {
        tokens_view(self.tokens@)
    }

    spec fn wf(&self) -> bool {
        well_ended(self.toks()) && self.pos < self.toks().len()
    }

    fn new(tokens: Vec<Token>) -> (p: Self)
        requires
            well_ended(tokens_view(tokens@)),
        ensures
            p.wf(),
            p.tokens@ == tokens@,
            p.pos == 0,
    {
        Self { tokens, pos: 0 }
    }

    fn peek(&self) -> (r: &Token)
        requires
            self.wf(),
        ensures
            r@ == tok_at(self.toks(), self.pos as int),
    {
        &self.tokens[self.pos]
    }

    fn advance(&mut self) -> (r: Token)
        requires
            old(self).wf(),
        ensures
            final(self).tokens@ == old(self).tokens@,
            final(self).pos == old(self).pos + 1,
            r@ == tok_at(old(self).toks(), old(self).pos as int),
            !(r@ is Eof) ==> final(self).wf(),
    {
        let tok = self.tokens[self.pos].duplicate();
        let n = self.tokens.len();
        assert(self.pos < n);
        self.pos = self.pos + 1;
        tok
    }

    fn expect_ident(&mut self) -> (r: Result<String, ParseError>)
        requires
            old(self).wf(),
        ensures
            final(self).tokens@ == old(self).tokens@,
            match tok_at(old(self).toks(), old(self).pos as int) {
                SpecToken::Ident(s) => r matches Ok(x) && x@ == s && final(self).wf()
                    && final(self).pos == old(self).pos + 1,
                other => r matches Err(e) && e@ == SpecParseError::ExpectedIdentifier(other),
            },
    {
        match self.advance() {
            Token::Ident(s) => Ok(s),
            other => Err(ParseError::ExpectedIdentifier(other)),
        }
    }

    fn parse_target(&mut self) -> (r: Result<Target, ParseError>)
        requires
            old(self).wf(),
        ensures
            final(self).tokens@ == old(self).tokens@,
            match parse_target_spec(old(self).toks(), old(self).pos as int) {
                Ok((tg, p)) => r == Ok::<Target, ParseError>(tg) && final(self).wf() && final(self).pos == p,
                Err(e) => r matches Err(x) && x@ == e,
            },
    {
        let ident = self.expect_ident()?;
        let l = to_lowercase(ident.as_str());
        let lc = chars_of(l.as_str());
        let lw = lc.as_slice();
        if eq_lit(lw, "functions") || eq_lit(lw, "function") || eq_lit(lw, "fn") || eq_lit(lw, "fns")
            || eq_lit(lw, "methods") {
            Ok(Target::Functions)
        } else if eq_lit(lw, "types") || eq_lit(lw, "type") || eq_lit(lw, "structs") || eq_lit(lw, "classes")
            || eq_lit(lw, "interfaces") {
            Ok(Target::Types)
        } else if eq_lit(lw, "modules") || eq_lit(lw, "module") || eq_lit(lw, "mod") {
            Ok(Target::Modules)
        } else if eq_lit(lw, "bindings") || eq_lit(lw, "binding") || eq_lit(lw, "vars") || eq_lit(lw, "constants") {
            Ok(Target::Bindings)
        } else if eq_lit(lw, "all") || eq_lit(lw, "*") {
            Ok(Target::All)
        } else {
            Err(ParseError::UnknownTarget(ident))
        }
    }

    fn parse_condition(&mut self) -> (r: Result<Condition, ParseError>)
        requires
            old(self).wf(),
        ensures
            final(self).tokens@ == old(self).tokens@,
            match parse_condition_spec(old(self).toks(), old(self).pos as int) {
                Ok((c, p)) => r matches Ok(x) && x@ == c && final(self).wf() && final(self).pos == p,
                Err(e) => r matches Err(x) && x@ == e,
            },
        decreases old(self).toks().len() - old(self).pos,
    {
        let ghost t = self.toks();
        let ghost tokens0 = self.tokens@;
        let ghost pos0 = self.pos as int;
        // NOT condition
        if let Token::Not = self.peek() {
            self.advance();
            let inner = self.parse_condition()?;
            return Ok(Condition::Not(Box::new(inner)));
        }
        let ident = self.expect_ident()?;
        // Predicate call: ident(args)
        if let Token::LParen = self.peek() {
            self.advance();
            let mut args: Vec<String> = Vec::new();
            proof {
                assert(strings_view(args@) =~= Seq::<Seq<char>>::empty());
            }
            loop
                invariant
                    self.wf(),
                    self.tokens@ == tokens0,
                    tokens0 == old(self).tokens@,
                    pos0 == old(self).pos,
                    t == tokens_view(tokens0),
                    pos0 + 2 <= self.pos,
                    parse_args_spec(t, pos0 + 2, seq![]) == parse_args_spec(t, self.pos as int, strings_view(args@)),
                    parse_condition_spec(t, pos0) == match parse_args_spec(t, pos0 + 2, seq![]) {
                        Ok((a, p)) => Ok((SpecCondition::Predicate { name: ident@, args: a }, p)),
                        Err(e) => Err(e),
                    },
                ensures
                    self.wf(),
                    self.tokens@ == tokens0,
                    tok_at(t, self.pos as int) is RParen || tok_at(t, self.pos as int) is Eof,
                    parse_args_spec(t, pos0 + 2, seq![]) == parse_args_spec(t, self.pos as int, strings_view(args@)),
                    parse_condition_spec(t, pos0) == match parse_args_spec(t, pos0 + 2, seq![]) {
                        Ok((a, p)) => Ok((SpecCondition::Predicate { name: ident@, args: a }, p)),
                        Err(e) => Err(e),
                    },
                decreases t.len() - self.pos,
            {
                match self.peek() {
                    Token::RParen => {
                        break;
                    },
                    Token::Eof => {
                        break;
                    },
                    _ => {},
                }
                let ghost before = strings_view(args@);
                match self.advance() {
                    Token::Ident(s) => {
                        args.push(s);
                    },
                    Token::StringLit(s) => {
                        args.push(s);
                    },
                    Token::NumberLit(n) => {
                        args.push(n);
                    },
                    Token::Comma => {},
                    other => {
                        return Err(ParseError::UnexpectedPredicateArg(other));
                    },
                }
                proof {
                    assert(strings_view(args@) =~= before || strings_view(args@) =~= before.push(args@.last()@));
                }
            }
            if let Token::RParen = self.peek() {
                self.advance();
            }
            return Ok(Condition::Predicate { name: ident, args });
        }
        // Comparison: field OP value
        let op = match self.advance() {
            Token::Eq => CompOp::Eq,
            Token::NotEq => CompOp::NotEq,
            Token::Gt => CompOp::Gt,
            Token::Lt => CompOp::Lt,
            Token::Gte => CompOp::Gte,
            Token::Lte => CompOp::Lte,
            Token::Tilde => {
                // Regex match
                let pattern = match self.advance() {
                    Token::StringLit(s) => s,
                    Token::Ident(s) => s,
                    other => {
                        return Err(ParseError::ExpectedPattern(other));
                    },
                };
                return Ok(Condition::Regex { field: ident, pattern });
            },
            other => {
                return Err(ParseError::ExpectedOperator(ident, other));
            },
        };
        let value = match self.advance() {
            Token::StringLit(s) => Value::String(s),
            Token::NumberLit(n) => Value::Number(n),
            Token::BoolLit(b) => Value::Bool(b),
            Token::Ident(s) => {
                let sc = chars_of(s.as_str());
                if is_float_text(sc.as_slice()) {
                    Value::Number(s)
                } else {
                    Value::Ident(s)
                }
            },
            other => {
                return Err(ParseError::ExpectedValue(other));
            },
        };
        Ok(Condition::Comparison { field: ident, op, value })
    }

    fn parse_conditions(&mut self) -> (r: Result<Vec<Condition>, ParseError>)
        requires
            old(self).wf(),
        ensures
            final(self).tokens@ == old(self).tokens@,
            match parse_conditions_spec(old(self).toks(), old(self).pos as int) {
                Ok((cs, p)) => r matches Ok(x) && conditions_view(x@) == cs && final(self).wf() && final(self).pos == p,
                Err(e) => r matches Err(x) && x@ == e,
            },
    {
        let ghost t = self.toks();
        let ghost tokens0 = self.tokens@;
        let ghost pos0 = self.pos as int;
        let mut conditions: Vec<Condition> = Vec::new();
        let first = self.parse_condition()?;
        conditions.push(first);
        proof {
            assert(conditions_view(conditions@) =~= seq![conditions@[0]@]);
        }
        loop
            invariant
                self.wf(),
                self.tokens@ == tokens0,
                tokens0 == old(self).tokens@,
                pos0 == old(self).pos,
                t == tokens_view(tokens0),
                parse_conditions_spec(t, pos0) == parse_more_spec(t, self.pos as int, conditions_view(conditions@)),
            ensures
                self.wf(),
                self.tokens@ == tokens0,
                !(tok_at(t, self.pos as int) is And),
                parse_conditions_spec(t, pos0) == parse_more_spec(t, self.pos as int, conditions_view(conditions@)),
            decreases t.len() - self.pos,
        {
            match self.peek() {
                Token::And => {},
                _ => {
                    break;
                },
            }
            let ghost p = self.pos as int;
            proof {
                lemma_condition_progress(t, p + 1);
            }
            self.advance();
            let ghost before = conditions_view(conditions@);
            let c = self.parse_condition()?;
            let ghost cv = c@;
            conditions.push(c);
            assert(conditions_view(conditions@) =~= before.push(cv));
        }
        Ok(conditions)
    }

    fn parse_query(&mut self) -> (r: Result<Query, ParseError>)
        requires
            old(self).wf(),
            old(self).pos == 0,
        ensures
            match parse_query_spec(old(self).toks()) {
                Ok(q) => r matches Ok(x) && x@ == q,
                Err(e) => r matches Err(x) && x@ == e,
            },
    {
        // Optional FIND keyword.
        if let Token::Find = self.peek() {
            self.advance();
        }
        // Target.
        let target = self.parse_target()?;
        // Optional WHERE clause.
        let mut conditions: Vec<Condition> = Vec::new();
        if let Token::Where = self.peek() {
            self.advance();
            conditions = self.parse_conditions()?;
        }
        proof {
            assert(conditions_view(Seq::<Condition>::empty()) =~= Seq::<SpecCondition>::empty());
        }
        match self.peek() {
            Token::Eof => Ok(Query { target, conditions }),
            other => Err(ParseError::TrailingToken(other.duplicate())),
        }
    }
}

/// Parses a query text into its syntax tree.
pub fn parse(input: &str) -> (r: Result<Query, ParseError>)
    ensures
        match parse_spec(input@) {
            Ok(q) => r matches Ok(x) && x@ == q,
            Err(e) => r matches Err(x) && x@ == e,
        },
{
    let tokens = tokenize(input)?;
    proof {
        lemma_lex_well_ended(input@);
    }
    let mut parser = Parser::new(tokens);
    parser.parse_query()
}

proof fn lemma_lex_no_eof(s: Seq<char>)
    ensures
        lex(s) matches Ok(ts) ==> forall|i: int| 0 <= i < ts.len() ==> !(#[trigger] ts[i] is Eof),
    decreases s.len(),
{
    if s.len() > 0 {
        let c = s[0];
        lemma_lex_no_eof(s.skip(1));
        if s.len() > 1 {
            lemma_lex_no_eof(s.skip(2));
        }
        if c == '"' || c == '\'' {
            let n = run_len(s.skip(1), not_char(c)) as int;
            lemma_run_len_bounds(s.skip(1), not_char(c));
            let next = if 1 + n < s.len() { 2 + n } else { 1 + n };
            lemma_lex_no_eof(s.skip(next));
        }
        if is_digit(c) {
            lemma_run_len_bounds(s, number_chars());
            lemma_lex_no_eof(s.skip(run_len(s, number_chars()) as int));
        }
        if is_ident_start(c) {
            lemma_run_len_bounds(s, ident_chars());
            lemma_lex_no_eof(s.skip(run_len(s, ident_chars()) as int));
        }
        if let Ok(ts) = lex(s) {
            assert forall|i: int| 0 <= i < ts.len() implies !(#[trigger] ts[i] is Eof) by {
                if i > 0 {
                    let r = ts.drop_first();
                    assert(ts[i] == r[i - 1]);
                }
            }
        }
    }
}

proof fn lemma_lex_well_ended(s: Seq<char>)
    ensures
        lex_all(s) matches Ok(t) ==> well_ended(t),
{
    lemma_lex_no_eof(s);
    if let Ok(ts) = lex(s) {
        let t = ts.push(SpecToken::Eof);
        assert forall|i: int| 0 <= i < t.len() - 1 implies !(#[trigger] t[i] is Eof) by {
            assert(t[i] == ts[i]);
        }
    }
}

/// The target words: `FIND functions` (or `function`, `fn`, `fns`, `methods`)
/// searches functions; `types` (`type`, `structs`, `classes`, `interfaces`) data
/// types; `modules` (`module`, `mod`) modules; `bindings` (`binding`, `vars`,
/// `constants`) bindings; `all` (`*`) everything. Each word is read by its
/// lowercase form, and `FIND` may be left out.
pub proof fn law_target_words(w: Seq<char>)
    ensures
        (lowercase_spec(w) == "functions"@ || lowercase_spec(w) == "function"@ || lowercase_spec(w) == "fn"@ || lowercase_spec(w) == "fns"@ || lowercase_spec(w) == "methods"@) ==> parse_query_spec(seq![SpecToken::Find, SpecToken::Ident(w), SpecToken::Eof])
            == Ok::<SpecQuery, SpecParseError>(SpecQuery { target: Target::Functions, conditions: seq![] }),
        (lowercase_spec(w) == "functions"@ || lowercase_spec(w) == "function"@ || lowercase_spec(w) == "fn"@ || lowercase_spec(w) == "fns"@ || lowercase_spec(w) == "methods"@) ==> parse_query_spec(seq![SpecToken::Ident(w), SpecToken::Eof])
            == Ok::<SpecQuery, SpecParseError>(SpecQuery { target: Target::Functions, conditions: seq![] }),
        (lowercase_spec(w) == "types"@ || lowercase_spec(w) == "type"@ || lowercase_spec(w) == "structs"@ || lowercase_spec(w) == "classes"@ || lowercase_spec(w) == "interfaces"@) ==> parse_query_spec(seq![SpecToken::Find, SpecToken::Ident(w), SpecToken::Eof])
            == Ok::<SpecQuery, SpecParseError>(SpecQuery { target: Target::Types, conditions: seq![] }),
        (lowercase_spec(w) == "types"@ || lowercase_spec(w) == "type"@ || lowercase_spec(w) == "structs"@ || lowercase_spec(w) == "classes"@ || lowercase_spec(w) == "interfaces"@) ==> parse_query_spec(seq![SpecToken::Ident(w), SpecToken::Eof])
            == Ok::<SpecQuery, SpecParseError>(SpecQuery { target: Target::Types, conditions: seq![] }),
        (lowercase_spec(w) == "modules"@ || lowercase_spec(w) == "module"@ || lowercase_spec(w) == "mod"@) ==> parse_query_spec(seq![SpecToken::Find, SpecToken::Ident(w), SpecToken::Eof])
            == Ok::<SpecQuery, SpecParseError>(SpecQuery { target: Target::Modules, conditions: seq![] }),
        (lowercase_spec(w) == "modules"@ || lowercase_spec(w) == "module"@ || lowercase_spec(w) == "mod"@) ==> parse_query_spec(seq![SpecToken::Ident(w), SpecToken::Eof])
            == Ok::<SpecQuery, SpecParseError>(SpecQuery { target: Target::Modules, conditions: seq![] }),
        (lowercase_spec(w) == "bindings"@ || lowercase_spec(w) == "binding"@ || lowercase_spec(w) == "vars"@ || lowercase_spec(w) == "constants"@) ==> parse_query_spec(seq![SpecToken::Find, SpecToken::Ident(w), SpecToken::Eof])
            == Ok::<SpecQuery, SpecParseError>(SpecQuery { target: Target::Bindings, conditions: seq![] }),
        (lowercase_spec(w) == "bindings"@ || lowercase_spec(w) == "binding"@ || lowercase_spec(w) == "vars"@ || lowercase_spec(w) == "constants"@) ==> parse_query_spec(seq![SpecToken::Ident(w), SpecToken::Eof])
            == Ok::<SpecQuery, SpecParseError>(SpecQuery { target: Target::Bindings, conditions: seq![] }),
        (lowercase_spec(w) == "all"@ || lowercase_spec(w) == "*"@) ==> parse_query_spec(seq![SpecToken::Find, SpecToken::Ident(w), SpecToken::Eof])
            == Ok::<SpecQuery, SpecParseError>(SpecQuery { target: Target::All, conditions: seq![] }),
        (lowercase_spec(w) == "all"@ || lowercase_spec(w) == "*"@) ==> parse_query_spec(seq![SpecToken::Ident(w), SpecToken::Eof])
            == Ok::<SpecQuery, SpecParseError>(SpecQuery { target: Target::All, conditions: seq![] }),
{
    reveal_strlit("functions");
    reveal_strlit("function");
    reveal_strlit("fn");
    reveal_strlit("fns");
    reveal_strlit("methods");
    reveal_strlit("types");
    reveal_strlit("type");
    reveal_strlit("structs");
    reveal_strlit("classes");
    reveal_strlit("interfaces");
    reveal_strlit("modules");
    reveal_strlit("module");
    reveal_strlit("mod");
    reveal_strlit("bindings");
    reveal_strlit("binding");
    reveal_strlit("vars");
    reveal_strlit("constants");
    reveal_strlit("all");
    reveal_strlit("*");
    lemma_target_words_distinct();
}

proof fn lemma_target_words_distinct()
    ensures
        "functions"@ != "function"@,
        "functions"@ != "fn"@,
        "functions"@ != "fns"@,
        "functions"@ != "methods"@,
        "functions"@ != "types"@,
        "functions"@ != "type"@,
        "functions"@ != "structs"@,
        "functions"@ != "classes"@,
        "functions"@ != "interfaces"@,
        "functions"@ != "modules"@,
        "functions"@ != "module"@,
        "functions"@ != "mod"@,
        "functions"@ != "bindings"@,
        "functions"@ != "binding"@,
        "functions"@ != "vars"@,
        "functions"@ != "constants"@,
        "functions"@ != "all"@,
        "functions"@ != "*"@,
        "function"@ != "fn"@,
        "function"@ != "fns"@,
        "function"@ != "methods"@,
        "function"@ != "types"@,
        "function"@ != "type"@,
        "function"@ != "structs"@,
        "function"@ != "classes"@,
        "function"@ != "interfaces"@,
        "function"@ != "modules"@,
        "function"@ != "module"@,
        "function"@ != "mod"@,
        "function"@ != "bindings"@,
        "function"@ != "binding"@,
        "function"@ != "vars"@,
        "function"@ != "constants"@,
        "function"@ != "all"@,
        "function"@ != "*"@,
        "fn"@ != "fns"@,
        "fn"@ != "methods"@,
        "fn"@ != "types"@,
        "fn"@ != "type"@,
        "fn"@ != "structs"@,
        "fn"@ != "classes"@,
        "fn"@ != "interfaces"@,
        "fn"@ != "modules"@,
        "fn"@ != "module"@,
        "fn"@ != "mod"@,
        "fn"@ != "bindings"@,
        "fn"@ != "binding"@,
        "fn"@ != "vars"@,
        "fn"@ != "constants"@,
        "fn"@ != "all"@,
        "fn"@ != "*"@,
        "fns"@ != "methods"@,
        "fns"@ != "types"@,
        "fns"@ != "type"@,
        "fns"@ != "structs"@,
        "fns"@ != "classes"@,
        "fns"@ != "interfaces"@,
        "fns"@ != "modules"@,
        "fns"@ != "module"@,
        "fns"@ != "mod"@,
        "fns"@ != "bindings"@,
        "fns"@ != "binding"@,
        "fns"@ != "vars"@,
        "fns"@ != "constants"@,
        "fns"@ != "all"@,
        "fns"@ != "*"@,
        "methods"@ != "types"@,
        "methods"@ != "type"@,
        "methods"@ != "structs"@,
        "methods"@ != "classes"@,
        "methods"@ != "interfaces"@,
        "methods"@ != "modules"@,
        "methods"@ != "module"@,
        "methods"@ != "mod"@,
        "methods"@ != "bindings"@,
        "methods"@ != "binding"@,
        "methods"@ != "vars"@,
        "methods"@ != "constants"@,
        "methods"@ != "all"@,
        "methods"@ != "*"@,
        "types"@ != "type"@,
        "types"@ != "structs"@,
        "types"@ != "classes"@,
        "types"@ != "interfaces"@,
        "types"@ != "modules"@,
        "types"@ != "module"@,
        "types"@ != "mod"@,
        "types"@ != "bindings"@,
        "types"@ != "binding"@,
        "types"@ != "vars"@,
        "types"@ != "constants"@,
        "types"@ != "all"@,
        "types"@ != "*"@,
        "type"@ != "structs"@,
        "type"@ != "classes"@,
        "type"@ != "interfaces"@,
        "type"@ != "modules"@,
        "type"@ != "module"@,
        "type"@ != "mod"@,
        "type"@ != "bindings"@,
        "type"@ != "binding"@,
        "type"@ != "vars"@,
        "type"@ != "constants"@,
        "type"@ != "all"@,
        "type"@ != "*"@,
        "structs"@ != "classes"@,
        "structs"@ != "interfaces"@,
        "structs"@ != "modules"@,
        "structs"@ != "module"@,
        "structs"@ != "mod"@,
        "structs"@ != "bindings"@,
        "structs"@ != "binding"@,
        "structs"@ != "vars"@,
        "structs"@ != "constants"@,
        "structs"@ != "all"@,
        "structs"@ != "*"@,
        "classes"@ != "interfaces"@,
        "classes"@ != "modules"@,
        "classes"@ != "module"@,
        "classes"@ != "mod"@,
        "classes"@ != "bindings"@,
        "classes"@ != "binding"@,
        "classes"@ != "vars"@,
        "classes"@ != "constants"@,
        "classes"@ != "all"@,
        "classes"@ != "*"@,
        "interfaces"@ != "modules"@,
        "interfaces"@ != "module"@,
        "interfaces"@ != "mod"@,
        "interfaces"@ != "bindings"@,
        "interfaces"@ != "binding"@,
        "interfaces"@ != "vars"@,
        "interfaces"@ != "constants"@,
        "interfaces"@ != "all"@,
        "interfaces"@ != "*"@,
        "modules"@ != "module"@,
        "modules"@ != "mod"@,
        "modules"@ != "bindings"@,
        "modules"@ != "binding"@,
        "modules"@ != "vars"@,
        "modules"@ != "constants"@,
        "modules"@ != "all"@,
        "modules"@ != "*"@,
        "module"@ != "mod"@,
        "module"@ != "bindings"@,
        "module"@ != "binding"@,
        "module"@ != "vars"@,
        "module"@ != "constants"@,
        "module"@ != "all"@,
        "module"@ != "*"@,
        "mod"@ != "bindings"@,
        "mod"@ != "binding"@,
        "mod"@ != "vars"@,
        "mod"@ != "constants"@,
        "mod"@ != "all"@,
        "mod"@ != "*"@,
        "bindings"@ != "binding"@,
        "bindings"@ != "vars"@,
        "bindings"@ != "constants"@,
        "bindings"@ != "all"@,
        "bindings"@ != "*"@,
        "binding"@ != "vars"@,
        "binding"@ != "constants"@,
        "binding"@ != "all"@,
        "binding"@ != "*"@,
        "vars"@ != "constants"@,
        "vars"@ != "all"@,
        "vars"@ != "*"@,
        "constants"@ != "all"@,
        "constants"@ != "*"@,
        "all"@ != "*"@,
{
    reveal_strlit("functions");
    reveal_strlit("function");
    reveal_strlit("fn");
    reveal_strlit("fns");
    reveal_strlit("methods");
    reveal_strlit("types");
    reveal_strlit("type");
    reveal_strlit("structs");
    reveal_strlit("classes");
    reveal_strlit("interfaces");
    reveal_strlit("modules");
    reveal_strlit("module");
    reveal_strlit("mod");
    reveal_strlit("bindings");
    reveal_strlit("binding");
    reveal_strlit("vars");
    reveal_strlit("constants");
    reveal_strlit("all");
    reveal_strlit("*");
    assert("functions"@.len() == 9);
    assert("function"@.len() == 8);
    assert("fn"@.len() == 2);
    assert("fns"@.len() == 3);
    assert("methods"@.len() == 7);
    assert("types"@.len() == 5);
    assert("type"@.len() == 4);
    assert("structs"@.len() == 7);
    assert("classes"@.len() == 7);
    assert("interfaces"@.len() == 10);
    assert("modules"@.len() == 7);
    assert("module"@.len() == 6);
    assert("mod"@.len() == 3);
    assert("bindings"@.len() == 8);
    assert("binding"@.len() == 7);
    assert("vars"@.len() == 4);
    assert("constants"@.len() == 9);
    assert("all"@.len() == 3);
    assert("*"@.len() == 1);
    assert("functions"@[0] != "constants"@[0]);
    assert("function"@[0] != "bindings"@[0]);
    assert("fns"@[0] != "mod"@[0]);
    assert("fns"@[0] != "all"@[0]);
    assert("methods"@[0] != "structs"@[0]);
    assert("methods"@[0] != "classes"@[0]);
    assert("methods"@[1] != "modules"@[1]);
    assert("methods"@[0] != "binding"@[0]);
    assert("type"@[0] != "vars"@[0]);
    assert("structs"@[0] != "classes"@[0]);
    assert("structs"@[0] != "modules"@[0]);
    assert("structs"@[0] != "binding"@[0]);
    assert("classes"@[0] != "modules"@[0]);
    assert("classes"@[0] != "binding"@[0]);
    assert("modules"@[0] != "binding"@[0]);
    assert("mod"@[0] != "all"@[0]);
}

} // verus!
