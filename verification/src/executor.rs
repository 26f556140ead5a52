//! Evaluation of parsed queries against a model of the semantic graph.
use vstd::prelude::*;
use crate::text::{
    is_first_occurrence, lemma_first_occurrence_unique, lemma_split_on_extend, lemma_split_on_none, lemma_split_on_sep, chars_of, contains_seq, eq_chars, eq_lit, find_from, first_occurrence, lemma_first_occurrence_found, lowercase_spec,
    occurs_at, push_chars, push_decimal, push_lit, seq_contains, split_on, string_of, to_lowercase, decimal,
};
use crate::parser::{
    conditions_view, eq_ignore_case, eq_ignore_case_lit, float_text, is_float_text, parse, parse_spec, strings_view,
    CompOp, Condition, ParseError, Query, SpecCondition, SpecQuery, SpecValue, Target, Value,
};
use crate::float::{f64_compare, f64_near, f64_rel, f64_wf, lemma_p2_values, p2, F64Value, Rel};
use crate::output::replace_char;

verus! {

/// Walks the `*`-separated pieces of a pattern from piece `i` on, each placed at its
/// leftmost occurrence at or after `pos`; the first piece must sit at the very start.
/// Gives the position after the last placed piece, or `None` when a piece is missing.
pub open spec fn glob_walk(parts: Seq<Seq<char>>, i: int, text: Seq<char>, pos: int) -> Option<int>
    decreases parts.len() - i,
{
    if i < 0 || i >= parts.len() {
        Some(pos)
    } else if parts[i].len() == 0 {
        glob_walk(parts, i + 1, text, pos)
    } else {
        match first_occurrence(text.subrange(pos, text.len() as int), parts[i]) {
            None => None,
            Some(idx) => if i == 0 && idx != 0 {
                None
            } else {
                glob_walk(parts, i + 1, text, pos + idx + parts[i].len())
            },
        }
    }
}

/// What `glob_match` answers: an empty pattern matches only the empty text, a
/// pattern without `*` matches every text that contains it, and otherwise the
/// pieces between `*`s are placed left to right, each at its leftmost occurrence,
/// the first anchored at the start and, unless the pattern ends with `*`, the last
/// ending at the end of the text.
pub open spec fn glob_spec(pattern: Seq<char>, text: Seq<char>) -> bool {
    if pattern.len() == 0 {
        text.len() == 0
    } else {
        let parts = split_on(pattern, '*');
        if parts.len() == 1 {
            seq_contains(text, pattern)
        } else {
            match glob_walk(parts, 0, text, 0) {
                None => false,
                Some(pos) => pattern.last() == '*' || pos == text.len(),
            }
        }
    }
}

fn split_star(p: &[char]) -> (r: Vec<Vec<char>>)
    ensures
        r@.len() == split_on(p@, '*').len(),
        forall|i: int| 0 <= i < r@.len() ==> #[trigger] r@[i]@ == split_on(p@, '*')[i],
{
    let mut parts: Vec<Vec<char>> = Vec::new();
    parts.push(Vec::new());
    let mut i: usize = 0;
    proof {
        assert(p@.take(0) =~= Seq::<char>::empty());
    }
    while i < p.len()
        invariant
            i <= p.len(),
            parts@.len() == split_on(p@.take(i as int), '*').len(),
            parts@.len() >= 1,
            forall|k: int| 0 <= k < parts@.len() ==> #[trigger] parts@[k]@ == split_on(p@.take(i as int), '*')[k],
        decreases p.len() - i,
    {
        let ghost before = p@.take(i as int);
        assert(p@.take(i + 1).drop_last() =~= before);
        assert(p@.take(i + 1).last() == p@[i as int]);
        if p[i] == '*' {
            parts.push(Vec::new());
        } else {
            let last = parts.len() - 1;
            let mut piece = parts.pop().unwrap();
            piece.push(p[i]);
            parts.push(piece);
            assert(parts@[last as int]@ == split_on(before, '*')[last as int].push(p@[i as int]));
        }
        i = i + 1;
    }
    assert(p@.take(p@.len() as int) =~= p@);
    parts
}

/// Simple glob matching: `*` stands for any run of characters.
pub fn glob_match(pattern: &str, text: &str) -> (r: bool)
    ensures
        r == glob_spec(pattern@, text@),
{
    let p = chars_of(pattern);
    let t = chars_of(text);
    if p.len() == 0 {
        return t.len() == 0;
    }
    let parts = split_star(p.as_slice());
    if parts.len() == 1 {
        proof {
            assert(parts@[0]@ == split_on(p@, '*')[0]);
        }
        return contains_seq(t.as_slice(), p.as_slice());
    }
    let mut pos: usize = 0;
    let mut i: usize = 0;
    while i < parts.len()
        invariant
            parts@.len() == split_on(p@, '*').len(),
            forall|k: int| 0 <= k < parts@.len() ==> #[trigger] parts@[k]@ == split_on(p@, '*')[k],
            i <= parts@.len(),
            pos <= t@.len(),
            i == 0 ==> pos == 0,
            p@ == pattern@,
            t@ == text@,
            p@.len() > 0,
            split_on(p@, '*').len() != 1,
            glob_walk(split_on(p@, '*'), 0, t@, 0) == glob_walk(split_on(p@, '*'), i as int, t@, pos as int),
        decreases parts.len() - i,
    {
        let part = &parts[i];
        assert(part@ == split_on(p@, '*')[i as int]);
        if part.len() == 0 {
            i = i + 1;
            continue;
        }
        match find_from(t.as_slice(), pos, part.as_slice()) {
            Some(idx) => {
                if i == 0 && idx != 0 {
                    return false;
                }
                proof {
                    let u = t@.subrange(pos as int, t@.len() as int);
                    lemma_first_occurrence_found(u, part@);
                    assert(occurs_at(u, part@, idx as int));
                    assert(pos + idx + part@.len() <= t.len());
                }
                pos = pos + idx + part.len();
            }
            None => {
                assert(first_occurrence(t@.subrange(pos as int, t@.len() as int), split_on(p@, '*')[i as int]) is None);
                assert(split_on(p@, '*')[i as int].len() != 0);
                assert(glob_walk(split_on(p@, '*'), i as int, t@, pos as int) is None);
                return false;
            }
        }
        i = i + 1;
    }
    if p[p.len() - 1] == '*' {
        return true;
    }
    pos == t.len()
}

/// A lone `*` matches every text.
pub proof fn law_glob_star_matches_all(text: Seq<char>)
    ensures
        glob_spec(seq!['*'], text),
{
    let p = seq!['*'];
    lemma_split_on_none(Seq::<char>::empty(), '*');
    assert(Seq::<char>::empty().push('*') =~= p);
    lemma_split_on_sep(Seq::<char>::empty(), '*');
    let parts = split_on(p, '*');
    assert(parts =~= seq![Seq::<char>::empty(), Seq::<char>::empty()]);
    reveal_with_fuel(glob_walk, 3);
}

/// A pattern without `*` matches exactly the texts that contain it.
pub proof fn law_glob_plain_is_contains(pattern: Seq<char>, text: Seq<char>)
    requires
        pattern.len() > 0,
        !pattern.contains('*'),
    ensures
        glob_spec(pattern, text) == seq_contains(text, pattern),
{
    lemma_split_on_none(pattern, '*');
}

/// `prefix*` matches exactly the texts that start with `prefix` (a non-empty piece
/// without `*`).
pub proof fn law_glob_prefix(prefix: Seq<char>, text: Seq<char>)
    requires
        prefix.len() > 0,
        !prefix.contains('*'),
    ensures
        glob_spec(prefix.push('*'), text) == prefix.is_prefix_of(text),
{
    let p = prefix.push('*');
    lemma_split_on_none(prefix, '*');
    lemma_split_on_sep(prefix, '*');
    let parts = split_on(p, '*');
    assert(parts =~= seq![prefix, Seq::<char>::empty()]);
    assert(text.subrange(0, text.len() as int) =~= text);
    lemma_first_occurrence_found(text, prefix);
    reveal_with_fuel(glob_walk, 3);
    if prefix.is_prefix_of(text) {
        assert(text.subrange(0, prefix.len() as int) =~= prefix);
        assert(is_first_occurrence(text, prefix, 0));
        lemma_first_occurrence_unique(text, prefix, 0);
    } else {
        if first_occurrence(text, prefix) == Some(0int) {
            assert(occurs_at(text, prefix, 0));
            assert(text.subrange(0, prefix.len() as int) =~= prefix);
        }
    }
    assert(p.last() == '*');
}

/// `*piece*` matches exactly the texts that contain `piece` (a non-empty piece
/// without `*`).
pub proof fn law_glob_infix_is_contains(piece: Seq<char>, text: Seq<char>)
    requires
        piece.len() > 0,
        !piece.contains('*'),
    ensures
        glob_spec((seq!['*'] + piece).push('*'), text) == seq_contains(text, piece),
{
    let head = seq!['*'];
    let p = (head + piece).push('*');
    lemma_split_on_none(Seq::<char>::empty(), '*');
    lemma_split_on_sep(Seq::<char>::empty(), '*');
    assert(Seq::<char>::empty().push('*') =~= head);
    lemma_split_on_extend(head, piece, '*');
    lemma_split_on_sep(head + piece, '*');
    let parts = split_on(p, '*');
    assert(split_on(head, '*') =~= seq![Seq::<char>::empty(), Seq::<char>::empty()]);
    assert(split_on(head + piece, '*') =~= seq![Seq::<char>::empty(), piece]);
    assert(parts =~= seq![Seq::<char>::empty(), piece, Seq::<char>::empty()]);
    assert(text.subrange(0, text.len() as int) =~= text);
    reveal_with_fuel(glob_walk, 4);
    assert(p.last() == '*');
}

// ─── Node model ─────────────────────────────────────────────────

/// The kind of a data type.
#[derive(Debug, Clone, Copy, PartialEq, Eq, Structural)]
pub enum DataTypeKind {
    Struct,
    Class,
    Interface,
    Trait,
    Enum,
    Union,
    TypeAlias,
}

/// The kind of a node of the semantic graph.
#[derive(Debug, Clone, Copy, PartialEq, Eq, Structural)]
pub enum NodeKind {
    Function,
    DataType(DataTypeKind),
    Module,
    ApiEndpoint,
    Binding,
}

/// A node that a node calls.
pub struct Callee {
    /// Its full name.
    pub name: String,
    /// The last segment of its name.
    pub short_name: String,
}

/// What the query evaluation reads of a node of the semantic graph.
pub struct NodeFacts {
    /// The node's id.
    pub id: u64,
    pub kind: NodeKind,
    /// The full name, segments joined.
    pub name: String,
    /// The last segment of the name (empty when there is none).
    pub short_name: String,
    /// The visibility's name as it prints, for the kinds of node that have one
    /// (functions, data types, bindings).
    pub visibility: Option<String>,
    /// The file's path as text.
    pub file: String,
    pub start_line: u32,
    /// A function's complexity, when known.
    pub complexity: Option<u32>,
    /// A function's number of parameters.
    pub params: usize,
    /// A data type's field names.
    pub fields: Vec<String>,
    /// A data type's number of methods.
    pub methods: usize,
    pub is_async: bool,
    pub is_unsafe: bool,
    /// A function's return type, as it prints.
    pub return_type: Option<String>,
    /// The interfaces a data type implements, as they print.
    pub implements: Vec<String>,
    /// A binding is a constant.
    pub is_constant: bool,
    /// A binding is mutable.
    pub is_mutable: bool,
    /// The node stands for something not found in the sources.
    pub is_placeholder: bool,
    /// The nodes it calls directly (those present in the graph).
    pub callees: Vec<Callee>,
    /// The full names of the nodes that call it directly (those present in the graph).
    pub callers: Vec<String>,
}

pub open spec fn kind_name(k: NodeKind) -> Seq<char> {
    match k {
        NodeKind::Function => "function"@,
        NodeKind::DataType(d) => match d {
            DataTypeKind::Struct => "struct"@,
            DataTypeKind::Class => "class"@,
            DataTypeKind::Interface => "interface"@,
            DataTypeKind::Trait => "trait"@,
            DataTypeKind::Enum => "enum"@,
            DataTypeKind::Union => "union"@,
            DataTypeKind::TypeAlias => "typealias"@,
        },
        NodeKind::Module => "module"@,
        NodeKind::ApiEndpoint => "endpoint"@,
        NodeKind::Binding => "binding"@,
    }
}

/// The name of a node kind, as a match reports it.
pub fn node_kind_str(k: NodeKind) -> (s: String)
    ensures
        s@ == kind_name(k),
{
    match k {
        NodeKind::Function => "function".to_owned(),
        NodeKind::DataType(d) => match d {
            DataTypeKind::Struct => "struct".to_owned(),
            DataTypeKind::Class => "class".to_owned(),
            DataTypeKind::Interface => "interface".to_owned(),
            DataTypeKind::Trait => "trait".to_owned(),
            DataTypeKind::Enum => "enum".to_owned(),
            DataTypeKind::Union => "union".to_owned(),
            DataTypeKind::TypeAlias => "typealias".to_owned(),
        },
        NodeKind::Module => "module".to_owned(),
        NodeKind::ApiEndpoint => "endpoint".to_owned(),
        NodeKind::Binding => "binding".to_owned(),
    }
}

/// The visibility of a node as it prints; nodes without one count as `Private`.
pub open spec fn visibility_of(n: NodeFacts) -> Seq<char> {
    match n.visibility {
        Some(v) => v@,
        None => "Private"@,
    }
}

/// The visibility of a node as it prints; nodes without one count as `Private`.
pub fn get_visibility(n: &NodeFacts) -> (v: String)
    ensures
        v@ == visibility_of(*n),
{
    match &n.visibility {
        Some(v) => v.clone(),
        None => "Private".to_owned(),
    }
}

pub open spec fn matches_target_spec(k: NodeKind, t: Target) -> bool {
    match t {
        Target::Functions => k is Function,
        Target::Types => k is DataType,
        Target::Modules => k is Module,
        Target::Bindings => k is Binding,
        Target::All => true,
    }
}

/// A node is of the kind the query searches for.
pub fn matches_target(k: NodeKind, t: Target) -> (r: bool)
    ensures
        r == matches_target_spec(k, t),
{
    match t {
        Target::Functions => match k {
            NodeKind::Function => true,
            _ => false,
        },
        Target::Types => match k {
            NodeKind::DataType(_) => true,
            _ => false,
        },
        Target::Modules => match k {
            NodeKind::Module => true,
            _ => false,
        },
        Target::Bindings => match k {
            NodeKind::Binding => true,
            _ => false,
        },
        Target::All => true,
    }
}

// ─── Conditions (specification) ─────────────────────────────────

pub open spec fn text_of_value(v: SpecValue) -> Option<Seq<char>> {
    match v {
        SpecValue::Str(s) => Some(s),
        SpecValue::Ident(s) => Some(s),
        _ => None,
    }
}

/// A number text of a query with the `f64` it reads as. Reading a text as an
/// `f64` is floating-point work done by the caller; the comparisons take the
/// exact value of the result.
pub struct NumberReading {
    pub text: String,
    pub value: F64Value,
}

/// The reading given for the number text `t` (the first one for it).
pub open spec fn reading_of(rs: Seq<NumberReading>, t: Seq<char>) -> Option<F64Value>
    decreases rs.len(),
{
    if rs.len() == 0 {
        None
    } else if rs[0].text@ == t {
        Some(rs[0].value)
    } else {
        reading_of(rs.drop_first(), t)
    }
}

/// Every reading holds the parts of an `f64`.
pub open spec fn readings_wf(rs: Seq<NumberReading>) -> bool {
    forall|i: int| 0 <= i < rs.len() ==> f64_wf(#[trigger] rs[i].value)
}

/// `f64` zero, what an identifier that is no number reads as.
pub open spec fn f64_zero() -> F64Value {
    F64Value::Finite { neg: false, mant: 0, exp: 0 }
}

/// A comparison outcome: `=` and `!=` go by the EPSILON test, the others by the
/// order; against NaN nothing holds.
pub open spec fn op_holds(op: CompOp, r: Rel, near: bool) -> bool {
    match r {
        Rel::Unordered => false,
        _ => match op {
            CompOp::Eq => near,
            CompOp::NotEq => !near,
            CompOp::Gt => r is Greater,
            CompOp::Lt => r is Less,
            CompOp::Gte => r is Greater || r is Equal,
            CompOp::Lte => r is Less || r is Equal,
        },
    }
}

/// The count `actual` compared with the `f64` value `x`.
pub open spec fn f64_holds(actual: nat, op: CompOp, x: F64Value) -> bool {
    op_holds(op, f64_rel(actual, x), f64_near(actual, x))
}

/// A count compared with a number text, by the `f64` it was read as; without a
/// reading it never matches.
pub open spec fn reading_holds(actual: nat, op: CompOp, t: Seq<char>, rs: Seq<NumberReading>) -> bool {
    match reading_of(rs, t) {
        Some(x) => f64_holds(actual, op, x),
        None => false,
    }
}

/// A count compared with a number operand, by the `f64` it reads as; an identifier
/// is read as a number when it is number text (`inf`, `nan`, ...) and counts as
/// zero otherwise; a number without a reading, and other operands, never match.
pub open spec fn count_holds(actual: nat, op: CompOp, v: SpecValue, rs: Seq<NumberReading>) -> bool {
    match v {
        SpecValue::Number(t) => reading_holds(actual, op, t, rs),
        SpecValue::Ident(t) => if float_text(t) {
            reading_holds(actual, op, t, rs)
        } else {
            f64_holds(actual, op, f64_zero())
        },
        _ => false,
    }
}

/// The counts of a node are below 2^53, so each is exactly an `f64` (no more
/// parameters or fields than that fit in memory).
pub open spec fn counts_fit(n: NodeFacts) -> bool {
    n.params < p2(53) && n.fields@.len() < p2(53)
}

/// A flag compared with `true`/`false` or an identifier (`true` or anything else);
/// `ident_not_eq` tells whether `!=` works with an identifier.
pub open spec fn flag_holds(b: bool, op: CompOp, v: SpecValue, ident_not_eq: bool) -> bool {
    match v {
        SpecValue::Bool(x) => match op {
            CompOp::Eq => b == x,
            CompOp::NotEq => b != x,
            _ => false,
        },
        SpecValue::Ident(s) => match op {
            CompOp::Eq => (s == "true"@) == b,
            CompOp::NotEq => ident_not_eq && (s == "true"@) != b,
            _ => false,
        },
        _ => false,
    }
}

/// `field OP value` on a node.
pub open spec fn comparison_holds(n: NodeFacts, field: Seq<char>, op: CompOp, v: SpecValue, rs: Seq<NumberReading>) -> bool {
    if field == "name"@ {
        match text_of_value(v) {
            Some(s) => match op {
                CompOp::Eq => n.name@ == s || n.short_name@ == s,
                CompOp::NotEq => n.name@ != s && n.short_name@ != s,
                _ => false,
            },
            None => false,
        }
    } else if field == "visibility"@ || field == "vis"@ {
        match text_of_value(v) {
            Some(s) => match op {
                CompOp::Eq => lowercase_spec(visibility_of(n)) == lowercase_spec(s),
                CompOp::NotEq => lowercase_spec(visibility_of(n)) != lowercase_spec(s),
                _ => false,
            },
            None => false,
        }
    } else if field == "complexity"@ {
        n.kind is Function && count_holds(match n.complexity { Some(c) => c as nat, None => 0 }, op, v, rs)
    } else if field == "params"@ || field == "param_count"@ {
        n.kind is Function && count_holds(n.params as nat, op, v, rs)
    } else if field == "fields"@ || field == "field_count"@ {
        n.kind is DataType && count_holds(n.fields@.len(), op, v, rs)
    } else if field == "async"@ {
        n.kind is Function && flag_holds(n.is_async, op, v, true)
    } else if field == "unsafe"@ {
        n.kind is Function && flag_holds(n.is_unsafe, op, v, false)
    } else if field == "file"@ {
        match text_of_value(v) {
            Some(s) => match op {
                CompOp::Eq => s.is_suffix_of(replace_char(n.file@, '\\', '/')),
                CompOp::NotEq => !s.is_suffix_of(replace_char(n.file@, '\\', '/')),
                _ => false,
            },
            None => false,
        }
    } else if field == "kind"@ {
        match text_of_value(v) {
            Some(s) => match op {
                CompOp::Eq => eq_ignore_case(s, kind_name(n.kind)),
                CompOp::NotEq => !eq_ignore_case(s, kind_name(n.kind)),
                _ => false,
            },
            None => false,
        }
    } else {
        false
    }
}

/// `name(args)` on a node; the first argument (or nothing) is what it looks for.
pub open spec fn predicate_holds(n: NodeFacts, name: Seq<char>, args: Seq<Seq<char>>) -> bool {
    let target = if args.len() > 0 { args[0] } else { Seq::<char>::empty() };
    if name == "calls"@ {
        exists|i: int| 0 <= i < n.callees@.len()
            && (seq_contains((#[trigger] n.callees@[i]).name@, target) || n.callees@[i].short_name@ == target)
    } else if name == "called_by"@ || name == "calledby"@ {
        exists|i: int| 0 <= i < n.callers@.len() && seq_contains((#[trigger] n.callers@[i])@, target)
    } else if name == "handles"@ || name == "catches"@ {
        n.callees@.len() > 0
    } else if name == "returns"@ {
        n.kind is Function && match n.return_type {
            Some(t) => seq_contains(t@, target),
            None => false,
        }
    } else if name == "implements"@ {
        n.kind is DataType && exists|i: int| 0 <= i < n.implements@.len() && seq_contains((#[trigger] n.implements@[i])@, target)
    } else if name == "has_field"@ || name == "hasfield"@ {
        n.kind is DataType && exists|i: int| 0 <= i < n.fields@.len() && (#[trigger] n.fields@[i])@ == target
    } else if name == "in_file"@ || name == "infile"@ {
        seq_contains(replace_char(n.file@, '\\', '/'), target)
    } else {
        false
    }
}

/// `field ~ pattern` on a node: the name or the file against a glob pattern.
pub open spec fn regex_holds(n: NodeFacts, field: Seq<char>, pattern: Seq<char>) -> bool {
    if field == "name"@ {
        glob_spec(pattern, n.name@)
    } else if field == "file"@ {
        glob_spec(pattern, n.file@)
    } else {
        false
    }
}

pub open spec fn condition_holds(n: NodeFacts, c: SpecCondition, rs: Seq<NumberReading>) -> bool
    decreases c,
{
    match c {
        SpecCondition::Comparison { field, op, value } => comparison_holds(n, field, op, value, rs),
        SpecCondition::Predicate { name, args } => predicate_holds(n, name, args),
        SpecCondition::Not(inner) => !condition_holds(n, *inner, rs),
        SpecCondition::Regex { field, pattern } => regex_holds(n, field, pattern),
    }
}

// ─── Conditions (implementation) ────────────────────────────────

fn op_holds_exec(op: CompOp, r: Rel, near: bool) -> (b: bool)
    ensures
        b == op_holds(op, r, near),
{
    match r {
        Rel::Unordered => false,
        _ => match op {
            CompOp::Eq => near,
            CompOp::NotEq => !near,
            CompOp::Gt => r == Rel::Greater,
            CompOp::Lt => r == Rel::Less,
            CompOp::Gte => r == Rel::Greater || r == Rel::Equal,
            CompOp::Lte => r == Rel::Less || r == Rel::Equal,
        },
    }
}

/// The reading given for the number text `t`.
fn find_reading(rs: &Vec<NumberReading>, t: &String) -> (r: Option<F64Value>)
    requires
        readings_wf(rs@),
    ensures
        r == reading_of(rs@, t@),
        r matches Some(x) ==> f64_wf(x),
{
    let tc = chars_of(t.as_str());
    let mut i: usize = 0;
    assert(rs@.skip(0) =~= rs@);
    while i < rs.len()
        invariant
            i <= rs@.len(),
            tc@ == t@,
            readings_wf(rs@),
            reading_of(rs@, t@) == reading_of(rs@.skip(i as int), t@),
        decreases rs.len() - i,
    {
        let ghost rest = rs@.skip(i as int);
        assert(rest[0] == rs@[i as int]);
        assert(rest.drop_first() =~= rs@.skip(i + 1));
        let c = chars_of(rs[i].text.as_str());
        if eq_chars(c.as_slice(), tc.as_slice()) {
            assert(f64_wf(rs@[i as int].value));
            return Some(rs[i].value);
        }
        i = i + 1;
    }
    None
}

/// A count compared with a number operand, by the `f64` the caller read it as;
/// an identifier is read as a number when it is number text and counts as zero
/// otherwise; a number without a reading, and other operands, never match.
pub fn compare_num(actual: u64, op: CompOp, value: &Value, readings: &Vec<NumberReading>) -> (b: bool)
    requires
        actual < p2(53),
        readings_wf(readings@),
    ensures
        b == count_holds(actual as nat, op, value@, readings@),
{
    match value {
        Value::Number(t) => match find_reading(readings, t) {
            Some(x) => {
                let (rel, near) = f64_compare(actual, &x);
                op_holds_exec(op, rel, near)
            },
            None => false,
        },
        Value::Ident(t) => {
            let tc = chars_of(t.as_str());
            if is_float_text(tc.as_slice()) {
                return match find_reading(readings, t) {
                    Some(x) => {
                        let (rel, near) = f64_compare(actual, &x);
                        op_holds_exec(op, rel, near)
                    },
                    None => false,
                };
            }
            let zero = F64Value::Finite { neg: false, mant: 0, exp: 0 };
            proof {
                lemma_p2_values();
            }
            let (rel, near) = f64_compare(actual, &zero);
            op_holds_exec(op, rel, near)
        },
        _ => false,
    }
}

fn flag_compare(b: bool, op: CompOp, value: &Value, ident_not_eq: bool) -> (r: bool)
    ensures
        r == flag_holds(b, op, value@, ident_not_eq),
{
    match value {
        Value::Bool(x) => match op {
            CompOp::Eq => b == *x,
            CompOp::NotEq => b != *x,
            _ => false,
        },
        Value::Ident(s) => {
            let sc = chars_of(s.as_str());
            let is_true = eq_lit(sc.as_slice(), "true");
            match op {
                CompOp::Eq => is_true == b,
                CompOp::NotEq => ident_not_eq && is_true != b,
                _ => false,
            }
        },
        _ => false,
    }
}

fn is_suffix(s: &[char], t: &[char]) -> (r: bool)
    ensures
        r == s@.is_suffix_of(t@),
{
    if s.len() > t.len() {
        return false;
    }
    let off = t.len() - s.len();
    let mut i: usize = 0;
    while i < s.len()
        invariant
            off + s@.len() == t@.len(),
            off + s.len() == t.len(),
            i <= s@.len(),
            forall|k: int| 0 <= k < i ==> s@[k] == t@[off + k],
        decreases s.len() - i,
    {
        if s[i] != t[off + i] {
            assert(t@.subrange(off as int, t@.len() as int)[i as int] == t@[off + i]);
            return false;
        }
        i = i + 1;
    }
    assert(s@ =~= t@.subrange(off as int, t@.len() as int));
    true
}

fn slashed_chars(file: &String) -> (r: Vec<char>)
    ensures
        r@ == replace_char(file@, '\\', '/'),
{
    let f = chars_of(file.as_str());
    let mut r: Vec<char> = Vec::new();
    let mut i: usize = 0;
    while i < f.len()
        invariant
            i <= f@.len(),
            r@ == replace_char(f@.take(i as int), '\\', '/'),
        decreases f.len() - i,
    {
        let c = f[i];
        r.push(if c == '\\' { '/' } else { c });
        i = i + 1;
        assert(r@ =~= replace_char(f@.take(i as int), '\\', '/'));
    }
    assert(f@.take(f@.len() as int) =~= f@);
    r
}

fn lowered(s: &String) -> (r: Vec<char>)
    ensures
        r@ == lowercase_spec(s@),
{
    let l = to_lowercase(s.as_str());
    chars_of(l.as_str())
}

fn value_text(v: &Value) -> (r: Option<&String>)
    ensures
        match r {
            Some(s) => text_of_value(v@) == Some(s@),
            None => text_of_value(v@) is None,
        },
{
    match v {
        Value::String(s) => Some(s),
        Value::Ident(s) => Some(s),
        _ => None,
    }
}

/// `field OP value` on a node.
pub fn eval_comparison(n: &NodeFacts, field: &String, op: CompOp, value: &Value, readings: &Vec<NumberReading>) -> (r: bool)
    requires
        counts_fit(*n),
        readings_wf(readings@),
    ensures
        r == comparison_holds(*n, field@, op, value@, readings@),
{
    proof {
        lemma_p2_values();
    }
    let f = chars_of(field.as_str());
    let fs = f.as_slice();
    if eq_lit(fs, "name") {
        match value_text(value) {
            Some(s) => match op {
                CompOp::Eq => n.name == *s || n.short_name == *s,
                CompOp::NotEq => n.name != *s && n.short_name != *s,
                _ => false,
            },
            None => false,
        }
    } else if eq_lit(fs, "visibility") || eq_lit(fs, "vis") {
        match value_text(value) {
            Some(s) => {
                let vis = get_visibility(n);
                let vl = lowered(&vis);
                let sl = lowered(s);
                match op {
                    CompOp::Eq => eq_chars(vl.as_slice(), sl.as_slice()),
                    CompOp::NotEq => !eq_chars(vl.as_slice(), sl.as_slice()),
                    _ => false,
                }
            },
            None => false,
        }
    } else if eq_lit(fs, "complexity") {
        match n.kind {
            NodeKind::Function => {
                let c: u32 = match n.complexity {
                    Some(c) => c,
                    None => 0,
                };
                compare_num(c as u64, op, value, readings)
            },
            _ => false,
        }
    } else if eq_lit(fs, "params") || eq_lit(fs, "param_count") {
        match n.kind {
            NodeKind::Function => compare_num(n.params as u64, op, value, readings),
            _ => false,
        }
    } else if eq_lit(fs, "fields") || eq_lit(fs, "field_count") {
        match n.kind {
            NodeKind::DataType(_) => compare_num(n.fields.len() as u64, op, value, readings),
            _ => false,
        }
    } else if eq_lit(fs, "async") {
        match n.kind {
            NodeKind::Function => flag_compare(n.is_async, op, value, true),
            _ => false,
        }
    } else if eq_lit(fs, "unsafe") {
        match n.kind {
            NodeKind::Function => flag_compare(n.is_unsafe, op, value, false),
            _ => false,
        }
    } else if eq_lit(fs, "file") {
        match value_text(value) {
            Some(s) => {
                let file = slashed_chars(&n.file);
                let sc = chars_of(s.as_str());
                match op {
                    CompOp::Eq => is_suffix(sc.as_slice(), file.as_slice()),
                    CompOp::NotEq => !is_suffix(sc.as_slice(), file.as_slice()),
                    _ => false,
                }
            },
            None => false,
        }
    } else if eq_lit(fs, "kind") {
        match value_text(value) {
            Some(s) => {
                let kind = node_kind_str(n.kind);
                let sc = chars_of(s.as_str());
                match op {
                    CompOp::Eq => eq_ignore_case_lit(sc.as_slice(), kind.as_str()),
                    CompOp::NotEq => !eq_ignore_case_lit(sc.as_slice(), kind.as_str()),
                    _ => false,
                }
            },
            None => false,
        }
    } else {
        false
    }
}

fn text_contains(hay: &String, needle: &[char]) -> (r: bool)
    ensures
        r == seq_contains(hay@, needle@),
{
    let h = chars_of(hay.as_str());
    contains_seq(h.as_slice(), needle)
}

/// `name(args)` on a node.
pub fn eval_predicate(n: &NodeFacts, name: &String, args: &Vec<String>) -> (r: bool)
    ensures
        r == predicate_holds(*n, name@, strings_view(args@)),
{
    let ghost av = strings_view(args@);
    let target: Vec<char> = if args.len() > 0 { chars_of(args[0].as_str()) } else { Vec::new() };
    let ghost tv = if av.len() > 0 { av[0] } else { Seq::<char>::empty() };
    assert(target@ == tv);
    let nm = chars_of(name.as_str());
    let ns = nm.as_slice();
    let t = target.as_slice();
    let ghost goal = predicate_holds(*n, name@, av);
    if eq_lit(ns, "calls") {
        let mut i: usize = 0;
        while i < n.callees.len()
            invariant
                i <= n.callees@.len(),
                t@ == tv,
                goal == predicate_holds(*n, name@, strings_view(args@)),
                goal == exists|k: int| 0 <= k < n.callees@.len()
                    && (seq_contains((#[trigger] n.callees@[k]).name@, tv) || n.callees@[k].short_name@ == tv),
                forall|k: int| 0 <= k < i ==> !(seq_contains((#[trigger] n.callees@[k]).name@, tv) || n.callees@[k].short_name@ == tv),
            decreases n.callees.len() - i,
        {
            let c = &n.callees[i];
            let sc = chars_of(c.short_name.as_str());
            if text_contains(&c.name, t) || eq_chars(sc.as_slice(), t) {
                assert(seq_contains(n.callees@[i as int].name@, tv) || n.callees@[i as int].short_name@ == tv);
                return true;
            }
            i = i + 1;
        }
        false
    } else if eq_lit(ns, "called_by") || eq_lit(ns, "calledby") {
        let mut i: usize = 0;
        while i < n.callers.len()
            invariant
                i <= n.callers@.len(),
                t@ == tv,
                goal == predicate_holds(*n, name@, strings_view(args@)),
                goal == exists|k: int| 0 <= k < n.callers@.len() && seq_contains((#[trigger] n.callers@[k])@, tv),
                forall|k: int| 0 <= k < i ==> !seq_contains((#[trigger] n.callers@[k])@, tv),
            decreases n.callers.len() - i,
        {
            if text_contains(&n.callers[i], t) {
                assert(seq_contains(n.callers@[i as int]@, tv));
                return true;
            }
            i = i + 1;
        }
        false
    } else if eq_lit(ns, "handles") || eq_lit(ns, "catches") {
        n.callees.len() > 0
    } else if eq_lit(ns, "returns") {
        match n.kind {
            NodeKind::Function => match &n.return_type {
                Some(rt) => text_contains(rt, t),
                None => false,
            },
            _ => false,
        }
    } else if eq_lit(ns, "implements") {
        match n.kind {
            NodeKind::DataType(_) => {
                let mut i: usize = 0;
                while i < n.implements.len()
                    invariant
                        i <= n.implements@.len(),
                        t@ == tv,
                        goal == predicate_holds(*n, name@, strings_view(args@)),
                        goal == exists|k: int| 0 <= k < n.implements@.len() && seq_contains((#[trigger] n.implements@[k])@, tv),
                        forall|k: int| 0 <= k < i ==> !seq_contains((#[trigger] n.implements@[k])@, tv),
                    decreases n.implements.len() - i,
                {
                    if text_contains(&n.implements[i], t) {
                        assert(seq_contains(n.implements@[i as int]@, tv));
                        return true;
                    }
                    i = i + 1;
                }
                false
            },
            _ => false,
        }
    } else if eq_lit(ns, "has_field") || eq_lit(ns, "hasfield") {
        match n.kind {
            NodeKind::DataType(_) => {
                let mut i: usize = 0;
                while i < n.fields.len()
                    invariant
                        i <= n.fields@.len(),
                        t@ == tv,
                        goal == predicate_holds(*n, name@, strings_view(args@)),
                        goal == exists|k: int| 0 <= k < n.fields@.len() && (#[trigger] n.fields@[k])@ == tv,
                        forall|k: int| 0 <= k < i ==> (#[trigger] n.fields@[k])@ != tv,
                    decreases n.fields.len() - i,
                {
                    let fc = chars_of(n.fields[i].as_str());
                    if eq_chars(fc.as_slice(), t) {
                        assert(n.fields@[i as int]@ == tv);
                        return true;
                    }
                    i = i + 1;
                }
                false
            },
            _ => false,
        }
    } else if eq_lit(ns, "in_file") || eq_lit(ns, "infile") {
        let file = slashed_chars(&n.file);
        contains_seq(file.as_slice(), t)
    } else {
        false
    }
}

/// `field ~ pattern` on a node: the name or the file against a glob pattern.
pub fn eval_regex(n: &NodeFacts, field: &String, pattern: &String) -> (r: bool)
    ensures
        r == regex_holds(*n, field@, pattern@),
{
    let f = chars_of(field.as_str());
    if eq_lit(f.as_slice(), "name") {
        glob_match(pattern.as_str(), n.name.as_str())
    } else if eq_lit(f.as_slice(), "file") {
        glob_match(pattern.as_str(), n.file.as_str())
    } else {
        false
    }
}

/// Whether a condition holds of a node.
pub fn eval_condition(n: &NodeFacts, cond: &Condition, readings: &Vec<NumberReading>) -> (r: bool)
    requires
        counts_fit(*n),
        readings_wf(readings@),
    ensures
        r == condition_holds(*n, cond@, readings@),
    decreases cond,
{
    match cond {
        Condition::Comparison { field, op, value } => eval_comparison(n, field, *op, value, readings),
        Condition::Predicate { name, args } => eval_predicate(n, name, args),
        Condition::Not(inner) => !eval_condition(n, &**inner, readings),
        Condition::Regex { field, pattern } => eval_regex(n, field, pattern),
    }
}

// ─── Results ────────────────────────────────────────────────────

/// One node that satisfied a query.
pub struct QueryMatch {
    pub node_id: u64,
    /// The file's path, with `/` between segments.
    pub file: String,
    pub line: u32,
    pub name: String,
    pub kind: String,
    pub description: String,
}

/// What a query found: the matching nodes, in graph order, and how many nodes
/// of the searched kind were looked at.
pub struct QueryResult {
    pub matches: Vec<QueryMatch>,
    pub total_scanned: usize,
    pub query_text: String,
}

pub struct SpecMatch {
    pub node_id: u64,
    pub file: Seq<char>,
    pub line: u32,
    pub name: Seq<char>,
    pub kind: Seq<char>,
    pub description: Seq<char>,
}

pub struct SpecQueryResult {
    pub matches: Seq<SpecMatch>,
    pub total_scanned: nat,
    pub query_text: Seq<char>,
}

impl View for QueryMatch {
    type V = SpecMatch;

    open spec fn view(&self) -> SpecMatch {
        SpecMatch {
            node_id: self.node_id,
            file: self.file@,
            line: self.line,
            name: self.name@,
            kind: self.kind@,
            description: self.description@,
        }
    }
}

impl View for QueryResult {
    type V = SpecQueryResult;

    open spec fn view(&self) -> SpecQueryResult {
        SpecQueryResult {
            matches: self.matches@.map_values(|m: QueryMatch| m@),
            total_scanned: self.total_scanned as nat,
            query_text: self.query_text@,
        }
    }
}

/// A data type's kind as its debug form prints it.
pub open spec fn data_kind_text(d: DataTypeKind) -> Seq<char> {
    match d {
        DataTypeKind::Struct => "Struct"@,
        DataTypeKind::Class => "Class"@,
        DataTypeKind::Interface => "Interface"@,
        DataTypeKind::Trait => "Trait"@,
        DataTypeKind::Enum => "Enum"@,
        DataTypeKind::Union => "Union"@,
        DataTypeKind::TypeAlias => "TypeAlias"@,
    }
}

pub open spec fn text_if(b: bool, s: Seq<char>) -> Seq<char> {
    if b { s } else { Seq::empty() }
}

/// The one-line description of a node that a match carries.
pub open spec fn description_of(n: NodeFacts) -> Seq<char> {
    match n.kind {
        NodeKind::Function => lowercase_spec(visibility_of(n)) + " fn("@ + decimal(n.params as nat)
            + " params, complexity "@ + decimal(match n.complexity { Some(c) => c as nat, None => 0 })
            + ", "@ + text_if(n.is_async, "async, "@) + text_if(n.is_unsafe, "unsafe"@) + ")"@,
        NodeKind::DataType(d) => data_kind_text(d) + " with "@ + decimal(n.fields@.len()) + " fields, "@
            + decimal(n.methods as nat) + " methods"@,
        NodeKind::Module => "module"@,
        NodeKind::Binding => (if n.is_constant { "const"@ } else { "let"@ }) + " binding"@
            + text_if(n.is_mutable, " (mut)"@),
        NodeKind::ApiEndpoint => "endpoint"@,
    }
}

pub open spec fn match_of(n: NodeFacts) -> SpecMatch {
    SpecMatch {
        node_id: n.id,
        file: replace_char(n.file@, '\\', '/'),
        line: n.start_line,
        name: n.name@,
        kind: kind_name(n.kind),
        description: description_of(n),
    }
}

/// A node is looked at: it is of the searched kind and not a placeholder.
pub open spec fn in_scope(n: NodeFacts, t: Target) -> bool {
    matches_target_spec(n.kind, t) && !n.is_placeholder
}

/// Every condition holds of the node.
pub open spec fn all_hold(n: NodeFacts, conds: Seq<SpecCondition>, rs: Seq<NumberReading>) -> bool {
    forall|i: int| 0 <= i < conds.len() ==> condition_holds(n, #[trigger] conds[i], rs)
}

pub open spec fn scanned_count(nodes: Seq<NodeFacts>, t: Target) -> nat
    decreases nodes.len(),
{
    if nodes.len() == 0 {
        0
    } else {
        scanned_count(nodes.drop_last(), t) + if in_scope(nodes.last(), t) { 1nat } else { 0nat }
    }
}

/// The matches of a query over the nodes, in their order.
pub open spec fn query_matches(nodes: Seq<NodeFacts>, q: SpecQuery, rs: Seq<NumberReading>) -> Seq<SpecMatch>
    decreases nodes.len(),
{
    if nodes.len() == 0 {
        Seq::empty()
    } else {
        let before = query_matches(nodes.drop_last(), q, rs);
        let n = nodes.last();
        if in_scope(n, q.target) && all_hold(n, q.conditions, rs) {
            before.push(match_of(n))
        } else {
            before
        }
    }
}

pub open spec fn execute_spec(nodes: Seq<NodeFacts>, q: SpecQuery, text: Seq<char>, rs: Seq<NumberReading>) -> SpecQueryResult {
    SpecQueryResult {
        matches: query_matches(nodes, q, rs),
        total_scanned: scanned_count(nodes, q.target),
        query_text: text,
    }
}

fn description(n: &NodeFacts) -> (d: String)
    ensures
        d@ == description_of(*n),
{
    let mut v: Vec<char> = Vec::new();
    match n.kind {
        NodeKind::Function => {
            let vis_text = get_visibility(n);
            let vis = lowered(&vis_text);
            push_chars(&mut v, vis.as_slice());
            push_lit(&mut v, " fn(");
            push_decimal(&mut v, n.params as u64);
            push_lit(&mut v, " params, complexity ");
            let c: u32 = match n.complexity {
                Some(c) => c,
                None => 0,
            };
            push_decimal(&mut v, c as u64);
            push_lit(&mut v, ", ");
            if n.is_async {
                push_lit(&mut v, "async, ");
            }
            if n.is_unsafe {
                push_lit(&mut v, "unsafe");
            }
            push_lit(&mut v, ")");
        },
        NodeKind::DataType(d) => {
            match d {
                DataTypeKind::Struct => push_lit(&mut v, "Struct"),
                DataTypeKind::Class => push_lit(&mut v, "Class"),
                DataTypeKind::Interface => push_lit(&mut v, "Interface"),
                DataTypeKind::Trait => push_lit(&mut v, "Trait"),
                DataTypeKind::Enum => push_lit(&mut v, "Enum"),
                DataTypeKind::Union => push_lit(&mut v, "Union"),
                DataTypeKind::TypeAlias => push_lit(&mut v, "TypeAlias"),
            }
            push_lit(&mut v, " with ");
            push_decimal(&mut v, n.fields.len() as u64);
            push_lit(&mut v, " fields, ");
            push_decimal(&mut v, n.methods as u64);
            push_lit(&mut v, " methods");
        },
        NodeKind::Module => push_lit(&mut v, "module"),
        NodeKind::Binding => {
            if n.is_constant {
                push_lit(&mut v, "const");
            } else {
                push_lit(&mut v, "let");
            }
            push_lit(&mut v, " binding");
            if n.is_mutable {
                push_lit(&mut v, " (mut)");
            }
        },
        NodeKind::ApiEndpoint => push_lit(&mut v, "endpoint"),
    }
    assert(v@ =~= description_of(*n));
    string_of(v.as_slice())
}

/// The match that reports a node.
pub fn node_to_match(n: &NodeFacts) -> (m: QueryMatch)
    ensures
        m@ == match_of(*n),
{
    let file = slashed_chars(&n.file);
    QueryMatch {
        node_id: n.id,
        file: string_of(file.as_slice()),
        line: n.start_line,
        name: n.name.clone(),
        kind: node_kind_str(n.kind),
        description: description(n),
    }
}

fn all_conditions(n: &NodeFacts, conds: &Vec<Condition>, readings: &Vec<NumberReading>) -> (r: bool)
    requires
        counts_fit(*n),
        readings_wf(readings@),
    ensures
        r == all_hold(*n, conditions_view(conds@), readings@),
{
    let mut i: usize = 0;
    while i < conds.len()
        invariant
            i <= conds@.len(),
            counts_fit(*n),
            readings_wf(readings@),
            forall|k: int| 0 <= k < i ==> condition_holds(*n, #[trigger] conditions_view(conds@)[k], readings@),
        decreases conds.len() - i,
    {
        if !eval_condition(n, &conds[i], readings) {
            assert(conditions_view(conds@)[i as int] == conds@[i as int]@);
            return false;
        }
        i = i + 1;
    }
    true
}

/// Every node's counts are below 2^53.
pub open spec fn nodes_fit(nodes: Seq<NodeFacts>) -> bool {
    forall|i: int| 0 <= i < nodes.len() ==> counts_fit(#[trigger] nodes[i])
}

/// Runs a parsed query over the nodes: every node of the searched kind that is not
/// a placeholder is counted as scanned, and those that satisfy every condition
/// are reported, in the nodes' order. Number operands compare by the readings.
pub fn execute(nodes: &Vec<NodeFacts>, query: &Query, query_text: &str, readings: &Vec<NumberReading>) -> (r: QueryResult)
    requires
        nodes_fit(nodes@),
        readings_wf(readings@),
    ensures
        r@ == execute_spec(nodes@, query@, query_text@, readings@),
{
    let mut matches: Vec<QueryMatch> = Vec::new();
    let mut scanned: usize = 0;
    let mut i: usize = 0;
    while i < nodes.len()
        invariant
            i <= nodes@.len(),
            scanned <= i,
            scanned as nat == scanned_count(nodes@.take(i as int), query.target),
            nodes_fit(nodes@),
            readings_wf(readings@),
            matches@.map_values(|m: QueryMatch| m@) == query_matches(nodes@.take(i as int), query@, readings@),
        decreases nodes.len() - i,
    {
        let n = &nodes[i];
        let ghost before = nodes@.take(i as int);
        assert(nodes@.take(i + 1).drop_last() =~= before);
        assert(nodes@.take(i + 1).last() == nodes@[i as int]);
        if matches_target(n.kind, query.target) && !n.is_placeholder {
            scanned = scanned + 1;
            if all_conditions(n, &query.conditions, readings) {
                let m = node_to_match(n);
                matches.push(m);
                assert(matches@.map_values(|m: QueryMatch| m@) =~= query_matches(nodes@.take(i + 1), query@, readings@));
            }
        }
        i = i + 1;
    }
    assert(nodes@.take(nodes@.len() as int) =~= nodes@);
    QueryResult { matches, total_scanned: scanned, query_text: query_text.to_owned() }
}

/// Parses a query and runs it over the nodes, number operands comparing by the
/// readings.
pub fn run_query(nodes: &Vec<NodeFacts>, query_str: &str, readings: &Vec<NumberReading>) -> (r: Result<QueryResult, ParseError>)
    requires
        nodes_fit(nodes@),
        readings_wf(readings@),
    ensures
        match parse_spec(query_str@) {
            Ok(q) => r matches Ok(res) && res@ == execute_spec(nodes@, q, query_str@, readings@),
            Err(e) => r matches Err(x) && x@ == e,
        },
{
    match parse(query_str) {
        Ok(q) => Ok(execute(nodes, &q, query_str, readings)),
        Err(e) => Err(e),
    }
}

// ─── Laws ───────────────────────────────────────────────────────

/// Against a number that does not read as NaN, `>` and `<=` give opposite answers,
/// as do `<` and `>=`, and `=` and `!=`; against NaN no comparison holds.
pub proof fn law_count_comparisons_complement(actual: nat, x: F64Value)
    ensures
        !(x is NaN) ==> {
            &&& f64_holds(actual, CompOp::Gt, x) != f64_holds(actual, CompOp::Lte, x)
            &&& f64_holds(actual, CompOp::Lt, x) != f64_holds(actual, CompOp::Gte, x)
            &&& f64_holds(actual, CompOp::Eq, x) != f64_holds(actual, CompOp::NotEq, x)
        },
        x is NaN ==> {
            &&& !f64_holds(actual, CompOp::Gt, x) && !f64_holds(actual, CompOp::Lte, x)
            &&& !f64_holds(actual, CompOp::Lt, x) && !f64_holds(actual, CompOp::Gte, x)
            &&& !f64_holds(actual, CompOp::Eq, x) && !f64_holds(actual, CompOp::NotEq, x)
        },
{
}

/// `NOT c` holds of a node exactly when `c` does not.
pub proof fn law_not_negates(n: NodeFacts, c: SpecCondition, rs: Seq<NumberReading>)
    ensures
        condition_holds(n, SpecCondition::Not(Box::new(c)), rs) == !condition_holds(n, c, rs),
{
}

/// Every node counted as scanned is one of the nodes, and every match is of a
/// scanned node: matches ≤ scanned ≤ nodes.
pub proof fn law_matches_within_scanned(nodes: Seq<NodeFacts>, q: SpecQuery, rs: Seq<NumberReading>)
    ensures
        query_matches(nodes, q, rs).len() <= scanned_count(nodes, q.target) <= nodes.len(),
    decreases nodes.len(),
{
    if nodes.len() > 0 {
        law_matches_within_scanned(nodes.drop_last(), q, rs);
    }
}

/// A query without conditions matches every node it scans.
pub proof fn law_no_conditions_match_all_scanned(nodes: Seq<NodeFacts>, t: Target, rs: Seq<NumberReading>)
    ensures
        query_matches(nodes, SpecQuery { target: t, conditions: Seq::empty() }, rs).len() == scanned_count(nodes, t),
    decreases nodes.len(),
{
    if nodes.len() > 0 {
        law_no_conditions_match_all_scanned(nodes.drop_last(), t, rs);
    }
}

/// `f` picks, in increasing order, the positions in `src` of the items of `ms`.
pub open spec fn picks<A>(ms: Seq<A>, src: Seq<A>, f: Seq<int>) -> bool {
    &&& f.len() == ms.len()
    &&& forall|i: int| 0 <= i < f.len() ==> 0 <= #[trigger] f[i] < src.len() && ms[i] == src[f[i]]
    &&& forall|i: int, j: int| 0 <= i < j < f.len() ==> #[trigger] f[i] < #[trigger] f[j]
}

/// `ms` is a subsequence of `src`: its items occur there in the same order.
pub open spec fn subsequence_of<A>(ms: Seq<A>, src: Seq<A>) -> bool {
    exists|f: Seq<int>| #[trigger] picks(ms, src, f)
}

proof fn lemma_picks_extend<A>(ms: Seq<A>, src: Seq<A>, f: Seq<int>, x: A)
    requires
        picks(ms, src, f),
    ensures
        picks(ms, src.push(x), f),
        picks(ms.push(x), src.push(x), f.push(src.len() as int)),
{
    assert forall|i: int| 0 <= i < f.len() implies ms[i] == src.push(x)[f[i]] by {
        assert(src.push(x)[f[i]] == src[f[i]]);
    }
    let g = f.push(src.len() as int);
    assert forall|i: int| 0 <= i < g.len() implies 0 <= #[trigger] g[i] < src.push(x).len() && ms.push(x)[i] == src.push(x)[g[i]] by {
        if i < f.len() {
            assert(g[i] == f[i]);
            assert(src.push(x)[f[i]] == src[f[i]]);
        }
    }
}

/// `f` picks, in order, the nodes that the matches of `q` report, and each of them
/// is in scope with every condition holding.
pub open spec fn picks_matching_nodes(nodes: Seq<NodeFacts>, q: SpecQuery, rs: Seq<NumberReading>, f: Seq<int>) -> bool {
    &&& picks(query_matches(nodes, q, rs), nodes.map_values(|n: NodeFacts| match_of(n)), f)
    &&& forall|i: int| 0 <= i < f.len() ==> in_scope(#[trigger] nodes[f[i]], q.target)
        && all_hold(nodes[f[i]], q.conditions, rs)
}

/// The matches of a query come from its nodes, in their order: each reports a node
/// of the searched kind, not a placeholder, of which every condition holds.
pub proof fn law_matches_follow_the_nodes(nodes: Seq<NodeFacts>, q: SpecQuery, rs: Seq<NumberReading>)
    ensures
        exists|f: Seq<int>| picks_matching_nodes(nodes, q, rs, f),
    decreases nodes.len(),
{
    let ms = query_matches(nodes, q, rs);
    let all = nodes.map_values(|n: NodeFacts| match_of(n));
    if nodes.len() == 0 {
        assert(picks_matching_nodes(nodes, q, rs, Seq::<int>::empty()));
    } else {
        let d = nodes.drop_last();
        law_matches_follow_the_nodes(d, q, rs);
        let before = query_matches(d, q, rs);
        let dall = d.map_values(|n: NodeFacts| match_of(n));
        let f = choose|f: Seq<int>| picks_matching_nodes(d, q, rs, f);
        let n = nodes.last();
        assert(all =~= dall.push(match_of(n)));
        lemma_picks_extend(before, dall, f, match_of(n));
        assert forall|i: int| 0 <= i < f.len() implies #[trigger] nodes[f[i]] == d[f[i]] by {}
        if in_scope(n, q.target) && all_hold(n, q.conditions, rs) {
            let g = f.push(d.len() as int);
            assert forall|i: int| 0 <= i < g.len() implies in_scope(#[trigger] nodes[g[i]], q.target)
                && all_hold(nodes[g[i]], q.conditions, rs) by {
                if i < f.len() {
                    assert(g[i] == f[i]);
                    assert(nodes[f[i]] == d[f[i]]);
                } else {
                    assert(nodes[d.len() as int] == n);
                }
            }
            assert(picks_matching_nodes(nodes, q, rs, g));
        } else {
            assert forall|i: int| 0 <= i < f.len() implies in_scope(#[trigger] nodes[f[i]], q.target)
                && all_hold(nodes[f[i]], q.conditions, rs) by {
                assert(nodes[f[i]] == d[f[i]]);
            }
            assert(picks_matching_nodes(nodes, q, rs, f));
        }
    }
}

/// Adding conditions (they are joined by AND) only drops matches: the matches with
/// more conditions are a subsequence of those with fewer, and so are no more.
pub proof fn law_more_conditions_fewer_matches(
    nodes: Seq<NodeFacts>,
    t: Target,
    c1: Seq<SpecCondition>,
    c2: Seq<SpecCondition>,
    rs: Seq<NumberReading>,
)
    ensures
        subsequence_of(
            query_matches(nodes, SpecQuery { target: t, conditions: c1 + c2 }, rs),
            query_matches(nodes, SpecQuery { target: t, conditions: c1 }, rs),
        ),
        query_matches(nodes, SpecQuery { target: t, conditions: c1 + c2 }, rs).len()
            <= query_matches(nodes, SpecQuery { target: t, conditions: c1 }, rs).len(),
    decreases nodes.len(),
{
    let q1 = SpecQuery { target: t, conditions: c1 };
    let q2 = SpecQuery { target: t, conditions: c1 + c2 };
    if nodes.len() == 0 {
        assert(picks(query_matches(nodes, q2, rs), query_matches(nodes, q1, rs), Seq::<int>::empty()));
    } else {
        law_more_conditions_fewer_matches(nodes.drop_last(), t, c1, c2, rs);
        let a = query_matches(nodes.drop_last(), q2, rs);
        let b = query_matches(nodes.drop_last(), q1, rs);
        let f = choose|f: Seq<int>| #[trigger] picks(a, b, f);
        let n = nodes.last();
        if all_hold(n, c1 + c2, rs) {
            assert forall|i: int| 0 <= i < c1.len() implies condition_holds(n, #[trigger] c1[i], rs) by {
                assert((c1 + c2)[i] == c1[i]);
            }
        }
        lemma_picks_extend(a, b, f, match_of(n));
    }
}

/// A node is scanned by a query exactly when it is not a placeholder and is of the
/// searched kind: a function for `functions`, a data type for `types`, a module
/// for `modules`, a binding for `bindings`, anything for `all`.
pub proof fn law_scope_by_kind(n: NodeFacts)
    ensures
        in_scope(n, Target::Functions) == (!n.is_placeholder && n.kind == NodeKind::Function),
        in_scope(n, Target::Types) == (!n.is_placeholder && exists|d: DataTypeKind| n.kind == NodeKind::DataType(d)),
        in_scope(n, Target::Modules) == (!n.is_placeholder && n.kind == NodeKind::Module),
        in_scope(n, Target::Bindings) == (!n.is_placeholder && n.kind == NodeKind::Binding),
        in_scope(n, Target::All) == !n.is_placeholder,
{
    match n.kind {
        NodeKind::DataType(d) => {
            assert(n.kind == NodeKind::DataType(d));
        },
        _ => {},
    }
}

/// Every match of a `modules` query reports kind `module`, of a `functions` query
/// kind `function`, of a `bindings` query kind `binding`, and of a `types` query
/// the name of a data type kind; and it reports a node that is not a placeholder.
pub proof fn law_matches_have_the_searched_kind(nodes: Seq<NodeFacts>, conds: Seq<SpecCondition>, rs: Seq<NumberReading>, j: int)
    ensures
        0 <= j < query_matches(nodes, SpecQuery { target: Target::Modules, conditions: conds }, rs).len()
            ==> query_matches(nodes, SpecQuery { target: Target::Modules, conditions: conds }, rs)[j].kind == "module"@,
        0 <= j < query_matches(nodes, SpecQuery { target: Target::Functions, conditions: conds }, rs).len()
            ==> query_matches(nodes, SpecQuery { target: Target::Functions, conditions: conds }, rs)[j].kind == "function"@,
        0 <= j < query_matches(nodes, SpecQuery { target: Target::Bindings, conditions: conds }, rs).len()
            ==> query_matches(nodes, SpecQuery { target: Target::Bindings, conditions: conds }, rs)[j].kind == "binding"@,
        0 <= j < query_matches(nodes, SpecQuery { target: Target::Types, conditions: conds }, rs).len() ==> {
            let k = query_matches(nodes, SpecQuery { target: Target::Types, conditions: conds }, rs)[j].kind;
            k == "struct"@ || k == "class"@ || k == "interface"@ || k == "trait"@ || k == "enum"@ || k == "union"@
                || k == "typealias"@
        },
        0 <= j < query_matches(nodes, SpecQuery { target: Target::All, conditions: conds }, rs).len()
            ==> exists|i: int| 0 <= i < nodes.len() && !nodes[i].is_placeholder
                && query_matches(nodes, SpecQuery { target: Target::All, conditions: conds }, rs)[j] == match_of(#[trigger] nodes[i]),
{
    let all = nodes.map_values(|n: NodeFacts| match_of(n));
    let ts = seq![Target::Modules, Target::Functions, Target::Bindings, Target::Types, Target::All];
    assert forall|x: int| 0 <= x < 5 implies {
        let q = SpecQuery { target: #[trigger] ts[x], conditions: conds };
        0 <= j < query_matches(nodes, q, rs).len() ==> exists|i: int| 0 <= i < nodes.len()
            && query_matches(nodes, q, rs)[j] == match_of(nodes[i]) && in_scope(nodes[i], q.target)
    } by {
        let q = SpecQuery { target: ts[x], conditions: conds };
        law_matches_follow_the_nodes(nodes, q, rs);
        let f = choose|f: Seq<int>| picks_matching_nodes(nodes, q, rs, f);
        if 0 <= j < query_matches(nodes, q, rs).len() {
            let i = f[j];
            assert(all[i] == match_of(nodes[i]));
            assert(query_matches(nodes, q, rs)[j] == match_of(nodes[i]) && in_scope(nodes[i], q.target));
        }
    }
    assert(ts[0] == Target::Modules);
    assert(ts[1] == Target::Functions);
    assert(ts[2] == Target::Bindings);
    assert(ts[3] == Target::Types);
    assert(ts[4] == Target::All);
}

} // verus!
