use houndlens::executor::glob_match;

#[test]
fn test_glob_match() {
    assert!(glob_match("test_*", "test_foo"));
    assert!(glob_match("test_*", "test_"));
    assert!(!glob_match("test_*", "my_test_foo"));
    assert!(glob_match("*test*", "my_test_foo"));
    assert!(glob_match("*.rs", "foo.rs"));
    assert!(!glob_match("*.rs", "foo.py"));
}

#[test]
fn glob_edges() {
    assert!(glob_match("", ""));
    assert!(!glob_match("", "a"));
    assert!(glob_match("oo", "foo"));
    assert!(glob_match("*", "anything"));
    assert!(glob_match("a*c", "abc"));
    // Leftmost placement: the first `b` is taken, so the text does not end there.
    assert!(!glob_match("a*b", "abab"));
}

use houndlens::executor::{
    eval_predicate, eval_regex, get_visibility, matches_target, node_kind_str, node_to_match, Callee, DataTypeKind,
    NodeFacts, NodeKind, NumberReading, QueryResult,
};
use houndlens::float::F64Value;
use houndlens::parser::{parse, CompOp, Condition, ParseError, Query, Target, Value};

/// The exact value of an `f64`.
fn f64_value(x: f64) -> F64Value {
    if x.is_nan() {
        return F64Value::NaN;
    }
    if x.is_infinite() {
        return F64Value::Inf { neg: x < 0.0 };
    }
    let bits = x.to_bits();
    let neg = bits >> 63 == 1;
    let e = ((bits >> 52) & 0x7ff) as i32;
    let frac = bits & ((1u64 << 52) - 1);
    if e == 0 {
        F64Value::Finite { neg, mant: frac, exp: -1074 }
    } else {
        F64Value::Finite { neg, mant: frac | (1u64 << 52), exp: e - 1075 }
    }
}

fn reading(t: &str) -> NumberReading {
    NumberReading { text: t.to_string(), value: f64_value(t.parse::<f64>().unwrap()) }
}

fn collect_numbers(c: &Condition, out: &mut Vec<NumberReading>) {
    match c {
        Condition::Comparison { value: Value::Number(t), .. } | Condition::Comparison { value: Value::Ident(t), .. } => {
            if t.parse::<f64>().is_ok() {
                out.push(reading(t))
            }
        }
        Condition::Not(inner) => collect_numbers(inner, out),
        _ => {}
    }
}

fn readings_of(q: &Query) -> Vec<NumberReading> {
    let mut out = Vec::new();
    for c in &q.conditions {
        collect_numbers(c, &mut out);
    }
    out
}

fn readings_for(texts: &[&str]) -> Vec<NumberReading> {
    texts.iter().map(|t| reading(t)).collect()
}

fn num(v: &Value) -> Vec<NumberReading> {
    match v {
        Value::Number(t) | Value::Ident(t) if t.parse::<f64>().is_ok() => vec![reading(t)],
        _ => vec![],
    }
}

fn compare_num(actual: u64, op: CompOp, value: &Value) -> bool {
    houndlens::executor::compare_num(actual, op, value, &num(value))
}

fn eval_comparison(n: &NodeFacts, field: &String, op: CompOp, value: &Value) -> bool {
    houndlens::executor::eval_comparison(n, field, op, value, &num(value))
}

fn eval_condition(n: &NodeFacts, c: &Condition) -> bool {
    let mut r = Vec::new();
    collect_numbers(c, &mut r);
    houndlens::executor::eval_condition(n, c, &r)
}

fn execute(nodes: &Vec<NodeFacts>, q: &Query, text: &str) -> QueryResult {
    houndlens::executor::execute(nodes, q, text, &readings_of(q))
}

fn run_query(nodes: &Vec<NodeFacts>, text: &str) -> Result<QueryResult, ParseError> {
    let r = match parse(text) {
        Ok(q) => readings_of(&q),
        Err(_) => Vec::new(),
    };
    houndlens::executor::run_query(nodes, text, &r)
}

fn node(id: u64, kind: NodeKind, name: &str) -> NodeFacts {
    let short = name.rsplit("::").next().unwrap_or("").to_string();
    NodeFacts {
        id,
        kind,
        name: name.to_string(),
        short_name: short,
        visibility: None,
        file: "src/lib.rs".to_string(),
        start_line: 1,
        complexity: None,
        params: 0,
        fields: Vec::new(),
        methods: 0,
        is_async: false,
        is_unsafe: false,
        return_type: None,
        implements: Vec::new(),
        is_constant: false,
        is_mutable: false,
        is_placeholder: false,
        callees: Vec::new(),
        callers: Vec::new(),
    }
}

fn function(id: u64, name: &str, complexity: u32, params: usize) -> NodeFacts {
    let mut n = node(id, NodeKind::Function, name);
    n.visibility = Some("Public".to_string());
    n.complexity = Some(complexity);
    n.params = params;
    n
}

fn s(x: &str) -> String {
    x.to_string()
}

#[test]
fn comparison_on_names() {
    let n = function(1, "auth::login", 3, 1);
    assert!(eval_comparison(&n, &s("name"), CompOp::Eq, &Value::String(s("login"))));
    assert!(eval_comparison(&n, &s("name"), CompOp::Eq, &Value::Ident(s("auth::login"))));
    assert!(!eval_comparison(&n, &s("name"), CompOp::NotEq, &Value::Ident(s("login"))));
    assert!(eval_comparison(&n, &s("name"), CompOp::NotEq, &Value::Ident(s("logout"))));
    assert!(!eval_comparison(&n, &s("name"), CompOp::Gt, &Value::Ident(s("login"))));
    assert!(!eval_comparison(&n, &s("name"), CompOp::Eq, &Value::Number(s("1"))));
}

#[test]
fn comparison_on_visibility_ignores_case() {
    let n = function(1, "f", 3, 1);
    assert!(eval_comparison(&n, &s("visibility"), CompOp::Eq, &Value::Ident(s("public"))));
    assert!(eval_comparison(&n, &s("vis"), CompOp::Eq, &Value::String(s("PUBLIC"))));
    assert!(eval_comparison(&n, &s("vis"), CompOp::NotEq, &Value::Ident(s("private"))));
    let m = node(2, NodeKind::Module, "m");
    assert_eq!(get_visibility(&m), "Private");
    assert!(eval_comparison(&m, &s("visibility"), CompOp::Eq, &Value::Ident(s("private"))));
}

#[test]
fn comparison_on_counts() {
    let f = function(1, "f", 12, 3);
    assert!(eval_comparison(&f, &s("complexity"), CompOp::Gt, &Value::Number(s("10"))));
    assert!(!eval_comparison(&f, &s("complexity"), CompOp::Lt, &Value::Number(s("10"))));
    assert!(eval_comparison(&f, &s("params"), CompOp::Eq, &Value::Number(s("3"))));
    assert!(eval_comparison(&f, &s("param_count"), CompOp::Gte, &Value::Number(s("3"))));
    let mut t = node(2, NodeKind::DataType(DataTypeKind::Struct), "Point");
    t.fields = vec![s("x"), s("y")];
    assert!(eval_comparison(&t, &s("fields"), CompOp::Eq, &Value::Number(s("2"))));
    assert!(eval_comparison(&t, &s("field_count"), CompOp::Lte, &Value::Number(s("2"))));
    // Counts of the wrong kind of node never match.
    assert!(!eval_comparison(&t, &s("complexity"), CompOp::Gte, &Value::Number(s("0"))));
    assert!(!eval_comparison(&f, &s("fields"), CompOp::Gte, &Value::Number(s("0"))));
    // A function without a known complexity counts as 0.
    let mut g = function(3, "g", 0, 0);
    g.complexity = None;
    assert!(eval_comparison(&g, &s("complexity"), CompOp::Eq, &Value::Number(s("0"))));
}

#[test]
fn comparison_on_flags() {
    let mut f = function(1, "f", 1, 0);
    f.is_async = true;
    assert!(eval_comparison(&f, &s("async"), CompOp::Eq, &Value::Bool(true)));
    assert!(!eval_comparison(&f, &s("async"), CompOp::NotEq, &Value::Bool(true)));
    assert!(eval_comparison(&f, &s("async"), CompOp::Eq, &Value::Ident(s("true"))));
    assert!(eval_comparison(&f, &s("async"), CompOp::NotEq, &Value::Ident(s("no"))));
    assert!(eval_comparison(&f, &s("unsafe"), CompOp::Eq, &Value::Bool(false)));
    assert!(eval_comparison(&f, &s("unsafe"), CompOp::Eq, &Value::Ident(s("nope"))));
    // `unsafe != <identifier>` never holds.
    assert!(!eval_comparison(&f, &s("unsafe"), CompOp::NotEq, &Value::Ident(s("true"))));
    assert!(!eval_comparison(&f, &s("async"), CompOp::Gt, &Value::Bool(true)));
}

#[test]
fn comparison_on_file_and_kind() {
    let mut f = function(1, "f", 1, 0);
    f.file = s("src\\auth\\login.rs");
    assert!(eval_comparison(&f, &s("file"), CompOp::Eq, &Value::String(s("auth/login.rs"))));
    assert!(!eval_comparison(&f, &s("file"), CompOp::Eq, &Value::String(s("auth"))));
    assert!(eval_comparison(&f, &s("file"), CompOp::NotEq, &Value::String(s("auth"))));
    assert!(eval_comparison(&f, &s("kind"), CompOp::Eq, &Value::Ident(s("FUNCTION"))));
    assert!(eval_comparison(&f, &s("kind"), CompOp::NotEq, &Value::Ident(s("struct"))));
    assert!(!eval_comparison(&f, &s("colour"), CompOp::Eq, &Value::Ident(s("red"))));
}

#[test]
fn compare_num_is_exact() {
    assert!(compare_num(10, CompOp::Gt, &Value::Number(s("9.5"))));
    assert!(compare_num(10, CompOp::Eq, &Value::Number(s("10.000"))));
    assert!(compare_num(10, CompOp::Eq, &Value::Number(s("1e1"))));
    assert!(compare_num(10, CompOp::Lt, &Value::Number(s("10.5"))));
    assert!(compare_num(3, CompOp::Gt, &Value::Number(s("-4"))));
    assert!(compare_num(3, CompOp::Lt, &Value::Number(s("inf"))));
    assert!(compare_num(3, CompOp::Gt, &Value::Number(s("-Infinity"))));
    for op in [CompOp::Eq, CompOp::NotEq, CompOp::Gt, CompOp::Lt, CompOp::Gte, CompOp::Lte] {
        assert!(!compare_num(3, op, &Value::Number(s("NaN"))));
    }
    // An identifier that is no number counts as zero; other operands never match.
    assert!(compare_num(0, CompOp::Eq, &Value::Ident(s("abc"))));
    assert!(compare_num(1, CompOp::Gt, &Value::Ident(s("abc"))));
    assert!(!compare_num(1, CompOp::Eq, &Value::String(s("1"))));
    assert!(!compare_num(1, CompOp::Eq, &Value::Bool(true)));
}

#[test]
fn comparisons_complement_on_numbers() {
    for (a, t) in [(5u64, "5"), (5, "4.9"), (5, "5.1"), (0, "-0"), (7, "7e0")] {
        let v = Value::Number(s(t));
        assert_ne!(compare_num(a, CompOp::Gt, &v), compare_num(a, CompOp::Lte, &v));
        assert_ne!(compare_num(a, CompOp::Lt, &v), compare_num(a, CompOp::Gte, &v));
        assert_ne!(compare_num(a, CompOp::Eq, &v), compare_num(a, CompOp::NotEq, &v));
    }
}

#[test]
fn predicates_on_calls() {
    let mut f = function(1, "api::handler", 1, 0);
    f.callees = vec![Callee { name: s("db::query"), short_name: s("query") }];
    f.callers = vec![s("main")];
    assert!(!eval_predicate(&f, &s("calls"), &vec![s("db.query")]));
    assert!(eval_predicate(&f, &s("calls"), &vec![s("db::q")]));
    assert!(eval_predicate(&f, &s("calls"), &vec![s("query")]));
    assert!(!eval_predicate(&f, &s("calls"), &vec![s("insert")]));
    assert!(eval_predicate(&f, &s("called_by"), &vec![s("mai")]));
    assert!(eval_predicate(&f, &s("calledby"), &vec![]));
    assert!(!eval_predicate(&f, &s("called_by"), &vec![s("other")]));
    assert!(eval_predicate(&f, &s("handles"), &vec![s("Error")]));
    assert!(eval_predicate(&f, &s("catches"), &vec![]));
    let g = function(2, "g", 1, 0);
    assert!(!eval_predicate(&g, &s("handles"), &vec![]));
    assert!(!eval_predicate(&g, &s("frobnicates"), &vec![]));
}

#[test]
fn predicates_on_types_and_files() {
    let mut f = function(1, "f", 1, 0);
    f.return_type = Some(s("Result<User, Error>"));
    f.file = s("src\\db\\mod.rs");
    assert!(eval_predicate(&f, &s("returns"), &vec![s("Result")]));
    assert!(!eval_predicate(&f, &s("returns"), &vec![s("Option")]));
    assert!(eval_predicate(&f, &s("in_file"), &vec![s("db/mod")]));
    assert!(eval_predicate(&f, &s("infile"), &vec![s("src/db")]));
    let mut t = node(2, NodeKind::DataType(DataTypeKind::Class), "User");
    t.fields = vec![s("id"), s("email")];
    t.implements = vec![s("Serializable")];
    assert!(eval_predicate(&t, &s("has_field"), &vec![s("email")]));
    assert!(!eval_predicate(&t, &s("hasfield"), &vec![s("mail")]));
    assert!(eval_predicate(&t, &s("implements"), &vec![s("Serial")]));
    assert!(!eval_predicate(&f, &s("implements"), &vec![s("Serial")]));
    assert!(!eval_predicate(&t, &s("returns"), &vec![]));
}

#[test]
fn regex_conditions_use_globs() {
    let mut f = function(1, "test_login", 1, 0);
    f.file = s("tests/auth.rs");
    assert!(eval_regex(&f, &s("name"), &s("test_*")));
    assert!(!eval_regex(&f, &s("name"), &s("*_logout")));
    assert!(eval_regex(&f, &s("file"), &s("*.rs")));
    assert!(!eval_regex(&f, &s("kind"), &s("*")));
}

#[test]
fn not_negates_a_condition() {
    let f = function(1, "f", 12, 0);
    let inner = Condition::Comparison { field: s("complexity"), op: CompOp::Gt, value: Value::Number(s("10")) };
    assert!(eval_condition(&f, &inner));
    let negated = Condition::Not(Box::new(inner));
    assert!(!eval_condition(&f, &negated));
}

#[test]
fn kinds_and_targets() {
    assert_eq!(node_kind_str(NodeKind::Function), "function");
    assert_eq!(node_kind_str(NodeKind::DataType(DataTypeKind::TypeAlias)), "typealias");
    assert_eq!(node_kind_str(NodeKind::ApiEndpoint), "endpoint");
    assert!(matches_target(NodeKind::Function, Target::Functions));
    assert!(matches_target(NodeKind::DataType(DataTypeKind::Enum), Target::Types));
    assert!(!matches_target(NodeKind::Module, Target::Bindings));
    assert!(matches_target(NodeKind::ApiEndpoint, Target::All));
}

#[test]
fn match_descriptions() {
    let mut f = function(7, "auth::login", 12, 2);
    f.is_async = true;
    f.is_unsafe = true;
    f.file = s("src\\auth.rs");
    f.start_line = 42;
    let m = node_to_match(&f);
    assert_eq!(m.node_id, 7);
    assert_eq!(m.file, "src/auth.rs");
    assert_eq!(m.line, 42);
    assert_eq!(m.name, "auth::login");
    assert_eq!(m.kind, "function");
    assert_eq!(m.description, "public fn(2 params, complexity 12, async, unsafe)");
    let plain = function(8, "f", 0, 0);
    assert_eq!(node_to_match(&plain).description, "public fn(0 params, complexity 0, )");
    let mut t = node(9, NodeKind::DataType(DataTypeKind::Struct), "Point");
    t.fields = vec![s("x"), s("y"), s("z")];
    t.methods = 2;
    assert_eq!(node_to_match(&t).description, "Struct with 3 fields, 2 methods");
    let mut b = node(10, NodeKind::Binding, "MAX");
    b.is_constant = true;
    b.is_mutable = true;
    assert_eq!(node_to_match(&b).description, "const binding (mut)");
    let l = node(11, NodeKind::Binding, "x");
    assert_eq!(node_to_match(&l).description, "let binding");
    assert_eq!(node_to_match(&node(12, NodeKind::Module, "m")).description, "module");
    assert_eq!(node_to_match(&node(13, NodeKind::ApiEndpoint, "GET /")).description, "endpoint");
}

fn sample_graph() -> Vec<NodeFacts> {
    let mut placeholder = function(4, "ext::unknown", 50, 0);
    placeholder.is_placeholder = true;
    vec![
        function(1, "a::simple", 2, 1),
        function(2, "a::complex", 15, 4),
        node(3, NodeKind::Module, "a"),
        placeholder,
        function(5, "b::tangled", 11, 2),
    ]
}

#[test]
fn execute_scans_and_filters() {
    let nodes = sample_graph();
    let q = parse("FIND functions WHERE complexity > 10").unwrap();
    let r = execute(&nodes, &q, "FIND functions WHERE complexity > 10");
    assert_eq!(r.total_scanned, 3);
    let ids: Vec<u64> = r.matches.iter().map(|m| m.node_id).collect();
    assert_eq!(ids, vec![2, 5]);
    assert_eq!(r.query_text, "FIND functions WHERE complexity > 10");
}

#[test]
fn execute_without_conditions_matches_all_scanned() {
    let nodes = sample_graph();
    let r = run_query(&nodes, "FIND all").unwrap();
    assert_eq!(r.total_scanned, 4);
    assert_eq!(r.matches.len(), 4);
}

#[test]
fn more_conditions_never_add_matches() {
    let nodes = sample_graph();
    let one = run_query(&nodes, "FIND functions WHERE complexity > 1").unwrap();
    let two = run_query(&nodes, "FIND functions WHERE complexity > 1 AND params >= 3").unwrap();
    assert_eq!(one.matches.len(), 3);
    assert_eq!(two.matches.len(), 1);
    assert!(two.matches.len() <= one.matches.len());
}

#[test]
fn run_query_reports_parse_errors() {
    let nodes = sample_graph();
    match run_query(&nodes, "FIND gadgets") {
        Err(ParseError::UnknownTarget(t)) => assert_eq!(t, "gadgets"),
        _ => panic!("expected an unknown target"),
    }
    assert!(matches!(run_query(&nodes, "FIND functions WHERE a ! b"), Err(ParseError::BangWithoutEq)));
}

#[test]
fn glob_laws_on_examples() {
    assert!(glob_match("*", ""));
    assert!(glob_match("src*", "src/main.rs"));
    assert!(!glob_match("src*", "lib/src"));
    assert!(glob_match("*auth*", "src/auth/mod.rs"));
    assert!(glob_match("*auth*", "src/oauth2/mod.rs"));
    assert!(glob_match("main", "src/main.rs"));
    // A suffix pattern is placed at the first occurrence of its piece.
    assert!(!glob_match("*.rs", "a.rs.rs"));
}

#[test]
fn numbers_compare_as_f64() {
    // Equality is the f64 test `(count - value).abs() < f64::EPSILON`.
    assert!(compare_num(0, CompOp::Eq, &Value::Number(s("0.0000000000000000001"))));
    assert!(!compare_num(0, CompOp::NotEq, &Value::Number(s("0.0000000000000000001"))));
    assert!(compare_num(0, CompOp::Lt, &Value::Number(s("0.0000000000000000001"))));
    assert!(compare_num(1, CompOp::Eq, &Value::Number(s("0.9999999999999999"))));
    assert!(!compare_num(1, CompOp::Eq, &Value::Number(s("0.9999999999999998"))));
    assert!(!compare_num(2, CompOp::Eq, &Value::Number(s("1.9999999999999998"))));
    // A literal reads as the nearest f64.
    assert!(!compare_num(10, CompOp::Gt, &Value::Number(s("9.99999999999999999999"))));
    assert!(compare_num(10, CompOp::Eq, &Value::Number(s("9.99999999999999999999"))));
    assert!(compare_num(5, CompOp::Lt, &Value::Number(s("1e400"))));
    assert!(compare_num(0, CompOp::Eq, &Value::Number(s("1e-400"))));
    assert!(compare_num(3, CompOp::Gt, &Value::Number(s("2.5e0"))));
    // A number with no reading never matches.
    assert!(!houndlens::executor::compare_num(3, CompOp::Gt, &Value::Number(s("1")), &readings_for(&["2"])));
    assert!(houndlens::executor::compare_num(3, CompOp::Gt, &Value::Number(s("1")), &readings_for(&["1", "5"])));
}

#[test]
fn matches_keep_node_order_when_conditions_are_added() {
    let nodes = sample_graph();
    let one = run_query(&nodes, "FIND functions WHERE complexity >= 2").unwrap();
    let two = run_query(&nodes, "FIND functions WHERE complexity >= 2 AND NOT params = 4").unwrap();
    let a: Vec<u64> = one.matches.iter().map(|m| m.node_id).collect();
    let b: Vec<u64> = two.matches.iter().map(|m| m.node_id).collect();
    assert_eq!(a, vec![1, 2, 5]);
    assert_eq!(b, vec![1, 5]);
}

#[test]
fn identifiers_that_are_numbers_compare_as_numbers() {
    assert!(compare_num(3, CompOp::Lt, &Value::Ident(s("inf"))));
    assert!(compare_num(3, CompOp::Gt, &Value::Ident(s("-infinity"))));
    assert!(!compare_num(3, CompOp::Eq, &Value::Ident(s("nan"))));
    assert!(!compare_num(3, CompOp::NotEq, &Value::Ident(s("nan"))));
    assert!(compare_num(3, CompOp::Eq, &Value::Ident(s("3.0"))));
    // Number text without a reading never matches; other identifiers count as zero.
    assert!(!houndlens::executor::compare_num(3, CompOp::Lt, &Value::Ident(s("inf")), &Vec::new()));
    assert!(houndlens::executor::compare_num(0, CompOp::Eq, &Value::Ident(s("main")), &Vec::new()));
}
