use houndlens::parser::{parse, CompOp, Condition, ParseError, Target, Token, Value};

#[test]
fn test_simple_query() {
    let q = parse("FIND functions WHERE complexity > 10").unwrap();
    assert_eq!(q.target, Target::Functions);
    assert_eq!(q.conditions.len(), 1);
}

#[test]
fn test_predicate_query() {
    let q = parse("FIND functions WHERE calls(db.query) AND NOT handles(Error)").unwrap();
    assert_eq!(q.target, Target::Functions);
    assert_eq!(q.conditions.len(), 2);
    match &q.conditions[0] {
        Condition::Predicate { name, args } => {
            assert_eq!(name, "calls");
            assert_eq!(args, &["db.query"]);
        }
        _ => panic!("Expected predicate"),
    }
    match &q.conditions[1] {
        Condition::Not(inner) => match inner.as_ref() {
            Condition::Predicate { name, .. } => assert_eq!(name, "handles"),
            _ => panic!("Expected predicate inside NOT"),
        },
        _ => panic!("Expected NOT"),
    }
}

#[test]
fn test_multi_condition() {
    let q = parse("FIND functions WHERE visibility = public AND async = true AND complexity > 5").unwrap();
    assert_eq!(q.conditions.len(), 3);
}

#[test]
fn test_regex_query() {
    let q = parse(r#"FIND functions WHERE name ~ "test_.*""#).unwrap();
    assert_eq!(q.conditions.len(), 1);
    match &q.conditions[0] {
        Condition::Regex { field, pattern } => {
            assert_eq!(field, "name");
            assert_eq!(pattern, "test_.*");
        }
        _ => panic!("Expected regex condition"),
    }
}

#[test]
fn test_types_query() {
    let q = parse("FIND types WHERE fields > 5").unwrap();
    assert_eq!(q.target, Target::Types);
}

#[test]
fn test_no_where() {
    let q = parse("FIND functions").unwrap();
    assert_eq!(q.target, Target::Functions);
    assert!(q.conditions.is_empty());
}

#[test]
fn test_lowercase() {
    let q = parse("find fns where complexity > 10").unwrap();
    assert_eq!(q.target, Target::Functions);
}

#[test]
fn comparison_operand_kinds() {
    let q = parse("all where a >= 1.5 and b != 'x y' and c <= .5e3 and d < nan and e = false and f = bar").unwrap();
    assert_eq!(q.target, Target::All);
    assert_eq!(q.conditions.len(), 6);
    let ops: Vec<CompOp> = q
        .conditions
        .iter()
        .map(|c| match c {
            Condition::Comparison { op, .. } => *op,
            _ => panic!("Expected comparison"),
        })
        .collect();
    assert_eq!(ops, vec![CompOp::Gte, CompOp::NotEq, CompOp::Lte, CompOp::Lt, CompOp::Eq, CompOp::Eq]);
    match &q.conditions[0] {
        Condition::Comparison { value: Value::Number(n), .. } => assert_eq!(n, "1.5"),
        _ => panic!("Expected number"),
    }
    match &q.conditions[1] {
        Condition::Comparison { value: Value::String(s), .. } => assert_eq!(s, "x y"),
        _ => panic!("Expected string"),
    }
    match &q.conditions[2] {
        Condition::Comparison { value: Value::Number(n), .. } => assert_eq!(n, ".5e3"),
        _ => panic!("Expected number from identifier"),
    }
    match &q.conditions[3] {
        Condition::Comparison { value: Value::Number(n), .. } => assert_eq!(n, "nan"),
        _ => panic!("Expected number from identifier"),
    }
    match &q.conditions[4] {
        Condition::Comparison { value: Value::Bool(b), .. } => assert!(!*b),
        _ => panic!("Expected bool"),
    }
    match &q.conditions[5] {
        Condition::Comparison { value: Value::Ident(s), .. } => assert_eq!(s, "bar"),
        _ => panic!("Expected identifier"),
    }
}

#[test]
fn target_aliases() {
    assert_eq!(parse("METHODS").unwrap().target, Target::Functions);
    assert_eq!(parse("classes").unwrap().target, Target::Types);
    assert_eq!(parse("mod").unwrap().target, Target::Modules);
    assert_eq!(parse("Constants").unwrap().target, Target::Bindings);
    assert_eq!(parse("find *").unwrap().target, Target::All);
}

#[test]
fn parse_errors() {
    assert!(matches!(parse("find fns where a ! b"), Err(ParseError::BangWithoutEq)));
    assert!(matches!(parse("find fns where a = 1.2.3"), Err(ParseError::InvalidNumber)));
    assert!(matches!(parse("find fns where a = $"), Err(ParseError::UnexpectedChar('$'))));
    assert!(matches!(parse("find widgets"), Err(ParseError::UnknownTarget(ref s)) if s == "widgets"));
    assert!(matches!(parse("find"), Err(ParseError::ExpectedIdentifier(_))));
    assert!(matches!(parse("find fns where calls(a, =)"), Err(ParseError::UnexpectedPredicateArg(_))));
    assert!(matches!(parse("find fns where name ~ 3"), Err(ParseError::ExpectedPattern(_))));
    assert!(matches!(parse("find fns where name foo"), Err(ParseError::ExpectedOperator(ref f, _)) if f == "name"));
    assert!(matches!(parse("find fns where name ="), Err(ParseError::ExpectedValue(_))));
}

#[test]
fn predicate_arguments() {
    let q = parse("fns where in_file(\"src/a.rs\", 10, lib/b.rs").unwrap();
    match &q.conditions[0] {
        Condition::Predicate { name, args } => {
            assert_eq!(name, "in_file");
            assert_eq!(args, &["src/a.rs", "10", "lib/b.rs"]);
        }
        _ => panic!("Expected predicate"),
    }
}

#[test]
fn trailing_tokens_rejected() {
    assert!(matches!(parse("fns extra words"), Err(ParseError::TrailingToken(Token::Ident(ref w))) if w == "extra"));
    assert!(matches!(parse("fns where a = 1 b = 2"), Err(ParseError::TrailingToken(Token::Ident(ref w))) if w == "b"));
    assert!(matches!(
        parse("FIND functions WHERE complexity > 10 OR name = main"),
        Err(ParseError::TrailingToken(Token::Or))
    ));
    assert!(matches!(parse("fns where calls(a) )"), Err(ParseError::TrailingToken(Token::RParen))));
    assert_eq!(parse("fns where a = 1 AND b = 2").unwrap().conditions.len(), 2);
}

#[test]
fn identifiers_take_unicode_letters() {
    let q = parse("find fns where name = café_2").unwrap();
    match &q.conditions[0] {
        Condition::Comparison { value: Value::Ident(s), .. } => assert_eq!(s, "café_2"),
        _ => panic!("Expected identifier"),
    }
    let q = parse("FiNd FuNcTiOnS wHeRe NoT async = TRUE").unwrap();
    assert_eq!(q.target, Target::Functions);
    match &q.conditions[0] {
        Condition::Not(inner) => match inner.as_ref() {
            Condition::Comparison { value: Value::Bool(b), .. } => assert!(*b),
            _ => panic!("Expected comparison inside NOT"),
        },
        _ => panic!("Expected NOT"),
    }
}
