use slug::ast::{Expression, Operand, Statement, Type};
use slug::climb::climb;
use slug::error::ErrorKind;
use slug::lexer::{lex, Token, TokenType};
use slug::parser::{parse, parse_source, Parser};
use slug::traveler::Traveler;

fn ident(n: &str) -> Box<Expression> {
    Box::new(Expression::Identifier(n.to_string()))
}

fn op(l: Box<Expression>, o: Operand, r: Box<Expression>) -> Box<Expression> {
    Box::new(Expression::Operation { left: l, op: o, right: r })
}

fn value_of(src: &str) -> Expression {
    let prog = parse_source(src, 4).unwrap();
    match prog.into_iter().next().unwrap() {
        Statement::Expression(Expression::Definition(_, _, Some(v))) => *v,
        other => panic!("not a definition: {:?}", other),
    }
}

#[test]
fn tighter_operator_on_the_right_groups_right() {
    assert_eq!(value_of("x = a + b * c"), *op(ident("a"), Operand::Add, op(ident("b"), Operand::Mul, ident("c"))));
}

#[test]
fn tighter_operator_on_the_left_groups_left() {
    assert_eq!(value_of("x = a * b + c"), *op(op(ident("a"), Operand::Mul, ident("b")), Operand::Add, ident("c")));
}

#[test]
fn equal_levels_group_left() {
    assert_eq!(value_of("x = a - b - c"), *op(op(ident("a"), Operand::Sub, ident("b")), Operand::Sub, ident("c")));
}

#[test]
fn mixed_chain_respects_levels() {
    let want = op(op(ident("a"), Operand::Add, op(ident("b"), Operand::Mul, ident("c"))), Operand::Lt, ident("d"));
    assert_eq!(value_of("x = a + b * c < d"), *want);
}

#[test]
fn climb_on_lists() {
    let r = climb(
        Expression::Identifier("a".to_string()),
        vec![(Operand::Pow, Expression::Identifier("b".to_string())), (Operand::Equal, Expression::Identifier("c".to_string()))],
    );
    assert_eq!(r, *op(op(ident("a"), Operand::Pow, ident("b")), Operand::Equal, ident("c")));
}

#[test]
fn parsing_twice_gives_the_same_tree() {
    let src = "fun f (x num, y) num:\n    z = x * 2\n    z + 1\nw = [ k = 1, 2 ]\nv = f 1 2";
    assert_eq!(parse_source(src, 4).unwrap(), parse_source(src, 4).unwrap());
}

#[test]
fn indented_function_body() {
    let prog = parse_source("fun f (x num) num:\n    y = x + 1\n    y * 2", 4).unwrap();
    match &prog[0] {
        Statement::Fun { name, param_names, param_types, t, body } => {
            assert_eq!(name, "f");
            assert_eq!(param_names, &vec!["x".to_string()]);
            assert_eq!(param_types, &vec![Type::Num]);
            assert_eq!(t, &Some(Type::Num));
            assert_eq!(body.len(), 2);
        },
        other => panic!("not a function: {:?}", other),
    }
}

#[test]
fn untyped_parameters_are_any_and_arrays_parse() {
    let prog = parse_source("fun f (x, y str..): x", 4).unwrap();
    match &prog[0] {
        Statement::Fun { param_types, t, .. } => {
            assert_eq!(param_types, &vec![Type::Any, Type::Array(Box::new(Type::Str))]);
            assert_eq!(t, &None);
        },
        other => panic!("not a function: {:?}", other),
    }
}

#[test]
fn member_assignment_and_calls() {
    let prog = parse_source("a.b = 1\nf x, \"s\"\ng!", 4).unwrap();
    assert_eq!(
        prog[0],
        Statement::Expression(Expression::Definition(
            None,
            Box::new(Expression::Index(ident("a"), ident("b"))),
            Some(Box::new(Expression::NumberLiteral("1".to_string())))
        ))
    );
    assert_eq!(
        prog[1],
        Statement::Expression(Expression::Call(ident("f"), vec![Expression::Identifier("x".to_string()), Expression::StringLiteral("s".to_string())]))
    );
    assert_eq!(prog[2], Statement::Expression(Expression::Call(ident("g"), vec![])));
}

#[test]
fn literal_to_the_left_of_assignment_is_refused() {
    let e = parse_source("(1) = 2", 4).unwrap_err();
    assert_eq!(e.kind, ErrorKind::IllegalAssignmentTarget);
    assert_eq!(e.position.map(|p| (p.line, p.col)), Some((1, 5)));
}

#[test]
fn missing_value_is_unexpected_end() {
    let e = parse_source("a =", 4).unwrap_err();
    assert_eq!(e.kind, ErrorKind::UnexpectedEnd);
    assert_eq!(e.position.map(|p| (p.line, p.col)), Some((1, 3)));
}

#[test]
fn unclosed_parenthesis_expects_content() {
    let e = parse_source("a = (1 2", 4).unwrap_err();
    assert_eq!(e.kind, ErrorKind::ExpectedContent);
}

#[test]
fn stray_symbol_is_unexpected() {
    let e = parse_source(")", 4).unwrap_err();
    assert_eq!(e.kind, ErrorKind::UnexpectedToken);
    assert_eq!(e.position.map(|p| (p.line, p.col)), Some((1, 1)));
}

#[test]
fn parse_needs_a_block() {
    let t = Token { token_type: TokenType::EOL, content: "\n".to_string(), position: slug::error::Position { line: 1, col: 1 } };
    assert_eq!(parse(&t).unwrap_err().kind, ErrorKind::ExpectedKind);
}

#[test]
fn parser_methods_on_a_cursor() {
    let root = lex("x 1", 4).unwrap();
    let toks = match root.token_type {
        TokenType::Block(c) => c,
        _ => panic!("no block"),
    };
    let mut p = Parser::new(Traveler::new(toks));
    p.traveler.index = 1;
    assert_eq!(p.term().unwrap(), Expression::NumberLiteral("1".to_string()));
    p.skip_whitespace().unwrap();
    assert_eq!(p.traveler.index, 3);
    assert!(p.statement().unwrap().is_none());
}

#[test]
fn parser_types_reads_array_types() {
    let root = lex("num.. x", 4).unwrap();
    let toks = match root.token_type {
        TokenType::Block(c) => c,
        _ => panic!("no block"),
    };
    let mut p = Parser::new(Traveler::new(toks));
    assert_eq!(p.types().unwrap(), Some(Type::Array(Box::new(Type::Num))));
    assert_eq!(p.traveler.index, 2);
    assert_eq!(p.types().unwrap(), None);
}

#[test]
fn parse_all_from_cursor() {
    let root = lex("a = 1\nb = a", 4).unwrap();
    let toks = match root.token_type {
        TokenType::Block(c) => c,
        _ => panic!("no block"),
    };
    let mut p = Parser::new(Traveler::new(toks));
    let prog = p.parse().unwrap();
    assert_eq!(prog.len(), 2);
}
