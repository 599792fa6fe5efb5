use slug::ast::{Expression, Operand, Statement, Type};
use slug::check::check;
use slug::env::{SymTab, TypeTab};
use slug::error::ErrorKind;
use slug::parser::parse_source;

fn ident(n: &str) -> Box<Expression> {
    Box::new(Expression::Identifier(n.to_string()))
}

fn num(n: &str) -> Box<Expression> {
    Box::new(Expression::NumberLiteral(n.to_string()))
}

fn type_of(sym: &SymTab, env: &TypeTab, n: &str) -> Type {
    let (k, d) = sym.get_name(&n.to_string()).unwrap();
    env.get_type(k, d).unwrap()
}

#[test]
fn s1_typed_definition() {
    let prog = parse_source("a num = 10", 4).unwrap();
    assert_eq!(
        prog,
        vec![Statement::Expression(Expression::Definition(Some(Type::Num), ident("a"), Some(num("10"))))]
    );
    let mut sym = SymTab::new_global();
    let mut env = TypeTab::new_global();
    check(&prog, &mut sym, &mut env).unwrap();
    assert_eq!(type_of(&sym, &env, "a"), Type::Num);
}

#[test]
fn s2_definition_uses_earlier_name() {
    let prog = parse_source("a num = 10\nb num = 10 + a", 4).unwrap();
    let mut sym = SymTab::new_global();
    let mut env = TypeTab::new_global();
    check(&prog, &mut sym, &mut env).unwrap();
    assert_eq!(type_of(&sym, &env, "b"), Type::Num);
}

#[test]
fn s3_named_function() {
    let prog = parse_source("fun add (a num) num: a + 10", 4).unwrap();
    let body = vec![Statement::Expression(Expression::Operation { left: ident("a"), op: Operand::Add, right: num("10") })];
    assert_eq!(
        prog,
        vec![Statement::Fun {
            name: "add".to_string(),
            param_names: vec!["a".to_string()],
            param_types: vec![Type::Num],
            t: Some(Type::Num),
            body,
        }]
    );
    let mut sym = SymTab::new_global();
    let mut env = TypeTab::new_global();
    check(&prog, &mut sym, &mut env).unwrap();
    assert_eq!(type_of(&sym, &env, "add"), Type::Fun(vec![Type::Num, Type::Num]));
}

#[test]
fn s4_anonymous_function_and_call() {
    let prog = parse_source("a = fun (b num) num: b + 10\nc = a 10", 4).unwrap();
    let mut sym = SymTab::new_global();
    let mut env = TypeTab::new_global();
    check(&prog, &mut sym, &mut env).unwrap();
    assert_eq!(type_of(&sym, &env, "a"), Type::Fun(vec![Type::Num, Type::Num]));
    assert_eq!(type_of(&sym, &env, "c"), Type::Num);
}

#[test]
fn s5_argument_of_wrong_type() {
    let prog = parse_source("a = fun (b num) num: b + 10\nc = a \"feature hrm\"", 4).unwrap();
    let mut sym = SymTab::new_global();
    let mut env = TypeTab::new_global();
    let e = check(&prog, &mut sym, &mut env).unwrap_err();
    assert_eq!(e.kind, ErrorKind::ArityMismatch);
}

#[test]
fn s6_dictionary_member_call() {
    let prog = parse_source("b = [ a = fun (b num) num: b + 10 ]\nc num = b.a 100", 4).unwrap();
    match &prog[0] {
        Statement::Expression(Expression::Definition(None, target, Some(v))) => {
            assert_eq!(**target, Expression::Identifier("b".to_string()));
            match &**v {
                Expression::DictLiteral(items) => {
                    assert_eq!(items.len(), 1);
                    assert!(matches!(items[0], Expression::Definition(None, _, Some(_))));
                },
                other => panic!("not a dictionary: {:?}", other),
            }
        },
        other => panic!("not a definition: {:?}", other),
    }
    let call = Expression::Call(Box::new(Expression::Index(ident("b"), ident("a"))), vec![Expression::NumberLiteral("100".to_string())]);
    assert_eq!(
        prog[1],
        Statement::Expression(Expression::Definition(Some(Type::Num), ident("c"), Some(Box::new(call))))
    );
    let mut sym = SymTab::new_global();
    let mut env = TypeTab::new_global();
    check(&prog, &mut sym, &mut env).unwrap();
    assert_eq!(type_of(&sym, &env, "c"), Type::Num);
}

#[test]
fn s7_parenthesised_zero_argument_call() {
    let prog = parse_source("e = (fun num: 10)!", 4).unwrap();
    let fun = Expression::Fun {
        param_names: vec![],
        param_types: vec![],
        t: Some(Type::Num),
        body: vec![Statement::Expression(Expression::NumberLiteral("10".to_string()))],
    };
    assert_eq!(
        prog,
        vec![Statement::Expression(Expression::Definition(None, ident("e"), Some(Box::new(Expression::Call(Box::new(fun), vec![])))))]
    );
    let mut sym = SymTab::new_global();
    let mut env = TypeTab::new_global();
    check(&prog, &mut sym, &mut env).unwrap();
    assert_eq!(type_of(&sym, &env, "e"), Type::Num);
}
