use slug::ast::{Expression, Statement, Type};
use slug::check::check;
use slug::env::{SymTab, TypeTab};
use slug::error::ErrorKind;
use slug::parser::parse_source;

fn check_src(src: &str) -> Result<(SymTab, TypeTab), ErrorKind> {
    let prog = parse_source(src, 4).unwrap();
    let mut sym = SymTab::new_global();
    let mut env = TypeTab::new_global();
    match check(&prog, &mut sym, &mut env) {
        Ok(()) => Ok((sym, env)),
        Err(e) => Err(e.kind),
    }
}

fn type_of(tabs: &(SymTab, TypeTab), n: &str) -> Type {
    let (k, d) = tabs.0.get_name(&n.to_string()).unwrap();
    tabs.1.get_type(k, d).unwrap()
}

#[test]
fn declared_type_must_fit_the_value() {
    assert_eq!(check_src("a num = \"x\"").err(), Some(ErrorKind::TypeMismatch));
}

#[test]
fn a_name_keeps_its_type() {
    assert_eq!(check_src("a = 1\na = \"s\"").err(), Some(ErrorKind::TypeMutation));
    assert!(check_src("a = 1\na = 2").is_ok());
}

#[test]
fn any_is_compatible_both_ways() {
    let tabs = check_src("a any = 1\na = \"s\"").unwrap();
    assert_eq!(type_of(&tabs, "a"), Type::Str);
}

#[test]
fn a_function_name_is_declared_once() {
    assert_eq!(check_src("fun f: 1\nfun f: 2").err(), Some(ErrorKind::Redeclared));
}

#[test]
fn undeclared_names_are_reported() {
    assert_eq!(check_src("b = c").err(), Some(ErrorKind::UnknownIdentifier));
    assert_eq!(check_src("c").err(), Some(ErrorKind::UnknownIdentifier));
    assert_eq!(check_src("x = 1 + y").err(), Some(ErrorKind::UnknownIdentifier));
}

#[test]
fn only_functions_are_called() {
    assert_eq!(check_src("a = 1\nb = a 2").err(), Some(ErrorKind::CallNonFun));
}

#[test]
fn only_arrays_are_indexed() {
    assert_eq!(check_src("a = 1\nb = a.c").err(), Some(ErrorKind::NotIndexable));
}

#[test]
fn body_must_have_the_return_type() {
    assert_eq!(check_src("fun f num: \"s\"").err(), Some(ErrorKind::ReturnTypeMismatch));
    assert!(check_src("fun f any: \"s\"").is_ok());
}

#[test]
fn operators_follow_their_table() {
    assert_eq!(check_src("a = \"s\" / 2").err(), Some(ErrorKind::OperatorTypeError));
    assert_eq!(check_src("a = 1 < \"s\"").err(), Some(ErrorKind::OperatorTypeError));
    let tabs = check_src("a = \"s\" + true\nb = 1 == \"s\"\nc = 2 ^ 3").unwrap();
    assert_eq!(type_of(&tabs, "a"), Type::Str);
    assert_eq!(type_of(&tabs, "b"), Type::Bool);
    assert_eq!(type_of(&tabs, "c"), Type::Num);
}

#[test]
fn call_counts_and_types_are_checked() {
    assert_eq!(check_src("fun f (a num) num: a\nx = f 1 2").err(), Some(ErrorKind::ArityMismatch));
    let tabs = check_src("fun f (a num, b str) num: a\nx = f 1 \"s\"").unwrap();
    assert_eq!(check_src("fun g (a num, b) num: a\nx = g 1 \"s\"").err(), Some(ErrorKind::ArityMismatch));
    assert_eq!(type_of(&tabs, "x"), Type::Num);
}

#[test]
fn recursion_sees_the_function_name() {
    assert!(check_src("fun f (n num) num: f n").is_ok());
}

#[test]
fn function_bodies_do_not_leak_names() {
    let tabs = check_src("fun f (a num) num:\n    y = a\n    y").unwrap();
    assert!(tabs.0.get_name(&"y".to_string()).is_none());
    assert!(tabs.0.get_name(&"a".to_string()).is_none());
}

#[test]
fn dictionary_entries_share_a_type() {
    assert_eq!(check_src("d = [1, \"s\"]").err(), Some(ErrorKind::TypeMismatch));
    let tabs = check_src("d = [1, 2]\ne = []").unwrap();
    assert_eq!(type_of(&tabs, "d"), Type::Array(Box::new(Type::Num)));
    assert_eq!(type_of(&tabs, "e"), Type::Array(Box::new(Type::Nil)));
}

#[test]
fn empty_array_literal_fits_any_array() {
    let tabs = check_src("a num.. = []").unwrap();
    assert_eq!(type_of(&tabs, "a"), Type::Array(Box::new(Type::Num)));
}

#[test]
fn variadic_tail_takes_compatible_arguments() {
    let mut sym = SymTab::new_global();
    let mut env = TypeTab::new_global();
    let slot = sym.add_name(&"p".to_string());
    env.set_type(slot, Type::Fun(vec![Type::Nil, Type::Str, Type::Many(Box::new(Type::Num))]));
    let ok = parse_source("p \"a\" 1 2 3", 4).unwrap();
    assert!(check(&ok, &mut sym, &mut env).is_ok());
    let bad = parse_source("p \"a\" 1 \"b\"", 4).unwrap();
    assert_eq!(check(&bad, &mut sym, &mut env).unwrap_err().kind, ErrorKind::ArityMismatch);
}

#[test]
fn inference_leaves_the_tables_alone() {
    let mut sym = SymTab::new_global();
    let mut env = TypeTab::new_global();
    let prog = parse_source("a = 1", 4).unwrap();
    check(&prog, &mut sym, &mut env).unwrap();
    let e = Expression::Definition(None, Box::new(Expression::Identifier("b".to_string())), Some(Box::new(Expression::Identifier("a".to_string()))));
    assert_eq!(e.get_type(&sym, &env).unwrap(), Type::Num);
    assert!(sym.get_name(&"b".to_string()).is_none());
    assert_eq!(env.size(), 1);
    let s = Statement::Expression(e);
    assert_eq!(s.get_type(&sym, &env).unwrap(), Type::Num);
    assert!(sym.get_name(&"b".to_string()).is_none());
}

#[test]
fn visit_reports_unbound_uses() {
    let mut sym = SymTab::new_global();
    let mut env = TypeTab::new_global();
    let e = Expression::Identifier("nope".to_string());
    assert_eq!(e.visit(&mut sym, &mut env).unwrap_err().kind, ErrorKind::UnknownIdentifier);
    assert_eq!(e.get_type(&sym, &env).unwrap_err().kind, ErrorKind::UnknownIdentifier);
}
