use slug::ast::{Expression, Operand, Statement};
use slug::emit::emit_lua;
use slug::parser::parse_source;

fn lua_of(src: &str) -> String {
    emit_lua(&parse_source(src, 4).unwrap())
}

#[test]
fn definitions_are_local() {
    assert_eq!(lua_of("a num = 10"), "local a = 10\n");
    assert_eq!(lua_of("s = \"hi\"\nb = true"), "local s = \"hi\"\nlocal b = true\n");
}

#[test]
fn member_definitions_are_plain_assignments() {
    assert_eq!(lua_of("a.b = 1"), "a.b = 1\n");
}

#[test]
fn named_function_returns_its_last_expression() {
    assert_eq!(lua_of("fun add (a num) num: a + 10"), "function add(a)\nreturn a + 10\nend\n");
    assert_eq!(
        lua_of("fun f (x num, y) num:\n    z = x * 2\n    z + y"),
        "function f(x,y)\nlocal z = x * 2\nreturn z + y\nend\n"
    );
}

#[test]
fn dictionary_entries_are_keyed() {
    assert_eq!(
        lua_of("b = [ a = fun (b num) num: b + 10 ]"),
        "local b = {a = function(b)\nreturn b + 10\nend,}\n"
    );
    assert_eq!(lua_of("d = [1, 2]"), "local d = {1,2,}\n");
}

#[test]
fn calls_and_indexes() {
    assert_eq!(lua_of("c num = b.a 100"), "local c = b.a(100)\n");
    assert_eq!(lua_of("f 1, 2\ng!"), "f(1,2)\ng()\n");
    let e = Expression::Index(
        Box::new(Expression::Identifier("t".to_string())),
        Box::new(Expression::NumberLiteral("1".to_string())),
    );
    assert_eq!(e.lua(), "t[1]");
}

#[test]
fn operators_map_to_lua() {
    assert_eq!(lua_of("x = a != b"), "local x = a ~= b\n");
    assert_eq!(lua_of("x = a and b"), "local x = a and b\n");
    assert_eq!(lua_of("x = (1 + 2) * 3"), "local x = (1 + 2) * 3\n");
    assert_eq!(Operand::Not.lua(), "not");
    assert_eq!(Operand::Pow.lua(), "^");
}

#[test]
fn anonymous_function_called_at_once() {
    assert_eq!(lua_of("e = (fun num: 10)!"), "local e = (function()\nreturn 10\nend)()\n");
}

#[test]
fn global_form_of_a_definition() {
    let d = Expression::Definition(
        None,
        Box::new(Expression::Identifier("k".to_string())),
        Some(Box::new(Expression::NumberLiteral("3".to_string()))),
    );
    assert_eq!(d.global(), "k = 3");
    assert_eq!(d.lua(), "local k = 3");
    let s = Statement::Expression(d);
    assert_eq!(s.lua(), "local k = 3");
}
