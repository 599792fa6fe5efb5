use slug::ast::{get_operand, get_type, Operand, Type};
use slug::error::{ErrorKind, ParserError, Position};
use slug::text::{decimal, same_text};

#[test]
fn compare_follows_compatibility() {
    assert!(Type::Num.compare(&Type::Any));
    assert!(Type::Any.compare(&Type::Str));
    assert!(!Type::Num.compare(&Type::Str));
    assert!(Type::Array(Box::new(Type::Num)).compare(&Type::Array(Box::new(Type::Nil))));
    assert!(!Type::Array(Box::new(Type::Num)).compare(&Type::Array(Box::new(Type::Str))));
    assert!(Type::Array(Box::new(Type::Num)).compare(&Type::Array(Box::new(Type::Any))));
    assert!(!Type::Array(Box::new(Type::Num)).compare(&Type::Num));
    assert!(Type::Fun(vec![Type::Num, Type::Str]).compare(&Type::Fun(vec![Type::Num, Type::Str])));
    assert!(!Type::Fun(vec![Type::Num]).compare(&Type::Fun(vec![Type::Num, Type::Str])));
}

#[test]
fn equals_and_copy() {
    let t = Type::Fun(vec![Type::Many(Box::new(Type::Bool)), Type::Array(Box::new(Type::Nil))]);
    assert!(t.equals(&t.copy()));
    assert!(!t.equals(&Type::Fun(vec![])));
    assert_eq!(t.copy(), t);
}

#[test]
fn type_keywords() {
    assert_eq!(get_type("str"), Some(Type::Str));
    assert_eq!(get_type("num"), Some(Type::Num));
    assert_eq!(get_type("bool"), Some(Type::Bool));
    assert_eq!(get_type("any"), Some(Type::Any));
    assert_eq!(get_type("nil"), Some(Type::Nil));
    assert_eq!(get_type("number"), None);
}

#[test]
fn operator_table() {
    assert_eq!(get_operand("^"), Some((Operand::Pow, 0)));
    assert_eq!(get_operand("%"), Some((Operand::Mod, 1)));
    assert_eq!(get_operand("-"), Some((Operand::Sub, 2)));
    assert_eq!(get_operand("!="), Some((Operand::NEqual, 3)));
    assert_eq!(get_operand(">="), Some((Operand::GtEqual, 4)));
    assert_eq!(get_operand("or"), Some((Operand::Or, 4)));
    assert_eq!(get_operand("="), None);
}

#[test]
fn operate_results() {
    assert_eq!(Operand::Add.operate((Type::Str, Type::Bool)).unwrap(), Type::Str);
    assert_eq!(Operand::Mul.operate((Type::Str, Type::Str)).unwrap(), Type::Str);
    assert_eq!(Operand::Pow.operate((Type::Any, Type::Str)).unwrap(), Type::Any);
    assert_eq!(Operand::Sub.operate((Type::Num, Type::Num)).unwrap(), Type::Num);
    assert_eq!(Operand::Lt.operate((Type::Num, Type::Any)).unwrap(), Type::Bool);
    assert_eq!(Operand::Equal.operate((Type::Str, Type::Num)).unwrap(), Type::Bool);
    assert_eq!(Operand::Div.operate((Type::Str, Type::Num)).unwrap_err().kind, ErrorKind::OperatorTypeError);
    assert_eq!(Operand::Pow.operate((Type::Str, Type::Str)).unwrap_err().kind, ErrorKind::OperatorTypeError);
    assert_eq!(Operand::Gt.operate((Type::Bool, Type::Num)).unwrap_err().kind, ErrorKind::OperatorTypeError);
}

#[test]
fn error_line_format() {
    let e = ParserError::new_pos(ErrorKind::BadIndent, Position { line: 12, col: 3 }, "oops");
    assert_eq!(e.describe(), "BadIndent: oops @ line 12 col 3");
    assert_eq!(ParserError::new(ErrorKind::CallNonFun, "f").describe(), "CallNonFun: f");
}

#[test]
fn text_helpers() {
    assert!(same_text("abc", "abc"));
    assert!(!same_text("abc", "abd"));
    assert_eq!(decimal(0), "0");
    assert_eq!(decimal(907), "907");
}
