//! The abstract syntax tree, the type lattice and the operator table.
use vstd::prelude::*;

use crate::error::{ErrorKind, ParserError};
use crate::text::same_text;

verus! {

/// An expression node.
#[derive(Debug, PartialEq)]
pub enum Expression {
    Block(Vec<Statement>),
    /// A numeric literal, kept as its decimal source text.
    NumberLiteral(String),
    StringLiteral(String),
    Identifier(String),
    BoolLiteral(bool),
    DictLiteral(Vec<Expression>),
    Call(Box<Expression>, Vec<Expression>),
    Index(Box<Expression>, Box<Expression>),
    Definition(Option<Type>, Box<Expression>, Option<Box<Expression>>),
    EOF,
    Operation { left: Box<Expression>, op: Operand, right: Box<Expression> },
    Fun { param_names: Vec<String>, param_types: Vec<Type>, t: Option<Type>, body: Vec<Statement> },
}

/// A statement: an expression, or a named function.
#[derive(Debug, PartialEq)]
pub enum Statement {
    Expression(Expression),
    Fun {
        name: String,
        param_names: Vec<String>,
        param_types: Vec<Type>,
        t: Option<Type>,
        body: Vec<Statement>,
    },
}

/// The type lattice. In `Fun`, index 0 is the return type and the rest are
/// parameter types; `Many` is a variadic tail.
#[derive(Debug, PartialEq)]
pub enum Type {
    Str,
    Num,
    Bool,
    Any,
    Nil,
    Array(Box<Type>),
    Undefined,
    Fun(Vec<Type>),
    Many(Box<Type>),
}

/// Binary (and the one prefix-like) operators.
#[derive(Debug, Clone, Copy, PartialEq, Eq, Structural)]
pub enum Operand {
    Pow,
    Mul,
    Div,
    Mod,
    Add,
    Sub,
    Equal,
    NEqual,
    Lt,
    Gt,
    LtEqual,
    GtEqual,
    And,
    Or,
    Not,
}

/// The mathematical model of an [`Expression`].
pub enum ExprV {
    Block(Seq<StmtV>),
    NumberLiteral(Seq<char>),
    StringLiteral(Seq<char>),
    Identifier(Seq<char>),
    BoolLiteral(bool),
    DictLiteral(Seq<ExprV>),
    Call(Box<ExprV>, Seq<ExprV>),
    Index(Box<ExprV>, Box<ExprV>),
    Definition(Option<TypeV>, Box<ExprV>, Option<Box<ExprV>>),
    EOF,
    Operation { left: Box<ExprV>, op: Operand, right: Box<ExprV> },
    Fun { param_names: Seq<Seq<char>>, param_types: Seq<TypeV>, t: Option<TypeV>, body: Seq<StmtV> },
}

/// The mathematical model of a [`Statement`].
pub enum StmtV {
    Expression(ExprV),
    Fun { name: Seq<char>, param_names: Seq<Seq<char>>, param_types: Seq<TypeV>, t: Option<TypeV>, body: Seq<StmtV> },
}

impl View for Expression {
    type V = ExprV;

    open spec fn view(&self) -> ExprV
        decreases self,
    {
        match self {
            Expression::Block(s) => ExprV::Block(stmts_view(s@)),
            Expression::NumberLiteral(n) => ExprV::NumberLiteral(n@),
            Expression::StringLiteral(n) => ExprV::StringLiteral(n@),
            Expression::Identifier(n) => ExprV::Identifier(n@),
            Expression::BoolLiteral(b) => ExprV::BoolLiteral(*b),
            Expression::DictLiteral(v) => ExprV::DictLiteral(exprs_view(v@)),
            Expression::Call(c, a) => ExprV::Call(Box::new((**c).view()), exprs_view(a@)),
            Expression::Index(a, b) => ExprV::Index(Box::new((**a).view()), Box::new((**b).view())),
            Expression::Definition(t, x, v) => ExprV::Definition(
                opt_view(*t),
                Box::new((**x).view()),
                match v {
                    Some(b) => Some(Box::new((**b).view())),
                    None => None,
                },
            ),
            Expression::EOF => ExprV::EOF,
            Expression::Operation { left, op, right } => ExprV::Operation {
                left: Box::new((**left).view()),
                op: *op,
                right: Box::new((**right).view()),
            },
            Expression::Fun { param_names, param_types, t, body } => ExprV::Fun {
                param_names: strings_view(param_names@),
                param_types: types_view(param_types@),
                t: opt_view(*t),
                body: stmts_view(body@),
            },
        }
    }
}

impl View for Statement {
    type V = StmtV;

    open spec fn view(&self) -> StmtV
        decreases self,
    {
        match self {
            Statement::Expression(e) => StmtV::Expression(e.view()),
            Statement::Fun { name, param_names, param_types, t, body } => StmtV::Fun {
                name: name@,
                param_names: strings_view(param_names@),
                param_types: types_view(param_types@),
                t: opt_view(*t),
                body: stmts_view(body@),
            },
        }
    }
}

/// The texts of a list of strings.
pub open spec fn strings_view(s: Seq<String>) -> Seq<Seq<char>> {
    Seq::new(s.len() as nat, |i: int| s[i]@)
}

/// The models of a list of expressions.
pub open spec fn exprs_view(s: Seq<Expression>) -> Seq<ExprV>
    decreases s,
{
    if s.len() == 0 {
        Seq::empty()
    } else {
        exprs_view(s.subrange(0, s.len() - 1)).push(s[s.len() - 1].view())
    }
}

/// The models of a list of statements.
pub open spec fn stmts_view(s: Seq<Statement>) -> Seq<StmtV>
    decreases s,
{
    if s.len() == 0 {
        Seq::empty()
    } else {
        stmts_view(s.subrange(0, s.len() - 1)).push(s[s.len() - 1].view())
    }
}

pub proof fn lemma_exprs_view(s: Seq<Expression>)
    ensures
        exprs_view(s).len() == s.len(),
        forall|k: int| 0 <= k < s.len() ==> #[trigger] exprs_view(s)[k] == s[k]@,
    decreases s.len(),
{
    if s.len() > 0 {
        let init = s.subrange(0, s.len() - 1);
        lemma_exprs_view(init);
        assert(exprs_view(s) == exprs_view(init).push(s[s.len() - 1]@));
        assert forall|k: int| 0 <= k < s.len() implies #[trigger] exprs_view(s)[k] == s[k]@ by {
            if k < s.len() - 1 {
                assert(init[k] == s[k]);
            }
        }
    } else {
        assert(exprs_view(s) == Seq::<ExprV>::empty());
    }
}

pub proof fn lemma_stmts_view(s: Seq<Statement>)
    ensures
        stmts_view(s).len() == s.len(),
        forall|k: int| 0 <= k < s.len() ==> #[trigger] stmts_view(s)[k] == s[k]@,
    decreases s.len(),
{
    if s.len() > 0 {
        let init = s.subrange(0, s.len() - 1);
        lemma_stmts_view(init);
        assert(stmts_view(s) == stmts_view(init).push(s[s.len() - 1]@));
        assert forall|k: int| 0 <= k < s.len() implies #[trigger] stmts_view(s)[k] == s[k]@ by {
            if k < s.len() - 1 {
                assert(init[k] == s[k]);
            }
        }
    } else {
        assert(stmts_view(s) == Seq::<StmtV>::empty());
    }
}

/// The models of a list grow by one when an element is pushed.
pub proof fn lemma_exprs_push(s: Seq<Expression>, x: Expression)
    ensures
        exprs_view(s.push(x)) == exprs_view(s).push(x@),
{
    assert(s.push(x).subrange(0, s.len() as int) =~= s);
}

pub proof fn lemma_stmts_push(s: Seq<Statement>, x: Statement)
    ensures
        stmts_view(s.push(x)) == stmts_view(s).push(x@),
{
    assert(s.push(x).subrange(0, s.len() as int) =~= s);
}

pub proof fn lemma_types_push(s: Seq<Type>, x: Type)
    ensures
        types_view(s.push(x)) == types_view(s).push(x@),
{
    assert(s.push(x).subrange(0, s.len() as int) =~= s);
}

/// The mathematical model of a [`Type`].
pub enum TypeV {
    Str,
    Num,
    Bool,
    Any,
    Nil,
    Array(Box<TypeV>),
    Undefined,
    Fun(Seq<TypeV>),
    Many(Box<TypeV>),
}

impl View for Type {
    type V = TypeV;

    open spec fn view(&self) -> TypeV
        decreases self,
    {
        match self {
            Type::Str => TypeV::Str,
            Type::Num => TypeV::Num,
            Type::Bool => TypeV::Bool,
            Type::Any => TypeV::Any,
            Type::Nil => TypeV::Nil,
            Type::Undefined => TypeV::Undefined,
            Type::Array(a) => TypeV::Array(Box::new((**a).view())),
            Type::Many(a) => TypeV::Many(Box::new((**a).view())),
            Type::Fun(v) => TypeV::Fun(types_view(v@)),
        }
    }
}

/// The models of a list of types.
pub open spec fn types_view(s: Seq<Type>) -> Seq<TypeV>
    decreases s,
{
    if s.len() == 0 {
        Seq::empty()
    } else {
        types_view(s.subrange(0, s.len() - 1)).push(s[s.len() - 1].view())
    }
}

/// The model of an optional type.
pub open spec fn opt_view(t: Option<Type>) -> Option<TypeV> {
    match t {
        Some(x) => Some(x@),
        None => None,
    }
}

pub proof fn lemma_types_view(s: Seq<Type>)
    ensures
        types_view(s).len() == s.len(),
        forall|k: int| 0 <= k < s.len() ==> #[trigger] types_view(s)[k] == s[k]@,
    decreases s.len(),
{
    if s.len() > 0 {
        let init = s.subrange(0, s.len() - 1);
        lemma_types_view(init);
        assert(types_view(s) == types_view(init).push(s[s.len() - 1]@));
        assert forall|k: int| 0 <= k < s.len() implies #[trigger] types_view(s)[k] == s[k]@ by {
            if k < s.len() - 1 {
                assert(init[k] == s[k]);
            }
        }
    } else {
        assert(types_view(s) == Seq::<TypeV>::empty());
    }
}

/// `compatible(a, b)`: the relation used for assignment and argument checks.
pub open spec fn compatible(a: TypeV, b: TypeV) -> bool
    decreases a,
{
    if a == TypeV::Any || b == TypeV::Any {
        true
    } else {
        match a {
            TypeV::Array(x) => match b {
                TypeV::Array(y) => *y == TypeV::Nil || compatible(*x, *y),
                _ => false,
            },
            _ => a == b,
        }
    }
}

/// Structural equality of two type lists, element by element.
fn types_equal_list(a: &Vec<Type>, b: &Vec<Type>) -> (r: bool)
    ensures
        r == (types_view(a@) == types_view(b@)),
    decreases a@,
{
    proof {
        lemma_types_view(a@);
        lemma_types_view(b@);
    }
    if a.len() != b.len() {
        return false;
    }
    let mut i: usize = 0;
    while i < a.len()
        invariant
            a.len() == b.len(),
            i <= a.len(),
            types_view(a@).len() == a.len(),
            types_view(b@).len() == b.len(),
            forall|k: int| 0 <= k < a.len() ==> #[trigger] types_view(a@)[k] == a@[k]@,
            forall|k: int| 0 <= k < b.len() ==> #[trigger] types_view(b@)[k] == b@[k]@,
            forall|k: int| 0 <= k < i ==> types_view(a@)[k] == types_view(b@)[k],
        decreases a.len() - i,
    {
        proof {
            assert(decreases_to!(a@ => a@[i as int]));
        }
        if !a[i].equals(&b[i]) {
            assert(types_view(a@)[i as int] != types_view(b@)[i as int]);
            return false;
        }
        i = i + 1;
    }
    assert(types_view(a@) =~= types_view(b@));
    true
}

impl Type {
    /// Structural equality.
    pub fn equals(&self, other: &Type) -> (r: bool)
        ensures
            r == (self@ == other@),
        decreases self,
    {
        match (self, other) {
            (Type::Str, Type::Str) => true,
            (Type::Num, Type::Num) => true,
            (Type::Bool, Type::Bool) => true,
            (Type::Any, Type::Any) => true,
            (Type::Nil, Type::Nil) => true,
            (Type::Undefined, Type::Undefined) => true,
            (Type::Array(a), Type::Array(b)) => a.equals(b),
            (Type::Many(a), Type::Many(b)) => a.equals(b),
            (Type::Fun(a), Type::Fun(b)) => types_equal_list(a, b),
            _ => false,
        }
    }

    /// A copy of this type.
    pub fn copy(&self) -> (r: Type)
        ensures
            r@ == self@,
        decreases self,
    {
        match self {
            Type::Str => Type::Str,
            Type::Num => Type::Num,
            Type::Bool => Type::Bool,
            Type::Any => Type::Any,
            Type::Nil => Type::Nil,
            Type::Undefined => Type::Undefined,
            Type::Array(a) => Type::Array(Box::new(a.copy())),
            Type::Many(a) => Type::Many(Box::new(a.copy())),
            Type::Fun(v) => Type::Fun(copy_types(v)),
        }
    }

    /// `compatible(self, other)`.
    pub fn compare(&self, other: &Type) -> (r: bool)
        ensures
            r == compatible(self@, other@),
        decreases self,
    {
        if matches!(self, Type::Any) || matches!(other, Type::Any) {
            true
        } else {
            match self {
                Type::Array(a) => match other {
                    Type::Array(b) => {
                        assert(self@ == TypeV::Array(Box::new((**a)@)));
                        assert(other@ == TypeV::Array(Box::new((**b)@)));
                        matches!(**b, Type::Nil) || a.compare(b)
                    },
                    _ => false,
                },
                _ => self.equals(other),
            }
        }
    }
}

/// A copy of a list of types.
pub fn copy_types(v: &Vec<Type>) -> (r: Vec<Type>)
    ensures
        types_view(r@) == types_view(v@),
    decreases v@,
{
    let mut out: Vec<Type> = Vec::new();
    let mut i: usize = 0;
    while i < v.len()
        invariant
            i <= v.len(),
            out.len() == i,
            types_view(out@) == types_view(v@.subrange(0, i as int)),
        decreases v.len() - i,
    {
        proof {
            assert(decreases_to!(v@ => v@[i as int]));
        }
        let c = v[i].copy();
        let ghost prev = out@;
        out.push(c);
        proof {
            assert(out@.subrange(0, out.len() - 1) =~= prev);
            assert(v@.subrange(0, i + 1).subrange(0, i as int) =~= v@.subrange(0, i as int));
        }
        i = i + 1;
    }
    assert(v@.subrange(0, v.len() as int) =~= v@);
    out
}

/// The type that a type keyword names.
pub open spec fn type_named(v: Seq<char>) -> Option<TypeV> {
    if v == "str"@ {
        Some(TypeV::Str)
    } else if v == "num"@ {
        Some(TypeV::Num)
    } else if v == "bool"@ {
        Some(TypeV::Bool)
    } else if v == "any"@ {
        Some(TypeV::Any)
    } else if v == "nil"@ {
        Some(TypeV::Nil)
    } else {
        None
    }
}

/// Reads a type keyword: `str`, `num`, `bool`, `any` or `nil`.
pub fn get_type(v: &str) -> (r: Option<Type>)
    ensures
        opt_view(r) == type_named(v@),
{
    if same_text(v, "str") {
        Some(Type::Str)
    } else if same_text(v, "num") {
        Some(Type::Num)
    } else if same_text(v, "bool") {
        Some(Type::Bool)
    } else if same_text(v, "any") {
        Some(Type::Any)
    } else if same_text(v, "nil") {
        Some(Type::Nil)
    } else {
        None
    }
}

/// The operator that a token spells, with its precedence level
/// (lower binds tighter).
pub open spec fn operand_named(v: Seq<char>) -> Option<(Operand, u8)> {
    if v == "^"@ {
        Some((Operand::Pow, 0u8))
    } else if v == "*"@ {
        Some((Operand::Mul, 1u8))
    } else if v == "/"@ {
        Some((Operand::Div, 1u8))
    } else if v == "%"@ {
        Some((Operand::Mod, 1u8))
    } else if v == "+"@ {
        Some((Operand::Add, 2u8))
    } else if v == "-"@ {
        Some((Operand::Sub, 2u8))
    } else if v == "=="@ {
        Some((Operand::Equal, 3u8))
    } else if v == "!="@ {
        Some((Operand::NEqual, 3u8))
    } else if v == "<"@ {
        Some((Operand::Lt, 4u8))
    } else if v == ">"@ {
        Some((Operand::Gt, 4u8))
    } else if v == "<="@ {
        Some((Operand::LtEqual, 4u8))
    } else if v == ">="@ {
        Some((Operand::GtEqual, 4u8))
    } else if v == "!"@ {
        Some((Operand::Not, 4u8))
    } else if v == "and"@ {
        Some((Operand::And, 4u8))
    } else if v == "or"@ {
        Some((Operand::Or, 4u8))
    } else {
        None
    }
}

/// The precedence level of an operator (lower binds tighter).
pub open spec fn level(op: Operand) -> u8 {
    match op {
        Operand::Pow => 0,
        Operand::Mul | Operand::Div | Operand::Mod => 1,
        Operand::Add | Operand::Sub => 2,
        Operand::Equal | Operand::NEqual => 3,
        _ => 4,
    }
}

/// Reads an operator token.
pub fn get_operand(v: &str) -> (r: Option<(Operand, u8)>)
    ensures
        r == operand_named(v@),
        r matches Some((op, l)) ==> l == level(op),
{
    if same_text(v, "^") {
        Some((Operand::Pow, 0))
    } else if same_text(v, "*") {
        Some((Operand::Mul, 1))
    } else if same_text(v, "/") {
        Some((Operand::Div, 1))
    } else if same_text(v, "%") {
        Some((Operand::Mod, 1))
    } else if same_text(v, "+") {
        Some((Operand::Add, 2))
    } else if same_text(v, "-") {
        Some((Operand::Sub, 2))
    } else if same_text(v, "==") {
        Some((Operand::Equal, 3))
    } else if same_text(v, "!=") {
        Some((Operand::NEqual, 3))
    } else if same_text(v, "<") {
        Some((Operand::Lt, 4))
    } else if same_text(v, ">") {
        Some((Operand::Gt, 4))
    } else if same_text(v, "<=") {
        Some((Operand::LtEqual, 4))
    } else if same_text(v, ">=") {
        Some((Operand::GtEqual, 4))
    } else if same_text(v, "!") {
        Some((Operand::Not, 4))
    } else if same_text(v, "and") {
        Some((Operand::And, 4))
    } else if same_text(v, "or") {
        Some((Operand::Or, 4))
    } else {
        None
    }
}

/// The result type of `l op r`, or `None` where the operator table has no
/// entry for the pair.
pub open spec fn operate_type(op: Operand, l: TypeV, r: TypeV) -> Option<TypeV> {
    match op {
        Operand::Equal | Operand::NEqual | Operand::And | Operand::Or | Operand::Not => Some(TypeV::Bool),
        Operand::Lt | Operand::Gt | Operand::LtEqual | Operand::GtEqual => {
            if l == TypeV::Bool || r == TypeV::Bool || l == TypeV::Str || r == TypeV::Str {
                None
            } else {
                Some(TypeV::Bool)
            }
        },
        _ => {
            if l == TypeV::Any || r == TypeV::Any {
                Some(TypeV::Any)
            } else if l == TypeV::Num && r == TypeV::Num {
                Some(TypeV::Num)
            } else if l == TypeV::Str && r == TypeV::Num && op != Operand::Div && op != Operand::Mod {
                Some(TypeV::Str)
            } else if l == TypeV::Str && r == TypeV::Str && (op == Operand::Mul || op == Operand::Add
                || op == Operand::Sub) {
                Some(TypeV::Str)
            } else if l == TypeV::Str && r == TypeV::Bool && op == Operand::Add {
                Some(TypeV::Str)
            } else {
                None
            }
        },
    }
}

/// The Lua spelling of an operator.
pub open spec fn operand_lua(op: Operand) -> Seq<char> {
    match op {
        Operand::Pow => "^"@,
        Operand::Mul => "*"@,
        Operand::Div => "/"@,
        Operand::Mod => "%"@,
        Operand::Add => "+"@,
        Operand::Sub => "-"@,
        Operand::Equal => "=="@,
        Operand::NEqual => "~="@,
        Operand::Lt => "<"@,
        Operand::Gt => ">"@,
        Operand::LtEqual => "<="@,
        Operand::GtEqual => ">="@,
        Operand::And => "and"@,
        Operand::Or => "or"@,
        Operand::Not => "not"@,
    }
}

impl Operand {
    /// The result type of applying this operator to `(left, right)`.
    pub fn operate(&self, lr: (Type, Type)) -> (r: Result<Type, ParserError>)
        ensures
            r matches Ok(t) ==> operate_type(*self, lr.0@, lr.1@) == Some(t@),
            r is Err ==> operate_type(*self, lr.0@, lr.1@) is None,
            r matches Err(e) ==> e.kind == ErrorKind::OperatorTypeError,
    {
        let (l, r) = lr;
        match *self {
            Operand::Equal | Operand::NEqual | Operand::And | Operand::Or | Operand::Not => Ok(Type::Bool),
            Operand::Lt | Operand::Gt | Operand::LtEqual | Operand::GtEqual => {
                if matches!(l, Type::Bool) || matches!(r, Type::Bool) || matches!(l, Type::Str)
                    || matches!(r, Type::Str) {
                    Err(ParserError::new(ErrorKind::OperatorTypeError, "cannot compare these operands"))
                } else {
                    Ok(Type::Bool)
                }
            },
            op => {
                if matches!(l, Type::Any) || matches!(r, Type::Any) {
                    Ok(Type::Any)
                } else if matches!(l, Type::Num) && matches!(r, Type::Num) {
                    Ok(Type::Num)
                } else if matches!(l, Type::Str) && matches!(r, Type::Num) && !matches!(op, Operand::Div)
                    && !matches!(op, Operand::Mod) {
                    Ok(Type::Str)
                } else if matches!(l, Type::Str) && matches!(r, Type::Str) && (matches!(op, Operand::Mul)
                    || matches!(op, Operand::Add) || matches!(op, Operand::Sub)) {
                    Ok(Type::Str)
                } else if matches!(l, Type::Str) && matches!(r, Type::Bool) && matches!(op, Operand::Add) {
                    Ok(Type::Str)
                } else {
                    Err(ParserError::new(ErrorKind::OperatorTypeError, "operator does not apply to these operands"))
                }
            },
        }
    }

    /// The Lua spelling of this operator.
    pub fn lua(&self) -> (r: String)
        ensures
            r@ == operand_lua(*self),
    {
        let s = match *self {
            Operand::Pow => "^",
            Operand::Mul => "*",
            Operand::Div => "/",
            Operand::Mod => "%",
            Operand::Add => "+",
            Operand::Sub => "-",
            Operand::Equal => "==",
            Operand::NEqual => "~=",
            Operand::Lt => "<",
            Operand::Gt => ">",
            Operand::LtEqual => "<=",
            Operand::GtEqual => ">=",
            Operand::And => "and",
            Operand::Or => "or",
            Operand::Not => "not",
        };
        String::from_str(s)
    }
}

} // verus!
