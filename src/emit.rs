//! The Lua emitter: a straight traversal of the tree into Lua text.
use vstd::prelude::*;

use crate::ast::{operand_lua, Expression, Statement};

verus! {

/// Names joined by `,`.
pub open spec fn names_text(names: Seq<String>, m: int) -> Seq<char>
    decreases m,
{
    if m <= 0 || m > names.len() {
        Seq::empty()
    } else if m == 1 {
        names[0]@
    } else {
        names_text(names, m - 1) + ","@ + names[m - 1]@
    }
}

/// The Lua text of an expression.
pub open spec fn lua_expr(e: Expression) -> Seq<char>
    decreases e, 0int,
{
    match e {
        Expression::Block(stmts) => lines_text(stmts@, stmts.len() as int),
        Expression::NumberLiteral(n) => n@,
        Expression::StringLiteral(s) => "\""@ + s@ + "\""@,
        Expression::BoolLiteral(b) => if b {
            "true"@
        } else {
            "false"@
        },
        Expression::Identifier(n) => n@,
        Expression::Definition(_, name, v) => match v {
            Some(x) => if *name is Index {
                lua_expr(*name) + " = "@ + lua_expr(*x)
            } else {
                "local "@ + lua_expr(*name) + " = "@ + lua_expr(*x)
            },
            None => if *name is Index {
                lua_expr(*name) + " = nil"@
            } else {
                "local "@ + lua_expr(*name)
            },
        },
        Expression::Index(a, b) => if *b is Identifier {
            lua_expr(*a) + "."@ + lua_expr(*b)
        } else {
            lua_expr(*a) + "["@ + lua_expr(*b) + "]"@
        },
        Expression::DictLiteral(items) => "{"@ + entries_text(items@, items.len() as int) + "}"@,
        Expression::Call(c, args) => callee_text(*c) + "("@ + args_text(args@, args.len() as int) + ")"@,
        Expression::Fun { param_names, body, .. } => "function("@ + names_text(param_names@, param_names.len() as int)
            + ")\n"@ + fun_body_text(body@, body.len() as int) + "end"@,
        Expression::Operation { left, op, right } => operand_text(*left) + " "@ + operand_lua(op) + " "@
            + operand_text(*right),
        Expression::EOF => Seq::empty(),
    }
}

/// An operand of an operator: a nested operation is put in parentheses.
pub open spec fn operand_text(e: Expression) -> Seq<char>
    decreases e, 1int,
{
    if e is Operation {
        "("@ + lua_expr(e) + ")"@
    } else {
        lua_expr(e)
    }
}

/// A callee: a function literal is put in parentheses.
pub open spec fn callee_text(e: Expression) -> Seq<char>
    decreases e, 1int,
{
    if e is Fun {
        "("@ + lua_expr(e) + ")"@
    } else {
        lua_expr(e)
    }
}

/// A dictionary entry: a definition becomes `key = value`.
pub open spec fn global_text(e: Expression) -> Seq<char>
    decreases e, 1int,
{
    match e {
        Expression::Definition(_, name, v) => match v {
            Some(x) => lua_expr(*name) + " = "@ + lua_expr(*x),
            None => lua_expr(*name),
        },
        _ => lua_expr(e),
    }
}

/// The first `m` dictionary entries, each followed by `,`.
pub open spec fn entries_text(items: Seq<Expression>, m: int) -> Seq<char>
    decreases items, m,
{
    if m <= 0 || m > items.len() {
        Seq::empty()
    } else {
        entries_text(items, m - 1) + global_text(items[m - 1]) + ","@
    }
}

/// The first `m` call arguments, joined by `,`.
pub open spec fn args_text(args: Seq<Expression>, m: int) -> Seq<char>
    decreases args, m,
{
    if m <= 0 || m > args.len() {
        Seq::empty()
    } else if m == 1 {
        lua_expr(args[0])
    } else {
        args_text(args, m - 1) + ","@ + lua_expr(args[m - 1])
    }
}

/// The first `m` statements, each on its own line.
pub open spec fn lines_text(stmts: Seq<Statement>, m: int) -> Seq<char>
    decreases stmts, m,
{
    if m <= 0 || m > stmts.len() {
        Seq::empty()
    } else {
        lines_text(stmts, m - 1) + lua_stmt(stmts[m - 1]) + "\n"@
    }
}

/// The first `m` statements of a function body, each on its own line; the
/// last statement, if it is an expression, is returned.
pub open spec fn fun_body_text(body: Seq<Statement>, m: int) -> Seq<char>
    decreases body, m,
{
    if m <= 0 || m > body.len() {
        Seq::empty()
    } else {
        fun_body_text(body, m - 1) + if m == body.len() && body[m - 1] is Expression {
            "return "@ + lua_expr(body[m - 1]->Expression_0) + "\n"@
        } else {
            lua_stmt(body[m - 1]) + "\n"@
        }
    }
}

/// The Lua text of a statement.
pub open spec fn lua_stmt(s: Statement) -> Seq<char>
    decreases s, 0int,
{
    match s {
        Statement::Expression(e) => lua_expr(e),
        Statement::Fun { name, param_names, body, .. } => "function "@ + name@ + "("@ + names_text(
            param_names@,
            param_names.len() as int,
        ) + ")\n"@ + fun_body_text(body@, body.len() as int) + "end"@,
    }
}

fn names_lua(names: &Vec<String>) -> (r: String)
    ensures
        r@ == names_text(names@, names.len() as int),
{
    let mut out = String::new();
    let mut i: usize = 0;
    while i < names.len()
        invariant
            i <= names.len(),
            out@ == names_text(names@, i as int),
        decreases names.len() - i,
    {
        if i > 0 {
            out.append(",");
        }
        out.append(names[i].as_str());
        i = i + 1;
    }
    out
}

fn args_lua(args: &Vec<Expression>) -> (r: String)
    ensures
        r@ == args_text(args@, args.len() as int),
    decreases args@, 0int,
{
    let mut out = String::new();
    let mut i: usize = 0;
    while i < args.len()
        invariant
            i <= args.len(),
            out@ == args_text(args@, i as int),
        decreases args.len() - i,
    {
        proof {
            assert(decreases_to!(args@ => args@[i as int]));
        }
        if i > 0 {
            out.append(",");
        }
        let a = args[i].lua();
        out.append(a.as_str());
        i = i + 1;
    }
    out
}

fn entries_lua(items: &Vec<Expression>) -> (r: String)
    ensures
        r@ == entries_text(items@, items.len() as int),
    decreases items@, 0int,
{
    let mut out = String::new();
    let mut i: usize = 0;
    while i < items.len()
        invariant
            i <= items.len(),
            out@ == entries_text(items@, i as int),
        decreases items.len() - i,
    {
        proof {
            assert(decreases_to!(items@ => items@[i as int]));
        }
        let g = items[i].global();
        out.append(g.as_str());
        out.append(",");
        i = i + 1;
    }
    out
}

fn lines_lua(stmts: &Vec<Statement>) -> (r: String)
    ensures
        r@ == lines_text(stmts@, stmts.len() as int),
    decreases stmts@, 0int,
{
    let mut out = String::new();
    let mut i: usize = 0;
    while i < stmts.len()
        invariant
            i <= stmts.len(),
            out@ == lines_text(stmts@, i as int),
        decreases stmts.len() - i,
    {
        proof {
            assert(decreases_to!(stmts@ => stmts@[i as int]));
        }
        let s = stmts[i].lua();
        out.append(s.as_str());
        out.append("\n");
        i = i + 1;
    }
    out
}

fn fun_body_lua(body: &Vec<Statement>) -> (r: String)
    ensures
        r@ == fun_body_text(body@, body.len() as int),
    decreases body@, 0int,
{
    let mut out = String::new();
    let mut i: usize = 0;
    let n = body.len();
    while i < n
        invariant
            n == body.len(),
            i <= n,
            out@ == fun_body_text(body@, i as int),
        decreases n - i,
    {
        proof {
            assert(decreases_to!(body@ => body@[i as int]));
        }
        match &body[i] {
            Statement::Expression(e) => {
                if i + 1 == n {
                    proof {
                        assert(decreases_to!(body@[i as int] => *e));
                    }
                    out.append("return ");
                    let t = e.lua();
                    out.append(t.as_str());
                } else {
                    let t = body[i].lua();
                    out.append(t.as_str());
                }
            },
            _ => {
                let t = body[i].lua();
                out.append(t.as_str());
            },
        }
        out.append("\n");
        i = i + 1;
    }
    out
}

fn operand_lua_text(e: &Expression) -> (r: String)
    ensures
        r@ == operand_text(*e),
    decreases e, 1int,
{
    if matches!(e, Expression::Operation { .. }) {
        let mut out = String::from_str("(");
        let t = e.lua();
        out.append(t.as_str());
        out.append(")");
        out
    } else {
        e.lua()
    }
}

impl Expression {
    /// The Lua text of this expression.
    pub fn lua(&self) -> (r: String)
        ensures
            r@ == lua_expr(*self),
        decreases self, 0int,
    {
        match self {
            Expression::Block(stmts) => lines_lua(stmts),
            Expression::NumberLiteral(n) => n.clone(),
            Expression::StringLiteral(s) => {
                let mut out = String::from_str("\"");
                out.append(s.as_str());
                out.append("\"");
                out
            },
            Expression::BoolLiteral(b) => if *b {
                String::from_str("true")
            } else {
                String::from_str("false")
            },
            Expression::Identifier(n) => n.clone(),
            Expression::Definition(_, name, v) => {
                let target = name.lua();
                let is_index = matches!(**name, Expression::Index(_, _));
                let mut out = if is_index {
                    String::new()
                } else {
                    String::from_str("local ")
                };
                out.append(target.as_str());
                match v {
                    Some(x) => {
                        out.append(" = ");
                        let t = x.lua();
                        out.append(t.as_str());
                    },
                    None => {
                        if is_index {
                            out.append(" = nil");
                        }
                    },
                }
                out
            },
            Expression::Index(a, b) => {
                let mut out = a.lua();
                let t = b.lua();
                if matches!(**b, Expression::Identifier(_)) {
                    out.append(".");
                    out.append(t.as_str());
                } else {
                    out.append("[");
                    out.append(t.as_str());
                    out.append("]");
                }
                out
            },
            Expression::DictLiteral(items) => {
                let mut out = String::from_str("{");
                let t = entries_lua(items);
                out.append(t.as_str());
                out.append("}");
                out
            },
            Expression::Call(c, args) => {
                let mut out = if matches!(**c, Expression::Fun { .. }) {
                    let mut o = String::from_str("(");
                    let t = c.lua();
                    o.append(t.as_str());
                    o.append(")");
                    o
                } else {
                    c.lua()
                };
                assert(out@ == callee_text(**c));
                out.append("(");
                let t = args_lua(args);
                out.append(t.as_str());
                out.append(")");
                out
            },
            Expression::Fun { param_names, body, .. } => {
                let mut out = String::from_str("function(");
                let p = names_lua(param_names);
                out.append(p.as_str());
                out.append(")\n");
                let b = fun_body_lua(body);
                out.append(b.as_str());
                out.append("end");
                out
            },
            Expression::Operation { left, op, right } => {
                let mut out = operand_lua_text(left);
                out.append(" ");
                let o = op.lua();
                out.append(o.as_str());
                out.append(" ");
                let r = operand_lua_text(right);
                out.append(r.as_str());
                out
            },
            Expression::EOF => String::new(),
        }
    }

    /// The text of this expression as a dictionary entry: a definition
    /// becomes `key = value`, without `local`.
    pub fn global(&self) -> (r: String)
        ensures
            r@ == global_text(*self),
        decreases self, 1int,
    {
        match self {
            Expression::Definition(_, name, v) => {
                let mut out = name.lua();
                match v {
                    Some(x) => {
                        out.append(" = ");
                        let t = x.lua();
                        out.append(t.as_str());
                    },
                    None => {},
                }
                out
            },
            _ => self.lua(),
        }
    }
}

impl Statement {
    /// The Lua text of this statement.
    pub fn lua(&self) -> (r: String)
        ensures
            r@ == lua_stmt(*self),
        decreases self, 0int,
    {
        match self {
            Statement::Expression(e) => e.lua(),
            Statement::Fun { name, param_names, body, .. } => {
                let mut out = String::from_str("function ");
                out.append(name.as_str());
                out.append("(");
                let p = names_lua(param_names);
                out.append(p.as_str());
                out.append(")\n");
                let b = fun_body_lua(body);
                out.append(b.as_str());
                out.append("end");
                out
            },
        }
    }
}

/// The Lua text of a program: each statement on its own line.
pub fn emit_lua(program: &Vec<Statement>) -> (r: String)
    ensures
        r@ == lines_text(program@, program.len() as int),
{
    lines_lua(program)
}

} // verus!
