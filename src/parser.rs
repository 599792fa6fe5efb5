//! The recursive-descent parser: a token tree to statements and expressions.
use vstd::prelude::*;

use crate::ast::{
    exprs_view, get_operand, get_type, lemma_exprs_push, lemma_stmts_push, lemma_stmts_view, lemma_types_push, operand_named,
    stmts_view, strings_view, type_named, types_view, ExprV, Expression, Operand, Statement, StmtV, Type, TypeV,
};
use crate::climb::{climb, climb_spec, pairs_view};
use crate::error::{ErrorKind, ParserError, Position};
use crate::lexer::{lemma_tokens_view, lex, lex_spec, lines_of, pos_in, tokens_in, tokens_view, KindV, Token, TokenType, TokenV};
use crate::text::same_text;
use crate::traveler::Traveler;

verus! {

/// Whether a position, if there is one, lies inside every source whose lines
/// hold all positions of `toks`: the position of an error is always one that
/// the tokens carried.
pub open spec fn pos_within(p: Option<Position>, toks: Seq<Token>) -> bool {
    p matches Some(q) ==> forall|ls: Seq<Seq<char>>| #[trigger] tokens_in(toks, ls) ==> pos_in(q, ls)
}

/// Whether an error result, if it is one, carries a position from `toks`.
pub open spec fn err_within<T>(r: Result<T, ParserError>, toks: Seq<Token>) -> bool {
    r matches Err(e) ==> pos_within(e.position, toks)
}

proof fn lemma_token_pos(toks: Seq<Token>, i: int)
    requires
        0 <= i < toks.len(),
    ensures
        pos_within(Some(toks[i].position), toks),
{
    assert forall|ls: Seq<Seq<char>>| #[trigger] tokens_in(toks, ls) implies pos_in(toks[i].position, ls) by {}
}

proof fn lemma_child_pos(toks: Seq<Token>, i: int, c: Vec<Token>, p: Option<Position>)
    requires
        0 <= i < toks.len(),
        toks[i].token_type == TokenType::Block(c),
        pos_within(p, c@),
    ensures
        pos_within(p, toks),
{
    if p is Some {
        assert forall|ls: Seq<Seq<char>>| #[trigger] tokens_in(toks, ls) implies pos_in(p->0, ls) by {
            assert(pos_in(toks[i].position, ls));
            assert(tokens_in(c@, ls));
        }
    }
}

/// The kind and position of an error at token `i`: no position past the
/// end.
pub open spec fn err_at(toks: Seq<TokenV>, i: int, k: ErrorKind) -> (ErrorKind, Option<Position>) {
    (k, if 0 <= i < toks.len() { Some(toks[i].position) } else { None })
}

/// An error at token `i`, or at no position past the end.
fn error_at(toks: &Vec<Token>, i: usize, kind: ErrorKind, message: &str) -> (r: ParserError)
    ensures
        (r.kind, r.position) == err_at(tokens_view(toks@), i as int, kind),
        pos_within(r.position, toks@),
{
    proof {
        lemma_tokens_view(toks@);
    }
    if i < toks.len() {
        proof {
            lemma_token_pos(toks@, i as int);
        }
        ParserError::new_pos(kind, toks[i].position, message)
    } else {
        ParserError::new(kind, message)
    }
}

/// Whether token `i` is the symbol `s`.
pub open spec fn is_sym(toks: Seq<TokenV>, i: int, s: Seq<char>) -> bool {
    0 <= i < toks.len() && toks[i].kind is Symbol && toks[i].content == s
}

/// Whether token `i` ends a line.
pub open spec fn is_eol(toks: Seq<TokenV>, i: int) -> bool {
    0 <= i < toks.len() && toks[i].kind is EOL
}

/// Whether token `i` has kind `Type`.
pub open spec fn is_type_tok(toks: Seq<TokenV>, i: int) -> bool {
    0 <= i < toks.len() && toks[i].kind is Type
}

/// Whether token `i` can start a call argument: a literal, an identifier,
/// `(` or `[`.
pub open spec fn starts_arg(toks: Seq<TokenV>, i: int) -> bool {
    0 <= i < toks.len() && (toks[i].kind is IntLiteral || toks[i].kind is FloatLiteral
        || toks[i].kind is StringLiteral || toks[i].kind is BoolLiteral
        || toks[i].kind is Identifier || is_sym(toks, i, "("@) || is_sym(toks, i, "["@))
}

/// Whether an expression may stand left of `=`.
pub open spec fn assignable(e: ExprV) -> bool {
    e is Identifier || e is Index
}

/// The literal that a literal token stands for.
pub open spec fn literal_of(t: TokenV) -> Option<ExprV> {
    match t.kind {
        KindV::IntLiteral | KindV::FloatLiteral => Some(ExprV::NumberLiteral(t.content)),
        KindV::StringLiteral => Some(ExprV::StringLiteral(t.content)),
        KindV::BoolLiteral => Some(ExprV::BoolLiteral(t.content == "true"@)),
        _ => None,
    }
}

/// A type at token `i`: a type keyword, made an array by a following `..`.
pub open spec fn p_types(toks: Seq<TokenV>, i: int) -> Result<(TypeV, int), (ErrorKind, Option<Position>)> {
    if !is_type_tok(toks, i) {
        Err(err_at(toks, i, ErrorKind::ExpectedKind))
    } else {
        match type_named(toks[i].content) {
            None => Err(err_at(toks, i, ErrorKind::ExpectedKind)),
            Some(b) => if is_sym(toks, i + 1, ".."@) {
                Ok((TypeV::Array(Box::new(b)), i + 2))
            } else {
                Ok((b, i + 1))
            },
        }
    }
}

/// The statements from token `i` on, after those already read (`acc`).
/// Line ends between statements are skipped.
pub open spec fn p_parse_from(toks: Seq<TokenV>, i: int, acc: Seq<StmtV>) -> Result<Seq<StmtV>, (ErrorKind, Option<Position>)>
    decreases toks, toks.len() + 1 - i, 0int,
{
    if i >= toks.len() || i < 0 {
        Ok(acc)
    } else if is_eol(toks, i) {
        p_parse_from(toks, i + 1, acc)
    } else {
        match p_statement(toks, i) {
            Err(e) => Err(e),
            Ok((s, j)) => if i < j <= toks.len() {
                p_parse_from(toks, j, acc.push(s))
            } else {
                Err((ErrorKind::UnexpectedEnd, None))
            },
        }
    }
}

/// The term that the `Block` token at `i` stands for: the expression of a
/// block of one expression statement, else a block expression.
pub open spec fn p_block_term(toks: Seq<TokenV>, i: int) -> Result<ExprV, (ErrorKind, Option<Position>)>
    decreases toks, 0int, 0int,
{
    if 0 <= i < toks.len() {
        match toks[i].kind {
            KindV::Block(c) => match p_parse_from(c, 0, Seq::empty()) {
                Err(e) => Err(e),
                Ok(stmts) => if stmts.len() == 1 {
                    match stmts[0] {
                        StmtV::Expression(e) => Ok(e),
                        other => Ok(ExprV::Block(seq![other])),
                    }
                } else {
                    Ok(ExprV::Block(stmts))
                },
            },
            _ => Err(err_at(toks, i, ErrorKind::UnexpectedToken)),
        }
    } else {
        Err(err_at(toks, i, ErrorKind::UnexpectedToken))
    }
}

/// The statement at token `i`: `fun name ...`, or an expression.
pub open spec fn p_statement(toks: Seq<TokenV>, i: int) -> Result<(StmtV, int), (ErrorKind, Option<Position>)>
    decreases toks, toks.len() - i, 6int,
{
    if 0 <= i && i + 1 < toks.len() && toks[i].kind is Keyword && toks[i].content == "fun"@
        && toks[i + 1].kind is Identifier {
        match p_fun_rest(toks, i + 2) {
            Err(e) => Err(e),
            Ok((ns, ts, t, b, j)) => Ok(
                (StmtV::Fun { name: toks[i + 1].content, param_names: ns, param_types: ts, t, body: b }, j),
            ),
        }
    } else {
        match p_expression(toks, i) {
            Err(e) => Err(e),
            Ok((e, j)) => Ok((StmtV::Expression(e), j)),
        }
    }
}

/// The parameters from token `k` up to the closing `)`, after those already
/// read: each a name, an optional type (else `Any`), and an optional `,`.
pub open spec fn p_params(toks: Seq<TokenV>, k: int, ns: Seq<Seq<char>>, ts: Seq<TypeV>) -> Result<(Seq<Seq<char>>, Seq<TypeV>, int), (ErrorKind, Option<Position>)>
    decreases toks, toks.len() - k, 5int,
{
    if is_sym(toks, k, ")"@) {
        Ok((ns, ts, k))
    } else if !(0 <= k < toks.len() && toks[k].kind is Identifier) {
        Err(err_at(toks, k, ErrorKind::ExpectedKind))
    } else {
        let n2 = ns.push(toks[k].content);
        let k1 = k + 1;
        if is_type_tok(toks, k1) {
            match p_types(toks, k1) {
                Err(e) => Err(e),
                Ok((t, j)) => {
                    let k2 = if is_sym(toks, j, ","@) { j + 1 } else { j };
                    p_params(toks, k2, n2, ts.push(t))
                },
            }
        } else {
            let k2 = if is_sym(toks, k1, ","@) { k1 + 1 } else { k1 };
            p_params(toks, k2, n2, ts.push(TypeV::Any))
        }
    }
}

/// What follows `fun` (and a name) from token `i`: optional parameters in
/// parentheses, an optional return type, `:`, and a body that is an
/// expression or, after the line end, an indented block.
pub open spec fn p_fun_rest(toks: Seq<TokenV>, i: int) -> Result<(Seq<Seq<char>>, Seq<TypeV>, Option<TypeV>, Seq<StmtV>, int), (ErrorKind, Option<Position>)>
    decreases toks, toks.len() - i, 6int,
{
    let pr = if is_sym(toks, i, "("@) {
        match p_params(toks, i + 1, Seq::empty(), Seq::empty()) {
            Err(e) => Err(e),
            Ok((ns, ts, k)) => Ok((ns, ts, k + 1)),
        }
    } else {
        Ok((Seq::empty(), Seq::empty(), i))
    };
    match pr {
        Err(e) => Err(e),
        Ok((ns, ts, k)) => {
            let tr = if is_type_tok(toks, k) {
                match p_types(toks, k) {
                    Err(e) => Err(e),
                    Ok((t, j)) => Ok((Some(t), j)),
                }
            } else {
                Ok((None, k))
            };
            match tr {
                Err(e) => Err(e),
                Ok((t, k2)) => if !is_sym(toks, k2, ":"@) {
                    Err(err_at(toks, k2, ErrorKind::ExpectedContent))
                } else {
                    let k3 = k2 + 1;
                    if is_eol(toks, k3) {
                        if k3 + 1 < toks.len() && toks[k3 + 1].kind is Block {
                            match p_parse_from(toks[k3 + 1].kind->Block_0, 0, Seq::empty()) {
                                Err(e) => Err(e),
                                Ok(body) => Ok((ns, ts, t, body, k3 + 2)),
                            }
                        } else {
                            Err(err_at(toks, k3, ErrorKind::UnexpectedEnd))
                        }
                    } else if i < k3 {
                        match p_expression(toks, k3) {
                            Err(e) => Err(e),
                            Ok((e, j)) => Ok((ns, ts, t, seq![StmtV::Expression(e)], j)),
                        }
                    } else {
                        Err((ErrorKind::UnexpectedEnd, None))
                    }
                },
            }
        },
    }
}

/// The expression at token `i`: a term, then any chain of operators.
pub open spec fn p_expression(toks: Seq<TokenV>, i: int) -> Result<(ExprV, int), (ErrorKind, Option<Position>)>
    decreases toks, toks.len() - i, 5int,
{
    match p_term(toks, i) {
        Err(e) => Err(e),
        Ok((e, j)) => if 0 <= j < toks.len() && toks[j].kind is Operator {
            if i < j {
                p_operation(toks, e, j, Seq::empty())
            } else {
                Err((ErrorKind::UnexpectedEnd, None))
            }
        } else {
            Ok((e, j))
        },
    }
}

/// The operator chain from token `k` on after the operand `first` and the
/// pairs already read, built into a tree by precedence climbing.
pub open spec fn p_operation(toks: Seq<TokenV>, first: ExprV, k: int, acc: Seq<(Operand, ExprV)>) -> Result<(ExprV, int), (ErrorKind, Option<Position>)>
    decreases toks, toks.len() - k, 5int,
{
    if 0 <= k < toks.len() && toks[k].kind is Operator {
        match operand_named(toks[k].content) {
            None => Err(err_at(toks, k, ErrorKind::UnexpectedToken)),
            Some((op, _)) => match p_term(toks, k + 1) {
                Err(e) => Err(e),
                Ok((e, j)) => if k < j <= toks.len() {
                    p_operation(toks, first, j, acc.push((op, e)))
                } else {
                    Err((ErrorKind::UnexpectedEnd, None))
                },
            },
        }
    } else {
        Ok((climb_spec(first, acc), k))
    }
}

/// The term at token `i`.
pub open spec fn p_term(toks: Seq<TokenV>, i: int) -> Result<(ExprV, int), (ErrorKind, Option<Position>)>
    decreases toks, toks.len() - i, 3int,
{
    if !(0 <= i < toks.len()) {
        Err(err_at(toks, i, ErrorKind::UnexpectedEnd))
    } else {
        let t = toks[i];
        match t.kind {
            KindV::EOL => if i + 1 < toks.len() && toks[i + 1].kind is Block {
                match p_block_term(toks, i + 1) {
                    Err(e) => Err(e),
                    Ok(e) => Ok((e, i + 2)),
                }
            } else {
                Err(err_at(toks, i, ErrorKind::UnexpectedEnd))
            },
            KindV::Block(_) => match p_block_term(toks, i) {
                Err(e) => Err(e),
                Ok(e) => Ok((e, i + 1)),
            },
            KindV::IntLiteral | KindV::FloatLiteral | KindV::StringLiteral | KindV::BoolLiteral => Ok(
                (literal_of(t)->0, i + 1),
            ),
            KindV::Identifier => p_tail(toks, ExprV::Identifier(t.content), i + 1),
            KindV::Keyword => if t.content == "fun"@ {
                match p_fun_rest(toks, i + 1) {
                    Err(e) => Err(e),
                    Ok((ns, ts, tp, b, j)) => Ok(
                        (ExprV::Fun { param_names: ns, param_types: ts, t: tp, body: b }, j),
                    ),
                }
            } else {
                Err(err_at(toks, i, ErrorKind::UnexpectedToken))
            },
            KindV::Symbol => if is_sym(toks, i, "["@) {
                p_dict(toks, i + 1, Seq::empty())
            } else if is_sym(toks, i, "("@) {
                match p_expression(toks, i + 1) {
                    Err(e) => Err(e),
                    Ok((e, j)) => if is_sym(toks, j, ")"@) {
                        if i < j {
                            p_tail(toks, e, j + 1)
                        } else {
                            Err((ErrorKind::UnexpectedEnd, None))
                        }
                    } else {
                        Err(err_at(toks, j, ErrorKind::ExpectedContent))
                    },
                }
            } else {
                Err(err_at(toks, i, ErrorKind::UnexpectedToken))
            },
            _ => Err(err_at(toks, i, ErrorKind::UnexpectedToken)),
        }
    }
}

/// Postfix `!` (a call without arguments) and `.name` (a member) after `e`,
/// from token `k` on.
pub open spec fn p_postfix(toks: Seq<TokenV>, e: ExprV, k: int) -> Result<(ExprV, int), (ErrorKind, Option<Position>)>
    decreases toks.len() - k,
{
    if is_sym(toks, k, "!"@) {
        p_postfix(toks, ExprV::Call(Box::new(e), Seq::empty()), k + 1)
    } else if is_sym(toks, k, "."@) {
        if k + 1 < toks.len() && toks[k + 1].kind is Identifier {
            p_postfix(toks, ExprV::Index(Box::new(e), Box::new(ExprV::Identifier(toks[k + 1].content))), k + 2)
        } else {
            Err(err_at(toks, k + 1, ErrorKind::ExpectedKind))
        }
    } else {
        Ok((e, k))
    }
}

/// What follows a name or a parenthesised expression `e` from token `i`:
/// postfixes, then a typed or untyped definition, or call arguments.
pub open spec fn p_tail(toks: Seq<TokenV>, e: ExprV, i: int) -> Result<(ExprV, int), (ErrorKind, Option<Position>)>
    decreases toks, toks.len() - i, 3int,
{
    match p_postfix(toks, e, i) {
        Err(x) => Err(x),
        Ok((e, k)) => if k < i || k > toks.len() {
            Err((ErrorKind::UnexpectedEnd, None))
        } else if is_type_tok(toks, k) {
            if !assignable(e) {
                Err(err_at(toks, k, ErrorKind::IllegalAssignmentTarget))
            } else {
                match p_types(toks, k) {
                    Err(x) => Err(x),
                    Ok((t, j)) => if is_sym(toks, j, "="@) {
                        match p_expression(toks, j + 1) {
                            Err(x) => Err(x),
                            Ok((v, j2)) => Ok((ExprV::Definition(Some(t), Box::new(e), Some(Box::new(v))), j2)),
                        }
                    } else {
                        Ok((ExprV::Definition(Some(t), Box::new(e), None), j))
                    },
                }
            }
        } else if is_sym(toks, k, "="@) {
            if !assignable(e) {
                Err(err_at(toks, k, ErrorKind::IllegalAssignmentTarget))
            } else {
                match p_expression(toks, k + 1) {
                    Err(x) => Err(x),
                    Ok((v, j)) => Ok((ExprV::Definition(None, Box::new(e), Some(Box::new(v))), j)),
                }
            }
        } else if starts_arg(toks, k) {
            match p_call_args(toks, k, Seq::empty()) {
                Err(x) => Err(x),
                Ok((args, j)) => Ok((ExprV::Call(Box::new(e), args), j)),
            }
        } else {
            Ok((e, k))
        },
    }
}

/// Call arguments from token `k` on, after those already read; each may be
/// followed by `,`.
pub open spec fn p_call_args(toks: Seq<TokenV>, k: int, acc: Seq<ExprV>) -> Result<(Seq<ExprV>, int), (ErrorKind, Option<Position>)>
    decreases toks, toks.len() - k, 2int,
{
    if starts_arg(toks, k) {
        match p_arg(toks, k) {
            Err(x) => Err(x),
            Ok((a, j)) => if k < j <= toks.len() {
                let j2 = if is_sym(toks, j, ","@) { j + 1 } else { j };
                p_call_args(toks, j2, acc.push(a))
            } else {
                Err((ErrorKind::UnexpectedEnd, None))
            },
        }
    } else {
        Ok((acc, k))
    }
}

/// One call argument at token `i`: a literal, a name, a parenthesised
/// expression or a dictionary, with postfixes.
pub open spec fn p_arg(toks: Seq<TokenV>, i: int) -> Result<(ExprV, int), (ErrorKind, Option<Position>)>
    decreases toks, toks.len() - i, 1int,
{
    if !starts_arg(toks, i) {
        Err(err_at(toks, i, ErrorKind::UnexpectedToken))
    } else {
        let t = toks[i];
        match t.kind {
            KindV::IntLiteral | KindV::FloatLiteral | KindV::StringLiteral | KindV::BoolLiteral => Ok(
                (literal_of(t)->0, i + 1),
            ),
            KindV::Identifier => p_postfix(toks, ExprV::Identifier(t.content), i + 1),
            _ => if is_sym(toks, i, "["@) {
                p_dict(toks, i + 1, Seq::empty())
            } else {
                match p_expression(toks, i + 1) {
                    Err(x) => Err(x),
                    Ok((e, j)) => if is_sym(toks, j, ")"@) {
                        p_postfix(toks, e, j + 1)
                    } else {
                        Err(err_at(toks, j, ErrorKind::ExpectedContent))
                    },
                }
            },
        }
    }
}

/// The expressions of a block's statements, if all are expressions.
pub open spec fn block_entries(stmts: Seq<StmtV>) -> Option<Seq<ExprV>> {
    if forall|k: int| 0 <= k < stmts.len() ==> #[trigger] stmts[k] is Expression {
        Some(Seq::new(stmts.len() as nat, |k: int| stmts[k]->Expression_0))
    } else {
        None
    }
}

/// Dictionary entries from token `k` (after `[`) through the closing `]`,
/// after those already read. Line ends and `,` are skipped; an indented
/// block holds further entries, one per line.
pub open spec fn p_dict(toks: Seq<TokenV>, k: int, acc: Seq<ExprV>) -> Result<(ExprV, int), (ErrorKind, Option<Position>)>
    decreases toks, toks.len() - k, 6int,
{
    if !(0 <= k < toks.len()) {
        Err(err_at(toks, k, ErrorKind::UnexpectedEnd))
    } else if is_sym(toks, k, "]"@) {
        Ok((ExprV::DictLiteral(acc), k + 1))
    } else if is_eol(toks, k) || is_sym(toks, k, ","@) {
        p_dict(toks, k + 1, acc)
    } else {
        match toks[k].kind {
            KindV::Block(c) => match p_parse_from(c, 0, Seq::empty()) {
                Err(x) => Err(x),
                Ok(stmts) => match block_entries(stmts) {
                    None => Err(err_at(toks, k, ErrorKind::UnexpectedToken)),
                    Some(es) => p_dict(toks, k + 1, acc + es),
                },
            },
            _ => match p_expression(toks, k) {
                Err(x) => Err(x),
                Ok((e, j)) => if k < j <= toks.len() {
                    p_dict(toks, j, acc.push(e))
                } else {
                    Err((ErrorKind::UnexpectedEnd, None))
                },
            },
        }
    }
}

/// Whether an error has the given kind and position.
pub open spec fn agrees_err(x: ParserError, e: (ErrorKind, Option<Position>)) -> bool {
    x.kind == e.0 && x.position == e.1
}

pub open spec fn agrees_expr(r: Result<(Expression, usize), ParserError>, s: Result<(ExprV, int), (ErrorKind, Option<Position>)>) -> bool {
    match s {
        Ok((e, j)) => r matches Ok((x, k)) && x@ == e && k as int == j,
        Err(e) => r matches Err(x) && agrees_err(x, e),
    }
}

pub open spec fn agrees_stmt(r: Result<(Statement, usize), ParserError>, s: Result<(StmtV, int), (ErrorKind, Option<Position>)>) -> bool {
    match s {
        Ok((e, j)) => r matches Ok((x, k)) && x@ == e && k as int == j,
        Err(e) => r matches Err(x) && agrees_err(x, e),
    }
}

pub open spec fn agrees_stmts(r: Result<Vec<Statement>, ParserError>, s: Result<Seq<StmtV>, (ErrorKind, Option<Position>)>) -> bool {
    match s {
        Ok(v) => r matches Ok(x) && stmts_view(x@) == v,
        Err(e) => r matches Err(x) && agrees_err(x, e),
    }
}

pub open spec fn agrees_block(r: Result<Expression, ParserError>, s: Result<ExprV, (ErrorKind, Option<Position>)>) -> bool {
    match s {
        Ok(v) => r matches Ok(x) && x@ == v,
        Err(e) => r matches Err(x) && agrees_err(x, e),
    }
}

pub open spec fn agrees_args(r: Result<(Vec<Expression>, usize), ParserError>, s: Result<(Seq<ExprV>, int), (ErrorKind, Option<Position>)>) -> bool {
    match s {
        Ok((v, j)) => r matches Ok((x, k)) && exprs_view(x@) == v && k as int == j,
        Err(e) => r matches Err(x) && agrees_err(x, e),
    }
}

pub open spec fn agrees_type(r: Result<(Type, usize), ParserError>, s: Result<(TypeV, int), (ErrorKind, Option<Position>)>) -> bool {
    match s {
        Ok((v, j)) => r matches Ok((x, k)) && x@ == v && k as int == j,
        Err(e) => r matches Err(x) && agrees_err(x, e),
    }
}

pub open spec fn agrees_params(
    r: Result<(Vec<String>, Vec<Type>, usize), ParserError>,
    s: Result<(Seq<Seq<char>>, Seq<TypeV>, int), (ErrorKind, Option<Position>)>,
) -> bool {
    match s {
        Ok((ns, ts, j)) => r matches Ok((x, y, k)) && strings_view(x@) == ns && types_view(y@) == ts && k as int == j,
        Err(e) => r matches Err(x) && agrees_err(x, e),
    }
}

pub open spec fn agrees_fun(
    r: Result<(Vec<String>, Vec<Type>, Option<Type>, Vec<Statement>, usize), ParserError>,
    s: Result<(Seq<Seq<char>>, Seq<TypeV>, Option<TypeV>, Seq<StmtV>, int), (ErrorKind, Option<Position>)>,
) -> bool {
    match s {
        Ok((ns, ts, t, b, j)) => r matches Ok((x, y, u, v, k)) && strings_view(x@) == ns && types_view(y@) == ts
            && crate::ast::opt_view(u) == t && stmts_view(v@) == b && k as int == j,
        Err(e) => r matches Err(x) && agrees_err(x, e),
    }
}

fn sym_at(toks: &Vec<Token>, i: usize, s: &str) -> (r: bool)
    ensures
        r == is_sym(tokens_view(toks@), i as int, s@),
{
    proof {
        lemma_tokens_view(toks@);
    }
    i < toks.len() && matches!(toks[i].token_type, TokenType::Symbol) && same_text(toks[i].content.as_str(), s)
}

fn eol_at(toks: &Vec<Token>, i: usize) -> (r: bool)
    ensures
        r == is_eol(tokens_view(toks@), i as int),
{
    proof {
        lemma_tokens_view(toks@);
    }
    i < toks.len() && matches!(toks[i].token_type, TokenType::EOL)
}

fn type_at(toks: &Vec<Token>, i: usize) -> (r: bool)
    ensures
        r == is_type_tok(tokens_view(toks@), i as int),
{
    proof {
        lemma_tokens_view(toks@);
    }
    i < toks.len() && matches!(toks[i].token_type, TokenType::Type)
}

fn arg_at(toks: &Vec<Token>, i: usize) -> (r: bool)
    ensures
        r == starts_arg(tokens_view(toks@), i as int),
{
    proof {
        lemma_tokens_view(toks@);
    }
    if i >= toks.len() {
        return false;
    }
    match toks[i].token_type {
        TokenType::IntLiteral | TokenType::FloatLiteral | TokenType::StringLiteral | TokenType::BoolLiteral
        | TokenType::Identifier => true,
        _ => sym_at(toks, i, "(") || sym_at(toks, i, "["),
    }
}

/// The literal that literal token `i` stands for.
fn literal_at(toks: &Vec<Token>, i: usize) -> (r: Expression)
    requires
        i < toks.len(),
        literal_of(tokens_view(toks@)[i as int]) is Some,
    ensures
        r@ == literal_of(tokens_view(toks@)[i as int])->0,
{
    proof {
        lemma_tokens_view(toks@);
    }
    let t = &toks[i];
    match t.token_type {
        TokenType::StringLiteral => Expression::StringLiteral(t.content.clone()),
        TokenType::BoolLiteral => Expression::BoolLiteral(same_text(t.content.as_str(), "true")),
        _ => Expression::NumberLiteral(t.content.clone()),
    }
}

/// Reads a type at token `i` (see [`p_types`]).
pub fn types_at(toks: &Vec<Token>, i: usize) -> (r: Result<(Type, usize), ParserError>)
    requires
        is_type_tok(tokens_view(toks@), i as int),
    ensures
        agrees_type(r, p_types(tokens_view(toks@), i as int)),
        err_within(r, toks@),
        r matches Ok((_, j)) ==> i < j <= toks.len(),
{
    proof {
        lemma_tokens_view(toks@);
    }
    assert(i < toks.len());
    match get_type(toks[i].content.as_str()) {
        None => Err(error_at(toks, i, ErrorKind::ExpectedKind, "not a type name")),
        Some(t) => {
            if sym_at(toks, i + 1, "..") {
                let r = Type::Array(Box::new(t));
                assert(r@ == TypeV::Array(Box::new(t@)));
                Ok((r, i + 2))
            } else {
                Ok((t, i + 1))
            }
        },
    }
}

/// Parses a whole token sequence into statements (see [`p_parse_from`]).
/// Lines are separated by `EOL` tokens; a statement that ends in an
/// indented body is followed by the `Block` token of that body.
pub fn parse_tokens(toks: &Vec<Token>) -> (r: Result<Vec<Statement>, ParserError>)
    ensures
        agrees_stmts(r, p_parse_from(tokens_view(toks@), 0, Seq::empty())),
        err_within(r, toks@),
    decreases toks@, toks.len() + 2, 0nat,
{
    proof {
        lemma_tokens_view(toks@);
    }
    let acc: Vec<Statement> = Vec::new();
    assert(stmts_view(acc@) == Seq::<StmtV>::empty());
    parse_from(toks, 0, acc)
}

/// Parses the statements from token `i` on after those in `acc`.
pub fn parse_from(toks: &Vec<Token>, i: usize, acc: Vec<Statement>) -> (r: Result<Vec<Statement>, ParserError>)
    ensures
        agrees_stmts(r, p_parse_from(tokens_view(toks@), i as int, stmts_view(acc@))),
        err_within(r, toks@),
    decreases toks@, toks.len() + 1 - i, 0nat,
{
    proof {
        lemma_tokens_view(toks@);
    }
    if i >= toks.len() {
        return Ok(acc);
    }
    if eol_at(toks, i) {
        return parse_from(toks, i + 1, acc);
    }
    match statement_at(toks, i) {
        Err(e) => Err(e),
        Ok((s, j)) => {
            let mut acc = acc;
            proof {
                lemma_stmts_push(acc@, s);
            }
            acc.push(s);
            parse_from(toks, j, acc)
        },
    }
}

/// Parses the statements of the `Block` token at `i` (see [`p_block_term`]).
fn block_term(toks: &Vec<Token>, i: usize) -> (r: Result<Expression, ParserError>)
    requires
        i < toks.len(),
    ensures
        agrees_block(r, p_block_term(tokens_view(toks@), i as int)),
        err_within(r, toks@),
    decreases toks@, 0nat, 0nat,
{
    proof {
        lemma_tokens_view(toks@);
    }
    match &toks[i].token_type {
        TokenType::Block(c) => {
            proof {
                assert(decreases_to!(toks@ => toks@[i as int]));
                assert(decreases_to!(toks@[i as int] => toks@[i as int].token_type));
                assert(decreases_to!(toks@[i as int].token_type => *c));
                assert(decreases_to!(*c => c@));
            }
            match parse_tokens(c) {
                Err(e) => {
                    proof {
                        lemma_child_pos(toks@, i as int, *c, e.position);
                    }
                    Err(e)
                },
                Ok(mut stmts) => {
                    proof {
                        lemma_stmts_view(stmts@);
                    }
                    if stmts.len() == 1 {
                        let s = stmts.pop().unwrap();
                        match s {
                            Statement::Expression(e) => Ok(e),
                            other => {
                                let mut v = Vec::new();
                                proof {
                                    lemma_stmts_push(v@, other);
                                    assert(stmts_view(Seq::<Statement>::empty()) == Seq::<StmtV>::empty());
                                }
                                v.push(other);
                                Ok(Expression::Block(v))
                            },
                        }
                    } else {
                        Ok(Expression::Block(stmts))
                    }
                },
            }
        },
        _ => Err(error_at(toks, i, ErrorKind::UnexpectedToken, "expected an indented block")),
    }
}

/// Parses one statement at token `i` (see [`p_statement`]).
pub fn statement_at(toks: &Vec<Token>, i: usize) -> (r: Result<(Statement, usize), ParserError>)
    requires
        i < toks.len(),
    ensures
        agrees_stmt(r, p_statement(tokens_view(toks@), i as int)),
        err_within(r, toks@),
        r matches Ok((_, j)) ==> i < j <= toks.len(),
    decreases toks@, toks.len() - i, 6nat,
{
    proof {
        lemma_tokens_view(toks@);
    }
    if matches!(toks[i].token_type, TokenType::Keyword) && same_text(toks[i].content.as_str(), "fun")
        && i + 1 < toks.len() && matches!(toks[i + 1].token_type, TokenType::Identifier) {
        let name = toks[i + 1].content.clone();
        match fun_rest(toks, i + 2) {
            Err(e) => Err(e),
            Ok((param_names, param_types, t, body, j)) => Ok(
                (Statement::Fun { name, param_names, param_types, t, body }, j),
            ),
        }
    } else {
        match expression_at(toks, i) {
            Err(e) => Err(e),
            Ok((e, j)) => Ok((Statement::Expression(e), j)),
        }
    }
}

/// Reads parameters from token `k` up to the closing `)` (see [`p_params`]).
fn params(toks: &Vec<Token>, k: usize, names: Vec<String>, types: Vec<Type>) -> (r: Result<(Vec<String>, Vec<Type>, usize), ParserError>)
    requires
        k <= toks.len(),
        names.len() == types.len(),
    ensures
        agrees_params(r, p_params(tokens_view(toks@), k as int, strings_view(names@), types_view(types@))),
        err_within(r, toks@),
        r matches Ok((n, t, j)) ==> k <= j < toks.len() && n.len() == t.len(),
    decreases toks@, toks.len() - k, 5nat,
{
    proof {
        lemma_tokens_view(toks@);
    }
    if sym_at(toks, k, ")") {
        return Ok((names, types, k));
    }
    if k >= toks.len() || !matches!(toks[k].token_type, TokenType::Identifier) {
        return Err(error_at(toks, k, ErrorKind::ExpectedKind, "expected a parameter name"));
    }
    let mut names = names;
    let mut types = types;
    let ghost nv = strings_view(names@);
    let n = toks[k].content.clone();
    names.push(n);
    assert(strings_view(names@) =~= nv.push(toks@[k as int].content@));
    let k1 = k + 1;
    if type_at(toks, k1) {
        match types_at(toks, k1) {
            Err(e) => Err(e),
            Ok((t, j)) => {
                let k2 = if sym_at(toks, j, ",") {
                    j + 1
                } else {
                    j
                };
                proof {
                    lemma_types_push(types@, t);
                }
                types.push(t);
                params(toks, k2, names, types)
            },
        }
    } else {
        let k2 = if sym_at(toks, k1, ",") {
            k1 + 1
        } else {
            k1
        };
        proof {
            lemma_types_push(types@, Type::Any);
        }
        types.push(Type::Any);
        params(toks, k2, names, types)
    }
}

/// Parses what follows `fun` (and a name) from token `i` (see [`p_fun_rest`]).
fn fun_rest(toks: &Vec<Token>, i: usize) -> (r: Result<(Vec<String>, Vec<Type>, Option<Type>, Vec<Statement>, usize), ParserError>)
    requires
        i <= toks.len(),
    ensures
        agrees_fun(r, p_fun_rest(tokens_view(toks@), i as int)),
        err_within(r, toks@),
        r matches Ok((names, types, _, _, j)) ==> i < j <= toks.len() && names.len() == types.len(),
    decreases toks@, toks.len() - i, 6nat,
{
    proof {
        lemma_tokens_view(toks@);
    }
    let mut names: Vec<String> = Vec::new();
    let mut types: Vec<Type> = Vec::new();
    let mut k = i;
    if sym_at(toks, i, "(") {
        assert(strings_view(names@) =~= Seq::<Seq<char>>::empty());
        assert(types_view(types@) =~= Seq::<TypeV>::empty());
        match params(toks, i + 1, Vec::new(), Vec::new()) {
            Err(e) => {
                return Err(e);
            },
            Ok((n, t, j)) => {
                names = n;
                types = t;
                k = j + 1;
            },
        }
    } else {
        assert(strings_view(names@) =~= Seq::<Seq<char>>::empty());
        assert(types_view(types@) =~= Seq::<TypeV>::empty());
    }
    let mut t: Option<Type> = None;
    if type_at(toks, k) {
        match types_at(toks, k) {
            Err(e) => {
                return Err(e);
            },
            Ok((tp, j)) => {
                t = Some(tp);
                k = j;
            },
        }
    }
    if !sym_at(toks, k, ":") {
        return Err(error_at(toks, k, ErrorKind::ExpectedContent, "expected ':'"));
    }
    k = k + 1;
    if eol_at(toks, k) {
        if k + 1 < toks.len() {
            match &toks[k + 1].token_type {
                TokenType::Block(c) => {
                    proof {
                        assert(decreases_to!(toks@ => toks@[k + 1]));
                        assert(decreases_to!(toks@[k + 1] => toks@[k + 1].token_type));
                        assert(decreases_to!(toks@[k + 1].token_type => *c));
                        assert(decreases_to!(*c => c@));
                    }
                    match parse_tokens(c) {
                        Err(e) => {
                            proof {
                                lemma_child_pos(toks@, k + 1, *c, e.position);
                            }
                            return Err(e);
                        },
                        Ok(body) => {
                            return Ok((names, types, t, body, k + 2));
                        },
                    }
                },
                _ => {},
            }
        }
        return Err(error_at(toks, k, ErrorKind::UnexpectedEnd, "expected a function body"));
    }
    match expression_at(toks, k) {
        Err(e) => Err(e),
        Ok((e, j)) => {
            let mut body: Vec<Statement> = Vec::new();
            proof {
                lemma_stmts_push(body@, Statement::Expression(e));
                assert(stmts_view(Seq::<Statement>::empty()) == Seq::<StmtV>::empty());
            }
            body.push(Statement::Expression(e));
            Ok((names, types, t, body, j))
        },
    }
}

/// Parses an expression at token `i` (see [`p_expression`]).
pub fn expression_at(toks: &Vec<Token>, i: usize) -> (r: Result<(Expression, usize), ParserError>)
    requires
        i <= toks.len(),
    ensures
        agrees_expr(r, p_expression(tokens_view(toks@), i as int)),
        err_within(r, toks@),
        r matches Ok((_, j)) ==> i < j <= toks.len(),
    decreases toks@, toks.len() - i, 5nat,
{
    proof {
        lemma_tokens_view(toks@);
    }
    match term_at(toks, i) {
        Err(e) => Err(e),
        Ok((e, j)) => {
            if j < toks.len() && matches!(toks[j].token_type, TokenType::Operator) {
                let acc: Vec<(Operand, Expression)> = Vec::new();
                assert(pairs_view(acc@) =~= Seq::<(Operand, ExprV)>::empty());
                operation_at(toks, e, j, acc)
            } else {
                Ok((e, j))
            }
        },
    }
}

/// Parses the operator chain from token `k` on (see [`p_operation`]).
fn operation_at(toks: &Vec<Token>, first: Expression, k: usize, acc: Vec<(Operand, Expression)>) -> (r: Result<(Expression, usize), ParserError>)
    requires
        k <= toks.len(),
    ensures
        agrees_expr(r, p_operation(tokens_view(toks@), first@, k as int, pairs_view(acc@))),
        err_within(r, toks@),
        r matches Ok((_, j)) ==> k <= j <= toks.len(),
    decreases toks@, toks.len() - k, 5nat,
{
    proof {
        lemma_tokens_view(toks@);
    }
    if k < toks.len() && matches!(toks[k].token_type, TokenType::Operator) {
        match get_operand(toks[k].content.as_str()) {
            None => Err(error_at(toks, k, ErrorKind::UnexpectedToken, "not an operator")),
            Some((op, _)) => match term_at(toks, k + 1) {
                Err(e) => Err(e),
                Ok((e, j)) => {
                    let mut acc = acc;
                    let ghost pv = pairs_view(acc@);
                    let ghost ev = e@;
                    acc.push((op, e));
                    assert(pairs_view(acc@) =~= pv.push((op, ev)));
                    operation_at(toks, first, j, acc)
                },
            },
        }
    } else {
        Ok((climb(first, acc), k))
    }
}

/// Parses a term at token `i` (see [`p_term`]).
pub fn term_at(toks: &Vec<Token>, i: usize) -> (r: Result<(Expression, usize), ParserError>)
    requires
        i <= toks.len(),
    ensures
        agrees_expr(r, p_term(tokens_view(toks@), i as int)),
        err_within(r, toks@),
        r matches Ok((_, j)) ==> i < j <= toks.len(),
    decreases toks@, toks.len() - i, 3nat,
{
    proof {
        lemma_tokens_view(toks@);
    }
    if i >= toks.len() {
        return Err(error_at(toks, i, ErrorKind::UnexpectedEnd, "expected a term"));
    }
    let t = &toks[i];
    match &t.token_type {
        TokenType::EOL => {
            if i + 1 < toks.len() && matches!(toks[i + 1].token_type, TokenType::Block(_)) {
                return match block_term(toks, i + 1) {
                    Err(e) => Err(e),
                    Ok(e) => Ok((e, i + 2)),
                };
            }
            Err(error_at(toks, i, ErrorKind::UnexpectedEnd, "expected a term before the end of the line"))
        },
        TokenType::Block(_) => match block_term(toks, i) {
            Err(e) => Err(e),
            Ok(e) => Ok((e, i + 1)),
        },
        TokenType::IntLiteral | TokenType::FloatLiteral | TokenType::StringLiteral | TokenType::BoolLiteral => Ok(
            (literal_at(toks, i), i + 1),
        ),
        TokenType::Identifier => tail_at(toks, Expression::Identifier(t.content.clone()), i + 1),
        TokenType::Keyword => {
            if same_text(t.content.as_str(), "fun") {
                match fun_rest(toks, i + 1) {
                    Err(e) => Err(e),
                    Ok((param_names, param_types, tp, body, j)) => Ok(
                        (Expression::Fun { param_names, param_types, t: tp, body }, j),
                    ),
                }
            } else {
                Err(error_at(toks, i, ErrorKind::UnexpectedToken, "unexpected keyword"))
            }
        },
        TokenType::Symbol => {
            if sym_at(toks, i, "[") {
                let acc: Vec<Expression> = Vec::new();
                assert(exprs_view(acc@) == Seq::<ExprV>::empty());
                dict_at(toks, i + 1, acc)
            } else if sym_at(toks, i, "(") {
                match expression_at(toks, i + 1) {
                    Err(e) => Err(e),
                    Ok((e, j)) => {
                        if sym_at(toks, j, ")") {
                            tail_at(toks, e, j + 1)
                        } else {
                            Err(error_at(toks, j, ErrorKind::ExpectedContent, "expected ')'"))
                        }
                    },
                }
            } else {
                Err(error_at(toks, i, ErrorKind::UnexpectedToken, "unexpected symbol"))
            }
        },
        _ => Err(error_at(toks, i, ErrorKind::UnexpectedToken, "unexpected token")),
    }
}

/// Reads `!` and `.name` postfixes after `e` (see [`p_postfix`]).
fn postfix_at(toks: &Vec<Token>, e: Expression, k: usize) -> (r: Result<(Expression, usize), ParserError>)
    requires
        k <= toks.len(),
    ensures
        agrees_expr(r, p_postfix(tokens_view(toks@), e@, k as int)),
        err_within(r, toks@),
        r matches Ok((_, j)) ==> k <= j <= toks.len(),
    decreases toks.len() - k,
{
    proof {
        lemma_tokens_view(toks@);
    }
    if sym_at(toks, k, "!") {
        let args: Vec<Expression> = Vec::new();
        assert(exprs_view(args@) == Seq::<ExprV>::empty());
        let ghost ev = e@;
        let c = Expression::Call(Box::new(e), args);
        assert(c@ == ExprV::Call(Box::new(ev), Seq::empty()));
        postfix_at(toks, c, k + 1)
    } else if sym_at(toks, k, ".") {
        if k + 1 < toks.len() && matches!(toks[k + 1].token_type, TokenType::Identifier) {
            let member = Expression::Identifier(toks[k + 1].content.clone());
            assert(member@ == ExprV::Identifier(toks@[k + 1].content@));
            let ghost ev = e@;
            let x = Expression::Index(Box::new(e), Box::new(member));
            assert(x@ == ExprV::Index(Box::new(ev), Box::new(ExprV::Identifier(toks@[k + 1].content@))));
            postfix_at(toks, x, k + 2)
        } else {
            Err(error_at(toks, k + 1, ErrorKind::ExpectedKind, "expected a member name"))
        }
    } else {
        Ok((e, k))
    }
}

/// Reads what follows a name or a parenthesised expression `e` (see
/// [`p_tail`]).
fn tail_at(toks: &Vec<Token>, e: Expression, i: usize) -> (r: Result<(Expression, usize), ParserError>)
    requires
        i <= toks.len(),
    ensures
        agrees_expr(r, p_tail(tokens_view(toks@), e@, i as int)),
        err_within(r, toks@),
        r matches Ok((_, j)) ==> i <= j <= toks.len(),
    decreases toks@, toks.len() - i, 3nat,
{
    proof {
        lemma_tokens_view(toks@);
    }
    let (e, k) = match postfix_at(toks, e, i) {
        Err(er) => {
            return Err(er);
        },
        Ok(p) => p,
    };
    if type_at(toks, k) {
        if !(matches!(e, Expression::Identifier(_)) || matches!(e, Expression::Index(_, _))) {
            return Err(error_at(toks, k, ErrorKind::IllegalAssignmentTarget, "only a name or a member can be defined"));
        }
        match types_at(toks, k) {
            Err(er) => Err(er),
            Ok((t, j)) => {
                if sym_at(toks, j, "=") {
                    match expression_at(toks, j + 1) {
                        Err(er) => Err(er),
                        Ok((v, j2)) => Ok((Expression::Definition(Some(t), Box::new(e), Some(Box::new(v))), j2)),
                    }
                } else {
                    Ok((Expression::Definition(Some(t), Box::new(e), None), j))
                }
            },
        }
    } else if sym_at(toks, k, "=") {
        if !(matches!(e, Expression::Identifier(_)) || matches!(e, Expression::Index(_, _))) {
            return Err(error_at(toks, k, ErrorKind::IllegalAssignmentTarget, "only a name or a member can be assigned"));
        }
        match expression_at(toks, k + 1) {
            Err(er) => Err(er),
            Ok((v, j)) => Ok((Expression::Definition(None, Box::new(e), Some(Box::new(v))), j)),
        }
    } else if arg_at(toks, k) {
        let acc: Vec<Expression> = Vec::new();
        assert(exprs_view(acc@) == Seq::<ExprV>::empty());
        match call_args(toks, k, acc) {
            Err(er) => Err(er),
            Ok((args, j)) => Ok((Expression::Call(Box::new(e), args), j)),
        }
    } else {
        Ok((e, k))
    }
}

/// Reads call arguments from token `k` on (see [`p_call_args`]).
fn call_args(toks: &Vec<Token>, k: usize, acc: Vec<Expression>) -> (r: Result<(Vec<Expression>, usize), ParserError>)
    requires
        k <= toks.len(),
    ensures
        agrees_args(r, p_call_args(tokens_view(toks@), k as int, exprs_view(acc@))),
        err_within(r, toks@),
        r matches Ok((_, j)) ==> k <= j <= toks.len(),
    decreases toks@, toks.len() - k, 2nat,
{
    proof {
        lemma_tokens_view(toks@);
    }
    if arg_at(toks, k) {
        match arg_term(toks, k) {
            Err(e) => Err(e),
            Ok((a, j)) => {
                let j2 = if sym_at(toks, j, ",") {
                    j + 1
                } else {
                    j
                };
                let mut acc = acc;
                proof {
                    lemma_exprs_push(acc@, a);
                }
                acc.push(a);
                call_args(toks, j2, acc)
            },
        }
    } else {
        Ok((acc, k))
    }
}

/// Parses one call argument at token `i` (see [`p_arg`]).
fn arg_term(toks: &Vec<Token>, i: usize) -> (r: Result<(Expression, usize), ParserError>)
    requires
        starts_arg(tokens_view(toks@), i as int),
    ensures
        agrees_expr(r, p_arg(tokens_view(toks@), i as int)),
        err_within(r, toks@),
        r matches Ok((_, j)) ==> i < j <= toks.len(),
    decreases toks@, toks.len() - i, 1nat,
{
    proof {
        lemma_tokens_view(toks@);
    }
    let t = &toks[i];
    match &t.token_type {
        TokenType::IntLiteral | TokenType::FloatLiteral | TokenType::StringLiteral | TokenType::BoolLiteral => Ok(
            (literal_at(toks, i), i + 1),
        ),
        TokenType::Identifier => postfix_at(toks, Expression::Identifier(t.content.clone()), i + 1),
        _ => {
            if sym_at(toks, i, "[") {
                let acc: Vec<Expression> = Vec::new();
                assert(exprs_view(acc@) == Seq::<ExprV>::empty());
                dict_at(toks, i + 1, acc)
            } else {
                match expression_at(toks, i + 1) {
                    Err(e) => Err(e),
                    Ok((e, j)) => {
                        if sym_at(toks, j, ")") {
                            postfix_at(toks, e, j + 1)
                        } else {
                            Err(error_at(toks, j, ErrorKind::ExpectedContent, "expected ')'"))
                        }
                    },
                }
            }
        },
    }
}

/// The expressions of a block's statements, if all are expressions (see
/// [`block_entries`]).
fn take_entries(stmts: Vec<Statement>) -> (r: Option<Vec<Expression>>)
    ensures
        match block_entries(stmts_view(stmts@)) {
            None => r is None,
            Some(es) => r matches Some(v) && exprs_view(v@) == es,
        },
{
    let ghost sv = stmts_view(stmts@);
    proof {
        lemma_stmts_view(stmts@);
    }
    let n = stmts.len();
    let mut out: Vec<Expression> = Vec::new();
    let mut rest = stmts;
    let mut i: usize = 0;
    while i < n
        invariant
            n == sv.len(),
            sv == stmts_view(stmts@),
            i <= n,
            rest.len() == n - i,
            forall|q: int| 0 <= q < rest.len() ==> #[trigger] rest@[q]@ == sv[q + i],
            out.len() == i,
            forall|q: int| 0 <= q < i ==> #[trigger] sv[q] is Expression && out@[q]@ == sv[q]->Expression_0,
        decreases n - i,
    {
        let ghost pre = rest@;
        let s = rest.remove(0);
        assert(s@ == sv[i as int]);
        assert forall|q: int| 0 <= q < rest.len() implies #[trigger] rest@[q]@ == sv[q + i + 1] by {
            assert(rest@[q] == pre[q + 1]);
        }
        match s {
            Statement::Expression(e) => {
                out.push(e);
            },
            _ => {
                assert(!(sv[i as int] is Expression));
                assert(!(forall|q: int| 0 <= q < sv.len() ==> #[trigger] sv[q] is Expression));
                assert(block_entries(sv) is None);
                assert(sv == stmts_view(stmts@));
                return None;
            },
        }
        i = i + 1;
    }
    proof {
        crate::ast::lemma_exprs_view(out@);
        assert(exprs_view(out@) =~= Seq::new(sv.len() as nat, |k: int| sv[k]->Expression_0));
    }
    Some(out)
}

/// Parses dictionary entries from token `k` through the closing `]` (see
/// [`p_dict`]).
fn dict_at(toks: &Vec<Token>, k: usize, acc: Vec<Expression>) -> (r: Result<(Expression, usize), ParserError>)
    requires
        k <= toks.len(),
    ensures
        agrees_expr(r, p_dict(tokens_view(toks@), k as int, exprs_view(acc@))),
        err_within(r, toks@),
        r matches Ok((_, j)) ==> k < j <= toks.len(),
    decreases toks@, toks.len() - k, 6nat,
{
    proof {
        lemma_tokens_view(toks@);
    }
    if k >= toks.len() {
        return Err(error_at(toks, k, ErrorKind::UnexpectedEnd, "expected ']'"));
    }
    if sym_at(toks, k, "]") {
        return Ok((Expression::DictLiteral(acc), k + 1));
    }
    if eol_at(toks, k) || sym_at(toks, k, ",") {
        return dict_at(toks, k + 1, acc);
    }
    match &toks[k].token_type {
        TokenType::Block(c) => {
            proof {
                assert(decreases_to!(toks@ => toks@[k as int]));
                assert(decreases_to!(toks@[k as int] => toks@[k as int].token_type));
                assert(decreases_to!(toks@[k as int].token_type => *c));
                assert(decreases_to!(*c => c@));
            }
            match parse_tokens(c) {
                Err(e) => {
                    proof {
                        lemma_child_pos(toks@, k as int, *c, e.position);
                    }
                    Err(e)
                },
                Ok(stmts) => match take_entries(stmts) {
                    None => Err(error_at(toks, k, ErrorKind::UnexpectedToken, "a dictionary entry cannot be a named function")),
                    Some(mut es) => {
                        let mut acc = acc;
                        let ghost av = acc@;
                        let ghost ev = es@;
                        acc.append(&mut es);
                        proof {
                            crate::ast::lemma_exprs_view(av);
                            crate::ast::lemma_exprs_view(ev);
                            crate::ast::lemma_exprs_view(acc@);
                            assert(acc@ =~= av + ev);
                            assert(exprs_view(acc@) =~= exprs_view(av) + exprs_view(ev));
                        }
                        dict_at(toks, k + 1, acc)
                    },
                },
            }
        },
        _ => match expression_at(toks, k) {
            Err(e) => Err(e),
            Ok((e, j)) => {
                let mut acc = acc;
                proof {
                    lemma_exprs_push(acc@, e);
                }
                acc.push(e);
                dict_at(toks, j, acc)
            },
        },
    }
}

/// The index of the first token at or after `i` that does not end a line.
pub open spec fn skip_eols(toks: Seq<TokenV>, i: int) -> int
    decreases toks.len() - i,
{
    if is_eol(toks, i) {
        skip_eols(toks, i + 1)
    } else {
        i
    }
}

/// A parser over a token cursor.
pub struct Parser {
    pub traveler: Traveler,
}

impl Parser {
    pub fn new(traveler: Traveler) -> (r: Parser)
        ensures
            r.traveler == traveler,
    {
        Parser { traveler }
    }

    /// Parses every statement from the cursor to the end of the tokens.
    pub fn parse(&mut self) -> (r: Result<Vec<Statement>, ParserError>)
        ensures
            agrees_stmts(r, p_parse_from(tokens_view(old(self).traveler.tokens@), old(self).traveler.index as int, Seq::empty())),
            err_within(r, old(self).traveler.tokens@),
            final(self).traveler.tokens@ == old(self).traveler.tokens@,
            r is Ok ==> final(self).traveler.index == final(self).traveler.tokens.len(),
    {
        let acc: Vec<Statement> = Vec::new();
        assert(stmts_view(acc@) == Seq::<StmtV>::empty());
        let r = parse_from(&self.traveler.tokens, self.traveler.index, acc);
        if r.is_ok() {
            self.traveler.index = self.traveler.tokens.len();
        }
        r
    }

    /// Moves the cursor past any line ends.
    pub fn skip_whitespace(&mut self) -> (r: Result<(), ParserError>)
        requires
            old(self).traveler.wf(),
        ensures
            r is Ok,
            final(self).traveler.tokens@ == old(self).traveler.tokens@,
            final(self).traveler.index == skip_eols(tokens_view(old(self).traveler.tokens@), old(self).traveler.index as int),
            final(self).traveler.wf(),
    {
        while eol_at(&self.traveler.tokens, self.traveler.index)
            invariant
                self.traveler.tokens@ == old(self).traveler.tokens@,
                self.traveler.index <= self.traveler.tokens.len(),
                skip_eols(tokens_view(self.traveler.tokens@), self.traveler.index as int) == skip_eols(
                    tokens_view(old(self).traveler.tokens@),
                    old(self).traveler.index as int,
                ),
            decreases self.traveler.tokens.len() - self.traveler.index,
        {
            proof {
                lemma_tokens_view(self.traveler.tokens@);
            }
            self.traveler.index = self.traveler.index + 1;
        }
        Ok(())
    }

    /// Parses the next statement after any line ends, or gives `None` at
    /// the end of the tokens.
    pub fn statement(&mut self) -> (r: Result<Option<Statement>, ParserError>)
        requires
            old(self).traveler.wf(),
        ensures
            final(self).traveler.tokens@ == old(self).traveler.tokens@,
            final(self).traveler.wf(),
            err_within(r, old(self).traveler.tokens@),
            ({
                let toks = tokens_view(old(self).traveler.tokens@);
                let k = skip_eols(toks, old(self).traveler.index as int);
                if k >= toks.len() {
                    r matches Ok(None)
                } else {
                    match p_statement(toks, k) {
                        Ok((st, j)) => r matches Ok(Some(x)) && x@ == st && final(self).traveler.index == j,
                        Err(e) => r matches Err(x) && agrees_err(x, e),
                    }
                }
            }),
    {
        let _ = self.skip_whitespace();
        proof {
            lemma_tokens_view(self.traveler.tokens@);
        }
        if self.traveler.index >= self.traveler.tokens.len() {
            return Ok(None);
        }
        match statement_at(&self.traveler.tokens, self.traveler.index) {
            Err(e) => Err(e),
            Ok((s, j)) => {
                self.traveler.index = j;
                Ok(Some(s))
            },
        }
    }

    /// Parses a term at the cursor.
    pub fn term(&mut self) -> (r: Result<Expression, ParserError>)
        requires
            old(self).traveler.wf(),
        ensures
            final(self).traveler.tokens@ == old(self).traveler.tokens@,
            final(self).traveler.wf(),
            err_within(r, old(self).traveler.tokens@),
            match p_term(tokens_view(old(self).traveler.tokens@), old(self).traveler.index as int) {
                Ok((e, j)) => r matches Ok(x) && x@ == e && final(self).traveler.index == j,
                Err(e) => r matches Err(x) && agrees_err(x, e),
            },
    {
        match term_at(&self.traveler.tokens, self.traveler.index) {
            Err(e) => Err(e),
            Ok((e, j)) => {
                self.traveler.index = j;
                Ok(e)
            },
        }
    }

    /// Parses an expression, operators included, at the cursor.
    pub fn expression(&mut self) -> (r: Result<Expression, ParserError>)
        requires
            old(self).traveler.wf(),
        ensures
            final(self).traveler.tokens@ == old(self).traveler.tokens@,
            final(self).traveler.wf(),
            err_within(r, old(self).traveler.tokens@),
            match p_expression(tokens_view(old(self).traveler.tokens@), old(self).traveler.index as int) {
                Ok((e, j)) => r matches Ok(x) && x@ == e && final(self).traveler.index == j,
                Err(e) => r matches Err(x) && agrees_err(x, e),
            },
    {
        match expression_at(&self.traveler.tokens, self.traveler.index) {
            Err(e) => Err(e),
            Ok((e, j)) => {
                self.traveler.index = j;
                Ok(e)
            },
        }
    }

    /// Reads a type at the cursor if one stands there.
    pub fn types(&mut self) -> (r: Result<Option<Type>, ParserError>)
        requires
            old(self).traveler.wf(),
        ensures
            final(self).traveler.tokens@ == old(self).traveler.tokens@,
            final(self).traveler.wf(),
            err_within(r, old(self).traveler.tokens@),
            ({
                let toks = tokens_view(old(self).traveler.tokens@);
                let i = old(self).traveler.index as int;
                if !is_type_tok(toks, i) {
                    r matches Ok(None) && final(self).traveler.index == i
                } else {
                    match p_types(toks, i) {
                        Ok((t, j)) => r matches Ok(Some(x)) && x@ == t && final(self).traveler.index == j,
                        Err(e) => r matches Err(x) && agrees_err(x, e),
                    }
                }
            }),
    {
        let i = self.traveler.index;
        if type_at(&self.traveler.tokens, i) {
            match types_at(&self.traveler.tokens, i) {
                Err(e) => Err(e),
                Ok((t, j)) => {
                    self.traveler.index = j;
                    Ok(Some(t))
                },
            }
        } else {
            Ok(None)
        }
    }
}

/// Parses the children of a root `Block` token, as [`lex`] gives it.
pub fn parse(root: &Token) -> (r: Result<Vec<Statement>, ParserError>)
    ensures
        root.token_type is Block ==> agrees_stmts(r, p_parse_from(tokens_view(root.token_type->Block_0@), 0, Seq::empty())),
        root.token_type is Block ==> err_within(r, root.token_type->Block_0@),
        !(root.token_type is Block) ==> (r matches Err(e) && e.kind == ErrorKind::ExpectedKind),
{
    match &root.token_type {
        TokenType::Block(c) => parse_tokens(c),
        _ => Err(ParserError::new_pos(ErrorKind::ExpectedKind, root.position, "expected a block of tokens")),
    }
}

/// What lexing and then parsing `src` gives: the statements, or the kind
/// and position of the first error.
pub open spec fn parse_source_spec(src: Seq<char>, tab: u32) -> Result<Seq<StmtV>, (ErrorKind, Option<Position>)> {
    match lex_spec(src, tab) {
        Err(e) => Err(e),
        Ok(toks) => p_parse_from(toks, 0, Seq::empty()),
    }
}

/// Lexing and parsing are a function of the source text: two results that
/// both meet the contract of [`parse_source`] on the same text are the
/// same tree, or the same error kind at the same position.
pub proof fn lemma_parse_source_deterministic(
    src: Seq<char>,
    tab: u32,
    r1: Result<Vec<Statement>, ParserError>,
    r2: Result<Vec<Statement>, ParserError>,
)
    requires
        agrees_stmts(r1, parse_source_spec(src, tab)),
        agrees_stmts(r2, parse_source_spec(src, tab)),
    ensures
        r1 is Ok <==> r2 is Ok,
        r1 is Ok ==> stmts_view(r1->Ok_0@) == stmts_view(r2->Ok_0@),
        r1 is Err ==> r1->Err_0.kind == r2->Err_0.kind && r1->Err_0.position == r2->Err_0.position,
{
}

/// A position that an error of parsing carries lies in the source that was
/// lexed: on its line, within that line's length.
pub proof fn lemma_parse_error_in_source(src: Seq<char>, toks: Seq<Token>, p: Option<Position>)
    requires
        tokens_in(toks, lines_of(src)),
        pos_within(p, toks),
    ensures
        p matches Some(q) ==> pos_in(q, lines_of(src)),
{
}

/// Lexes and parses source text. Every error that carries a position,
/// from either phase, points at a character of the source.
pub fn parse_source(source: &str, tab_width: u32) -> (r: Result<Vec<Statement>, ParserError>)
    ensures
        agrees_stmts(r, parse_source_spec(source@, tab_width)),
        r matches Err(e) ==> (e.position matches Some(p) ==> pos_in(p, lines_of(source@))),
{
    match lex(source, tab_width) {
        Err(e) => Err(e),
        Ok(root) => {
            let r = parse(&root);
            proof {
                if r is Err {
                    lemma_parse_error_in_source(source@, root.token_type->Block_0@, r->Err_0.position);
                }
            }
            r
        },
    }
}

} // verus!
