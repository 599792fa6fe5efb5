//! Operator precedence climbing over a first operand and a list of
//! (operator, operand) pairs.
use vstd::prelude::*;

use crate::ast::{exprs_view, lemma_exprs_push, lemma_exprs_view, level, ExprV, Expression, Operand};

verus! {

/// The node `l op r`.
pub open spec fn binop(l: ExprV, op: Operand, r: ExprV) -> ExprV {
    ExprV::Operation { left: Box::new(l), op, right: Box::new(r) }
}

/// The models of a list of (operator, operand) pairs.
pub open spec fn pairs_view(s: Seq<(Operand, Expression)>) -> Seq<(Operand, ExprV)> {
    Seq::new(s.len() as nat, |i: int| (s[i].0, s[i].1@))
}

/// Reduces the top of the two stacks while the top operator's level is at
/// most `lvl`.
pub open spec fn reduce_while(exprs: Seq<ExprV>, ops: Seq<Operand>, lvl: int) -> (Seq<ExprV>, Seq<Operand>)
    decreases ops.len(),
{
    if ops.len() > 0 && exprs.len() >= 2 && level(ops.last()) as int <= lvl {
        let n = exprs.len();
        let e = binop(exprs[n - 2], ops.last(), exprs[n - 1]);
        reduce_while(exprs.subrange(0, n - 2).push(e), ops.subrange(0, ops.len() - 1), lvl)
    } else {
        (exprs, ops)
    }
}

/// Feeds the remaining pairs to the stacks: each incoming operator first
/// reduces every stacked operator that binds at least as tightly, then is
/// pushed with its operand; at the end everything is reduced.
pub open spec fn climb_from(exprs: Seq<ExprV>, ops: Seq<Operand>, rest: Seq<(Operand, ExprV)>) -> ExprV
    decreases rest.len(),
{
    if rest.len() == 0 {
        reduce_while(exprs, ops, 255).0[0]
    } else {
        let s = reduce_while(exprs, ops, level(rest[0].0) as int);
        climb_from(s.0.push(rest[0].1), s.1.push(rest[0].0), rest.subrange(1, rest.len() as int))
    }
}

/// The tree that precedence climbing builds from `first op1 e1 op2 e2 ...`.
pub open spec fn climb_spec(first: ExprV, rest: Seq<(Operand, ExprV)>) -> ExprV {
    climb_from(seq![first], Seq::empty(), rest)
}

/// Reduces the stacks in place while the top operator's level is at most `lvl`.
fn reduce_stacks(exprs: &mut Vec<Expression>, ops: &mut Vec<Operand>, lvl: u8)
    requires
        old(exprs).len() == old(ops).len() + 1,
    ensures
        (exprs_view(final(exprs)@), final(ops)@) == reduce_while(exprs_view(old(exprs)@), old(ops)@, lvl as int),
        final(exprs).len() == final(ops).len() + 1,
        lvl >= 4 ==> final(ops).len() == 0,
{
    proof {
        lemma_exprs_view(exprs@);
    }
    while ops.len() > 0 && level_of(ops[ops.len() - 1]) <= lvl
        invariant
            exprs.len() == ops.len() + 1,
            reduce_while(exprs_view(exprs@), ops@, lvl as int) == reduce_while(exprs_view(old(exprs)@), old(ops)@, lvl as int),
        decreases ops.len(),
    {
        let ghost e0 = exprs@;
        let ghost o0 = ops@;
        proof {
            lemma_exprs_view(e0);
        }
        let op = ops.pop().unwrap();
        let r = exprs.pop().unwrap();
        let l = exprs.pop().unwrap();
        let ghost base = exprs@;
        let node = Expression::Operation { left: Box::new(l), op, right: Box::new(r) };
        exprs.push(node);
        proof {
            let n = e0.len();
            let ev = exprs_view(e0);
            lemma_exprs_view(base);
            assert(base =~= e0.subrange(0, n - 2));
            assert(exprs_view(base) =~= ev.subrange(0, n - 2));
            lemma_exprs_push(base, node);
            assert(node@ == binop(ev[n - 2], o0.last(), ev[n - 1]));
            assert(ops@ =~= o0.subrange(0, o0.len() - 1));
        }
    }
}

/// The precedence level of an operator.
pub fn level_of(op: Operand) -> (r: u8)
    ensures
        r == level(op),
{
    match op {
        Operand::Pow => 0,
        Operand::Mul | Operand::Div | Operand::Mod => 1,
        Operand::Add | Operand::Sub => 2,
        Operand::Equal | Operand::NEqual => 3,
        _ => 4,
    }
}

/// Precedence of two operators in `a op1 b op2 c`: when `op2` binds
/// strictly tighter than `op1` (a lower level), the tree is
/// `a op1 (b op2 c)`; otherwise it is `(a op1 b) op2 c`, so operators of one
/// level group to the left.
pub proof fn lemma_precedence(a: ExprV, op1: Operand, b: ExprV, op2: Operand, c: ExprV)
    ensures
        climb_spec(a, seq![(op1, b), (op2, c)]) == if level(op2) < level(op1) {
            binop(a, op1, binop(b, op2, c))
        } else {
            binop(binop(a, op1, b), op2, c)
        },
{
    let rest = seq![(op1, b), (op2, c)];
    let s1 = reduce_while(seq![a], Seq::empty(), level(op1) as int);
    assert(s1 == (seq![a], Seq::<Operand>::empty()));
    let r1 = rest.subrange(1, 2);
    assert(r1 =~= seq![(op2, c)]);
    let e1 = seq![a].push(b);
    let o1 = Seq::<Operand>::empty().push(op1);
    assert(climb_spec(a, rest) == climb_from(e1, o1, r1));
    let s2 = reduce_while(e1, o1, level(op2) as int);
    let r2 = r1.subrange(1, 1);
    assert(r2 =~= Seq::<(Operand, ExprV)>::empty());
    if level(op2) < level(op1) {
        assert(s2 == (e1, o1));
        let e2 = e1.push(c);
        let o2 = o1.push(op2);
        assert(climb_from(e1, o1, r1) == climb_from(e2, o2, r2));
        let t1 = reduce_while(e2, o2, 255);
        let f1 = e2.subrange(0, 1).push(binop(b, op2, c));
        let g1 = o2.subrange(0, 1);
        assert(t1 == reduce_while(f1, g1, 255));
        let f2 = f1.subrange(0, 0).push(binop(a, op1, binop(b, op2, c)));
        assert(reduce_while(f1, g1, 255) == reduce_while(f2, g1.subrange(0, 0), 255));
        assert(f2[0] == binop(a, op1, binop(b, op2, c)));
    } else {
        let f = Seq::<ExprV>::empty().push(binop(a, op1, b));
        assert(e1[0] == a && e1[1] == b && o1.last() == op1);
        assert(e1.subrange(0, 0).push(binop(a, op1, b)) =~= f);
        assert(o1.subrange(0, 0) =~= Seq::<Operand>::empty());
        assert(s2 == reduce_while(f, Seq::<Operand>::empty(), level(op2) as int));
        assert(s2 == (f, Seq::<Operand>::empty()));
        let e2 = f.push(c);
        let o2 = Seq::<Operand>::empty().push(op2);
        assert(climb_from(e1, o1, r1) == climb_from(e2, o2, r2));
        let t1 = reduce_while(e2, o2, 255);
        let f1 = e2.subrange(0, 0).push(binop(binop(a, op1, b), op2, c));
        assert(e2[0] == binop(a, op1, b) && e2[1] == c && o2.last() == op2);
        assert(o2.subrange(0, 0) =~= Seq::<Operand>::empty());
        assert(t1 == reduce_while(f1, Seq::<Operand>::empty(), 255));
        assert(f1[0] == binop(binop(a, op1, b), op2, c));
    }
}

/// Builds the operation tree for `first op1 e1 op2 e2 ...` by precedence
/// climbing: lower levels bind tighter, equal levels group to the left.
pub fn climb(first: Expression, rest: Vec<(Operand, Expression)>) -> (r: Expression)
    ensures
        r@ == climb_spec(first@, pairs_view(rest@)),
{
    let mut exprs: Vec<Expression> = Vec::new();
    let ghost fv = first@;
    exprs.push(first);
    let mut ops: Vec<Operand> = Vec::new();
    let mut rest = rest;
    let ghost all = pairs_view(rest@);
    proof {
        lemma_exprs_push(Seq::empty(), exprs@[0]);
        assert(Seq::<Expression>::empty().push(exprs@[0]) =~= exprs@);
        assert(exprs_view(exprs@) =~= seq![fv]);
    }
    while rest.len() > 0
        invariant
            exprs.len() == ops.len() + 1,
            climb_from(exprs_view(exprs@), ops@, pairs_view(rest@)) == climb_spec(fv, all),
        decreases rest.len(),
    {
        let ghost pre = rest@;
        let (op, e) = rest.remove(0);
        reduce_stacks(&mut exprs, &mut ops, level_of(op));
        let ghost before = exprs@;
        proof {
            lemma_exprs_push(before, e);
        }
        exprs.push(e);
        ops.push(op);
        assert(pairs_view(rest@) =~= pairs_view(pre).subrange(1, pre.len() as int));
    }
    reduce_stacks(&mut exprs, &mut ops, 255);
    proof {
        lemma_exprs_view(exprs@);
    }
    exprs.pop().unwrap()
}

} // verus!
