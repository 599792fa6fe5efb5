//! The semantic visitor: type inference, and checking that threads the
//! symbol and type environments through a program.
use vstd::prelude::*;

use crate::ast::{compatible, operate_type, strings_view, types_view, Expression, Statement, Type, TypeV};
use crate::env::{bind, env_wf, frame_find, lemma_frame_find, lemma_lookup_found, lookup, type_of, SymTab, TypeTab};
use crate::error::{ErrorKind, ParserError};

verus! {

/// The `Fun` type of a function with return type `t` and parameter types
/// `params`.
pub open spec fn fun_sig(t: Option<Type>, params: Seq<Type>) -> TypeV {
    TypeV::Fun(seq![
        match t {
            Some(x) => x@,
            None => TypeV::Any,
        },
    ] + types_view(params))
}

/// The inferred type of an expression, or the kind of error inference
/// meets. Inference reads the environments and never changes them.
pub open spec fn infer(e: Expression, fs: Seq<Seq<Seq<char>>>, ts: Seq<Seq<TypeV>>) -> Result<TypeV, ErrorKind>
    decreases e,
{
    match e {
        Expression::NumberLiteral(_) => Ok(TypeV::Num),
        Expression::StringLiteral(_) => Ok(TypeV::Str),
        Expression::BoolLiteral(_) => Ok(TypeV::Bool),
        Expression::Identifier(n) => match type_of(fs, ts, n@) {
            Some(t) => Ok(t),
            None => Err(ErrorKind::UnknownIdentifier),
        },
        Expression::Index(a, _) => match infer(*a, fs, ts) {
            Ok(TypeV::Array(x)) => Ok(*x),
            Ok(_) => Err(ErrorKind::NotIndexable),
            Err(k) => Err(k),
        },
        Expression::Definition(t, _, v) => match t {
            Some(x) => Ok(x@),
            None => match v {
                Some(b) => infer(*b, fs, ts),
                None => Ok(TypeV::Any),
            },
        },
        Expression::DictLiteral(items) => if items.len() == 0 {
            Ok(TypeV::Array(Box::new(TypeV::Nil)))
        } else {
            match infer(items@[0], fs, ts) {
                Ok(x) => Ok(TypeV::Array(Box::new(x))),
                Err(k) => Err(k),
            }
        },
        Expression::Fun { param_types, t, .. } => Ok(fun_sig(t, param_types@)),
        Expression::Call(c, _) => match infer(*c, fs, ts) {
            Ok(TypeV::Fun(sig)) => if sig.len() > 0 {
                Ok(sig[0])
            } else {
                Err(ErrorKind::CallNonFun)
            },
            Ok(TypeV::Any) => Ok(TypeV::Any),
            Ok(_) => Err(ErrorKind::CallNonFun),
            Err(k) => Err(k),
        },
        Expression::Operation { left, op, right } => match infer(*left, fs, ts) {
            Err(k) => Err(k),
            Ok(l) => match infer(*right, fs, ts) {
                Err(k) => Err(k),
                Ok(r) => match operate_type(op, l, r) {
                    Some(x) => Ok(x),
                    None => Err(ErrorKind::OperatorTypeError),
                },
            },
        },
        _ => Ok(TypeV::Undefined),
    }
}

/// The inferred type of a statement.
pub open spec fn infer_stmt(s: Statement, fs: Seq<Seq<Seq<char>>>, ts: Seq<Seq<TypeV>>) -> Result<TypeV, ErrorKind> {
    match s {
        Statement::Expression(e) => infer(e, fs, ts),
        Statement::Fun { param_types, t, .. } => Ok(fun_sig(t, param_types@)),
    }
}

/// The inferred types of a list of expressions, or the first error.
pub open spec fn infer_all(args: Seq<Expression>, fs: Seq<Seq<Seq<char>>>, ts: Seq<Seq<TypeV>>) -> Result<Seq<TypeV>, ErrorKind>
    decreases args.len(),
{
    if args.len() == 0 {
        Ok(Seq::empty())
    } else {
        match infer_all(args.subrange(0, args.len() - 1), fs, ts) {
            Err(k) => Err(k),
            Ok(v) => match infer(args.last(), fs, ts) {
                Ok(t) => Ok(v.push(t)),
                Err(k) => Err(k),
            },
        }
    }
}

/// Whether argument types `a` fit the signature `sig` (return type first).
/// With a variadic `Many(T)` last parameter, the fixed parameters must be
/// matched exactly and each further argument must be compatible with `T`;
/// otherwise the counts and the types must match exactly.
pub open spec fn args_fit(sig: Seq<TypeV>, a: Seq<TypeV>) -> bool {
    let n = sig.len() - 1;
    if n >= 1 && sig.last() is Many {
        &&& a.len() >= n - 1
        &&& forall|i: int| 0 <= i < n - 1 ==> #[trigger] a[i] == sig[i + 1]
        &&& forall|i: int| n - 1 <= i < a.len() ==> compatible(#[trigger] a[i], *sig.last()->Many_0)
    } else {
        &&& a.len() == n
        &&& forall|i: int| 0 <= i < n ==> #[trigger] a[i] == sig[i + 1]
    }
}

/// The return type that a function body is held to: a declared one other
/// than `Any`.
pub open spec fn ret_of(t: Option<Type>) -> Option<TypeV> {
    match t {
        Some(x) => if x@ == TypeV::Any {
            None
        } else {
            Some(x@)
        },
        None => None,
    }
}

/// Checks a function body in a child frame holding its parameters; the
/// outer frames come back unchanged.
pub open spec fn visit_fun(
    names: Seq<String>,
    types: Seq<Type>,
    t: Option<Type>,
    body: Seq<Statement>,
    fs: Seq<Seq<Seq<char>>>,
    ts: Seq<Seq<TypeV>>,
) -> Result<(Seq<Seq<Seq<char>>>, Seq<Seq<TypeV>>), ErrorKind>
    decreases body, 1int,
{
    if names.len() != types.len() {
        Err(ErrorKind::ArityMismatch)
    } else {
        match visit_body(body, ret_of(t), fs.push(strings_view(names)), ts.push(types_view(types))) {
            Err(k) => Err(k),
            Ok(_) => Ok((fs, ts)),
        }
    }
}

/// Checks statements in order, threading the environments; where `ret` is
/// given, each statement's type must equal it.
pub open spec fn visit_body(body: Seq<Statement>, ret: Option<TypeV>, fs: Seq<Seq<Seq<char>>>, ts: Seq<Seq<TypeV>>) -> Result<(Seq<Seq<Seq<char>>>, Seq<Seq<TypeV>>), ErrorKind>
    decreases body, 0int,
{
    if body.len() == 0 {
        Ok((fs, ts))
    } else {
        match visit_stmt(body[0], fs, ts) {
            Err(k) => Err(k),
            Ok((f1, t1)) => {
                let rest = body.subrange(1, body.len() as int);
                match ret {
                    Some(r) => match infer_stmt(body[0], f1, t1) {
                        Err(k) => Err(k),
                        Ok(x) => if x == r {
                            visit_body(rest, ret, f1, t1)
                        } else {
                            Err(ErrorKind::ReturnTypeMismatch)
                        },
                    },
                    None => visit_body(rest, ret, f1, t1),
                }
            },
        }
    }
}

/// Checks dictionary entries in the dictionary's own frame: each entry's
/// type must be compatible with `tp`, the type of the first entry, and
/// each entry is then checked.
pub open spec fn visit_items(
    items: Seq<Expression>,
    tp: TypeV,
    lfs: Seq<Seq<Seq<char>>>,
    lts: Seq<Seq<TypeV>>,
) -> Result<(Seq<Seq<Seq<char>>>, Seq<Seq<TypeV>>), ErrorKind>
    decreases items, 0int,
{
    if items.len() == 0 {
        Ok((lfs, lts))
    } else {
        match infer(items[0], lfs, lts) {
            Err(k) => Err(k),
            Ok(x) => if !compatible(tp, x) {
                Err(ErrorKind::TypeMismatch)
            } else {
                match visit_expr(items[0], lfs, lts) {
                    Err(k) => Err(k),
                    Ok((a, b)) => visit_items(items.subrange(1, items.len() as int), tp, a, b),
                }
            },
        }
    }
}

/// The type a definition records: the declared one, which must be
/// compatible with the value's; else the value's; else `Any`.
pub open spec fn defined_type(t: Option<Type>, rhs: Option<TypeV>) -> Result<TypeV, ErrorKind> {
    match t {
        Some(x) => match rhs {
            Some(r) => if compatible(x@, r) {
                Ok(x@)
            } else {
                Err(ErrorKind::TypeMismatch)
            },
            None => Ok(x@),
        },
        None => match rhs {
            Some(r) => Ok(r),
            None => Ok(TypeV::Any),
        },
    }
}

/// Records a definition of `target` with type `ft`: a name is bound in the
/// innermost frame (its type may not change to an incompatible one); a
/// member is dynamic and only its object is checked.
pub open spec fn define(target: Expression, ft: TypeV, fs: Seq<Seq<Seq<char>>>, ts: Seq<Seq<TypeV>>) -> Result<(Seq<Seq<Seq<char>>>, Seq<Seq<TypeV>>), ErrorKind>
    decreases target, 1int,
{
    match target {
        Expression::Identifier(n) => match type_of(fs, ts, n@) {
            Some(ex) => if compatible(ex, ft) {
                Ok(bind(fs, ts, n@, ft))
            } else {
                Err(ErrorKind::TypeMutation)
            },
            None => Ok(bind(fs, ts, n@, ft)),
        },
        Expression::Index(a, _) => visit_expr(*a, fs, ts),
        _ => Err(ErrorKind::IllegalAssignmentTarget),
    }
}

/// What checking an expression does to the environments, or the kind of
/// error it meets.
pub open spec fn visit_expr(e: Expression, fs: Seq<Seq<Seq<char>>>, ts: Seq<Seq<TypeV>>) -> Result<(Seq<Seq<Seq<char>>>, Seq<Seq<TypeV>>), ErrorKind>
    decreases e, 2int,
{
    match e {
        Expression::Identifier(n) => if lookup(fs, n@) is Some {
            Ok((fs, ts))
        } else {
            Err(ErrorKind::UnknownIdentifier)
        },
        Expression::Index(a, _) => visit_expr(*a, fs, ts),
        Expression::DictLiteral(items) => {
            let first = if items.len() == 0 {
                Ok(TypeV::Any)
            } else {
                infer(items@[0], fs, ts)
            };
            match first {
                Err(k) => Err(k),
                Ok(tp) => match visit_items(items@, tp, fs.push(Seq::empty()), ts.push(Seq::empty())) {
                    Err(k) => Err(k),
                    Ok(_) => Ok((fs, ts)),
                },
            }
        },
        Expression::Definition(t, target, v) => match v {
            Some(b) => match visit_expr(*b, fs, ts) {
                Err(k) => Err(k),
                Ok((f1, t1)) => match infer(*b, f1, t1) {
                    Err(k) => Err(k),
                    Ok(rhs) => match defined_type(t, Some(rhs)) {
                        Err(k) => Err(k),
                        Ok(ft) => define(*target, ft, f1, t1),
                    },
                },
            },
            None => match defined_type(t, None) {
                Err(k) => Err(k),
                Ok(ft) => define(*target, ft, fs, ts),
            },
        },
        Expression::Fun { param_names, param_types, t, body } => visit_fun(param_names@, param_types@, t, body@, fs, ts),
        Expression::Call(c, args) => match infer(*c, fs, ts) {
            Err(k) => Err(k),
            Ok(TypeV::Fun(sig)) => match infer_all(args@, fs, ts) {
                Err(k) => Err(k),
                Ok(a) => if sig.len() > 0 && args_fit(sig, a) {
                    Ok((fs, ts))
                } else {
                    Err(ErrorKind::ArityMismatch)
                },
            },
            Ok(TypeV::Any) => Ok((fs, ts)),
            Ok(_) => Err(ErrorKind::CallNonFun),
        },
        Expression::Operation { left, right, .. } => match visit_expr(*left, fs, ts) {
            Err(k) => Err(k),
            Ok((f1, t1)) => match visit_expr(*right, f1, t1) {
                Err(k) => Err(k),
                Ok((f2, t2)) => match infer(e, f2, t2) {
                    Err(k) => Err(k),
                    Ok(_) => Ok((f2, t2)),
                },
            },
        },
        Expression::Block(stmts) => visit_body(stmts@, None, fs, ts),
        _ => Ok((fs, ts)),
    }
}

/// What checking a statement does to the environments. A named function
/// is bound in the innermost frame before its body is checked, so that it
/// can call itself.
pub open spec fn visit_stmt(s: Statement, fs: Seq<Seq<Seq<char>>>, ts: Seq<Seq<TypeV>>) -> Result<(Seq<Seq<Seq<char>>>, Seq<Seq<TypeV>>), ErrorKind>
    decreases s, 2int,
{
    match s {
        Statement::Expression(e) => visit_expr(e, fs, ts),
        Statement::Fun { name, param_names, param_types, t, body } => if frame_find(fs.last(), name@) is Some {
            Err(ErrorKind::Redeclared)
        } else {
            let (f1, t1) = bind(fs, ts, name@, fun_sig(t, param_types@));
            match visit_fun(param_names@, param_types@, t, body@, f1, t1) {
                Err(k) => Err(k),
                Ok(_) => Ok((f1, t1)),
            }
        },
    }
}

/// Whether an inference result is the given type, or an error of the
/// given kind.
pub open spec fn infer_agrees(r: Result<Type, ParserError>, want: Result<TypeV, ErrorKind>) -> bool {
    match want {
        Ok(t) => r matches Ok(x) && x@ == t,
        Err(k) => r matches Err(e) && e.kind == k,
    }
}

/// Whether a checking result and the environments it left are the given
/// ones, or an error of the given kind.
pub open spec fn visit_agrees(
    r: Result<(), ParserError>,
    want: Result<(Seq<Seq<Seq<char>>>, Seq<Seq<TypeV>>), ErrorKind>,
    fs: Seq<Seq<Seq<char>>>,
    ts: Seq<Seq<TypeV>>,
) -> bool {
    match want {
        Ok((f, t)) => r is Ok && fs == f && ts == t,
        Err(k) => r matches Err(e) && e.kind == k,
    }
}

/// Whether `b` has the frames of `a`, all but the innermost unchanged.
pub open spec fn frames_kept<T>(a: Seq<Seq<T>>, b: Seq<Seq<T>>) -> bool {
    &&& a.len() == b.len()
    &&& forall|f: int| 0 <= f < a.len() - 1 ==> #[trigger] b[f] == a[f]
}

proof fn lemma_frames_kept_trans<T>(a: Seq<Seq<T>>, b: Seq<Seq<T>>, c: Seq<Seq<T>>)
    requires
        frames_kept(a, b),
        frames_kept(b, c),
    ensures
        frames_kept(a, c),
{
    assert forall|f: int| 0 <= f < a.len() - 1 implies #[trigger] c[f] == a[f] by {
        assert(c[f] == b[f]);
    }
}

/// The type of a variable, found through both tables.
fn type_of_name(name: &String, sym: &SymTab, env: &TypeTab) -> (r: Option<Type>)
    requires
        env_wf(sym@, env@),
    ensures
        match type_of(sym@, env@, name@) {
            Some(t) => r matches Some(x) && x@ == t,
            None => r is None,
        },
{
    match sym.get_name(name) {
        None => None,
        Some((k, d)) => {
            proof {
                lemma_lookup_found(sym@, name@, sym@.len() as int);
                assert(sym@[sym@.len() - 1 - d].len() == env@[env@.len() - 1 - d].len());
            }
            match env.get_type(k, d) {
                Ok(t) => Some(t),
                Err(_) => None,
            }
        },
    }
}

/// The `Fun` type of a function with return type `t` and parameters `params`.
pub fn fun_type(t: &Option<Type>, params: &Vec<Type>) -> (r: Type)
    ensures
        r@ == fun_sig(*t, params@),
{
    let mut v: Vec<Type> = Vec::new();
    match t {
        Some(x) => v.push(x.copy()),
        None => v.push(Type::Any),
    }
    let ghost head = v@[0]@;
    let mut i: usize = 0;
    proof {
        crate::ast::lemma_types_view(v@);
    }
    while i < params.len()
        invariant
            i <= params.len(),
            v.len() == i + 1,
            v@[0]@ == head,
            forall|k: int| 0 <= k < i ==> #[trigger] v@[k + 1]@ == params@[k]@,
        decreases params.len() - i,
    {
        v.push(params[i].copy());
        i = i + 1;
    }
    proof {
        crate::ast::lemma_types_view(v@);
        crate::ast::lemma_types_view(params@);
        let want = seq![head] + types_view(params@);
        assert forall|k: int| 0 <= k < v.len() implies #[trigger] types_view(v@)[k] == want[k] by {
            if k > 0 {
                assert(v@[(k - 1) + 1]@ == params@[k - 1]@);
            }
        }
        assert(types_view(v@) =~= want);
    }
    Type::Fun(v)
}

impl Expression {
    /// The inferred type of this expression. Only reads the tables.
    pub fn get_type(&self, sym: &SymTab, env: &TypeTab) -> (r: Result<Type, ParserError>)
        requires
            env_wf(sym@, env@),
        ensures
            infer_agrees(r, infer(*self, sym@, env@)),
        decreases self,
    {
        match self {
            Expression::NumberLiteral(_) => Ok(Type::Num),
            Expression::StringLiteral(_) => Ok(Type::Str),
            Expression::BoolLiteral(_) => Ok(Type::Bool),
            Expression::Identifier(n) => match type_of_name(n, sym, env) {
                Some(t) => Ok(t),
                None => Err(ParserError::new(ErrorKind::UnknownIdentifier, "use of an undeclared name")),
            },
            Expression::Index(a, _) => match a.get_type(sym, env) {
                Err(e) => Err(e),
                Ok(t) => match t {
                    Type::Array(x) => {
                        assert(t@ == TypeV::Array(Box::new((*x)@)));
                        Ok(*x)
                    },
                    _ => {
                        assert(!(t@ is Array));
                        Err(ParserError::new(ErrorKind::NotIndexable, "only an array can be indexed"))
                    },
                },
            },
            Expression::Definition(t, _, v) => match t {
                Some(x) => Ok(x.copy()),
                None => match v {
                    Some(b) => b.get_type(sym, env),
                    None => Ok(Type::Any),
                },
            },
            Expression::DictLiteral(items) => {
                if items.len() == 0 {
                    let inner = Type::Nil;
                    assert(inner@ == TypeV::Nil);
                    let r = Type::Array(Box::new(inner));
                    assert(r@ == TypeV::Array(Box::new(TypeV::Nil)));
                    Ok(r)
                } else {
                    proof {
                        assert(decreases_to!(*self => *items));
                        assert(decreases_to!(*items => items@));
                        assert(decreases_to!(items@ => items@[0]));
                    }
                    match items[0].get_type(sym, env) {
                        Ok(x) => {
                            let r = Type::Array(Box::new(x));
                            assert(r@ == TypeV::Array(Box::new(x@)));
                            Ok(r)
                        },
                        Err(e) => Err(e),
                    }
                }
            },
            Expression::Fun { param_types, t, .. } => Ok(fun_type(t, param_types)),
            Expression::Call(c, _) => match c.get_type(sym, env) {
                Err(e) => Err(e),
                Ok(ct) => match ct {
                    Type::Fun(sig) => {
                        proof {
                            crate::ast::lemma_types_view(sig@);
                        }
                        assert(ct@ == TypeV::Fun(types_view(sig@)));
                        if sig.len() > 0 {
                            Ok(sig[0].copy())
                        } else {
                            Err(ParserError::new(ErrorKind::CallNonFun, "a function type without a result"))
                        }
                    },
                    Type::Any => Ok(Type::Any),
                    _ => {
                        assert(!(ct@ is Fun) && !(ct@ is Any));
                        Err(ParserError::new(ErrorKind::CallNonFun, "only a function can be called"))
                    },
                },
            },
            Expression::Operation { left, op, right } => match left.get_type(sym, env) {
                Err(e) => Err(e),
                Ok(l) => match right.get_type(sym, env) {
                    Err(e) => Err(e),
                    Ok(r) => op.operate((l, r)),
                },
            },
            _ => Ok(Type::Undefined),
        }
    }
}

impl Statement {
    /// The inferred type of this statement. Only reads the tables.
    pub fn get_type(&self, sym: &SymTab, env: &TypeTab) -> (r: Result<Type, ParserError>)
        requires
            env_wf(sym@, env@),
        ensures
            infer_agrees(r, infer_stmt(*self, sym@, env@)),
    {
        match self {
            Statement::Expression(e) => e.get_type(sym, env),
            Statement::Fun { param_types, t, .. } => Ok(fun_type(t, param_types)),
        }
    }
}

/// The inferred types of a list of expressions.
fn infer_args(args: &Vec<Expression>, sym: &SymTab, env: &TypeTab) -> (r: Result<Vec<Type>, ParserError>)
    requires
        env_wf(sym@, env@),
    ensures
        match infer_all(args@, sym@, env@) {
            Ok(v) => r matches Ok(x) && types_view(x@) == v,
            Err(k) => r matches Err(e) && e.kind == k,
        },
{
    let mut out: Vec<Type> = Vec::new();
    let mut i: usize = 0;
    assert(args@.subrange(0, 0) =~= Seq::<Expression>::empty());
    while i < args.len()
        invariant
            i <= args.len(),
            env_wf(sym@, env@),
            infer_all(args@.subrange(0, i as int), sym@, env@) == Ok::<Seq<TypeV>, ErrorKind>(types_view(out@)),
        decreases args.len() - i,
    {
        let ghost pre = out@;
        let ghost sub = args@.subrange(0, i + 1);
        assert(sub.subrange(0, i as int) =~= args@.subrange(0, i as int));
        assert(sub.last() == args@[i as int]);
        match args[i].get_type(sym, env) {
            Err(e) => {
                proof {
                    lemma_infer_all_prefix_err(args@, sym@, env@, i as int, e.kind);
                }
                return Err(e);
            },
            Ok(t) => {
                out.push(t);
                assert(out@.subrange(0, out.len() - 1) =~= pre);
            },
        }
        i = i + 1;
    }
    assert(args@.subrange(0, args.len() as int) =~= args@);
    Ok(out)
}

proof fn lemma_infer_all_prefix_err(args: Seq<Expression>, fs: Seq<Seq<Seq<char>>>, ts: Seq<Seq<TypeV>>, i: int, k: ErrorKind)
    requires
        0 <= i < args.len(),
        infer_all(args.subrange(0, i), fs, ts) is Ok,
        infer(args[i], fs, ts) == Err::<TypeV, ErrorKind>(k),
    ensures
        infer_all(args, fs, ts) == Err::<Seq<TypeV>, ErrorKind>(k),
    decreases args.len(),
{
    let sub = args.subrange(0, i + 1);
    assert(sub.subrange(0, i) =~= args.subrange(0, i));
    assert(infer_all(sub, fs, ts) == Err::<Seq<TypeV>, ErrorKind>(k));
    lemma_infer_all_err_extends(args, fs, ts, i + 1, k);
}

proof fn lemma_infer_all_err_extends(args: Seq<Expression>, fs: Seq<Seq<Seq<char>>>, ts: Seq<Seq<TypeV>>, m: int, k: ErrorKind)
    requires
        0 <= m <= args.len(),
        infer_all(args.subrange(0, m), fs, ts) == Err::<Seq<TypeV>, ErrorKind>(k),
    ensures
        infer_all(args, fs, ts) == Err::<Seq<TypeV>, ErrorKind>(k),
    decreases args.len() - m,
{
    if m < args.len() {
        let sub = args.subrange(0, m + 1);
        assert(sub.subrange(0, m) =~= args.subrange(0, m));
        lemma_infer_all_err_extends(args, fs, ts, m + 1, k);
    } else {
        assert(args.subrange(0, m) =~= args);
    }
}

/// Whether argument types fit a signature (see [`args_fit`]).
fn fits(sig: &Vec<Type>, a: &Vec<Type>) -> (r: bool)
    requires
        sig.len() > 0,
    ensures
        r == args_fit(types_view(sig@), types_view(a@)),
{
    proof {
        crate::ast::lemma_types_view(sig@);
        crate::ast::lemma_types_view(a@);
    }
    let ghost sv = types_view(sig@);
    let ghost av = types_view(a@);
    let n = sig.len() - 1;
    let variadic = n >= 1 && matches!(sig[n], Type::Many(_));
    if variadic {
        if a.len() < n - 1 {
            return false;
        }
        let mut i: usize = 0;
        while i < n - 1
            invariant
                n == sig.len() - 1,
                n >= 1,
                a.len() >= n - 1,
                i <= n - 1,
                sv == types_view(sig@),
                av == types_view(a@),
                sv.len() == sig.len(),
                av.len() == a.len(),
                forall|k: int| 0 <= k < sig.len() ==> #[trigger] sv[k] == sig@[k]@,
                forall|k: int| 0 <= k < a.len() ==> #[trigger] av[k] == a@[k]@,
                forall|k: int| 0 <= k < i ==> #[trigger] av[k] == sv[k + 1],
            decreases n - 1 - i,
        {
            if !a[i].equals(&sig[i + 1]) {
                assert(av[i as int] != sv[i + 1]);
                return false;
            }
            i = i + 1;
        }
        assert(sv.last() == sig@[n as int]@);
        let tail = match &sig[n] {
            Type::Many(t) => t,
            _ => {
                return false;
            },
        };
        assert(*sv.last()->Many_0 == (**tail)@);
        let mut j: usize = n - 1;
        while j < a.len()
            invariant
                n == sig.len() - 1,
                n >= 1,
                n - 1 <= j <= a.len(),
                av == types_view(a@),
                av.len() == a.len(),
                forall|k: int| 0 <= k < a.len() ==> #[trigger] av[k] == a@[k]@,
                forall|k: int| n - 1 <= k < j ==> compatible(#[trigger] av[k], (**tail)@),
                sv == types_view(sig@),
                sv.len() == sig.len(),
                sv.last() is Many,
                *sv.last()->Many_0 == (**tail)@,
                forall|k: int| 0 <= k < n - 1 ==> #[trigger] av[k] == sv[k + 1],
            decreases a.len() - j,
        {
            if !a[j].compare(tail) {
                assert(!compatible(av[j as int], *sv.last()->Many_0));
                return false;
            }
            j = j + 1;
        }
        true
    } else {
        assert(n >= 1 ==> sv.last() == sig@[n as int]@);
        if a.len() != n {
            return false;
        }
        let mut i: usize = 0;
        while i < n
            invariant
                n == sig.len() - 1,
                a.len() == n,
                i <= n,
                !(n >= 1 && sv.last() is Many),
                sv == types_view(sig@),
                av == types_view(a@),
                sv.len() == sig.len(),
                av.len() == a.len(),
                forall|k: int| 0 <= k < sig.len() ==> #[trigger] sv[k] == sig@[k]@,
                forall|k: int| 0 <= k < a.len() ==> #[trigger] av[k] == a@[k]@,
                forall|k: int| 0 <= k < i ==> #[trigger] av[k] == sv[k + 1],
            decreases n - i,
        {
            if !a[i].equals(&sig[i + 1]) {
                assert(av[i as int] != sv[i + 1]);
                return false;
            }
            i = i + 1;
        }
        true
    }
}

proof fn lemma_bind_wf(fs: Seq<Seq<Seq<char>>>, ts: Seq<Seq<TypeV>>, n: Seq<char>, t: TypeV)
    requires
        env_wf(fs, ts),
    ensures
        env_wf(bind(fs, ts, n, t).0, bind(fs, ts, n, t).1),
        frames_kept(fs, bind(fs, ts, n, t).0),
        frames_kept(ts, bind(fs, ts, n, t).1),
{
    lemma_frame_find(fs.last(), n);
    let (f1, t1) = bind(fs, ts, n, t);
    assert forall|f: int| 0 <= f < f1.len() implies #[trigger] f1[f].len() == t1[f].len() by {
        assert(fs[f].len() == ts[f].len());
    }
}

/// The type that a definition records (see [`defined_type`]).
fn defined_type_exec(t: &Option<Type>, rhs: Option<Type>) -> (r: Result<Type, ParserError>)
    ensures
        match defined_type(*t, crate::ast::opt_view(rhs)) {
            Ok(x) => r matches Ok(y) && y@ == x,
            Err(k) => r matches Err(e) && e.kind == k,
        },
{
    match t {
        Some(x) => match rhs {
            Some(rt) => {
                if x.compare(&rt) {
                    Ok(x.copy())
                } else {
                    Err(ParserError::new(ErrorKind::TypeMismatch, "the value does not have the declared type"))
                }
            },
            None => Ok(x.copy()),
        },
        None => match rhs {
            Some(rt) => Ok(rt),
            None => Ok(Type::Any),
        },
    }
}

/// Records a definition of `target` with type `ft` (see [`define`]).
fn define_exec(target: &Expression, ft: Type, sym: &mut SymTab, env: &mut TypeTab) -> (r: Result<(), ParserError>)
    requires
        env_wf(old(sym)@, old(env)@),
    ensures
        visit_agrees(r, define(*target, ft@, old(sym)@, old(env)@), final(sym)@, final(env)@),
        env_wf(final(sym)@, final(env)@),
        frames_kept(old(sym)@, final(sym)@),
        frames_kept(old(env)@, final(env)@),
    decreases target, 1int,
{
    match target {
        Expression::Identifier(n) => {
            match type_of_name(n, sym, env) {
                Some(ex) => {
                    if !ex.compare(&ft) {
                        return Err(ParserError::new(ErrorKind::TypeMutation, "a name cannot change to an incompatible type"));
                    }
                },
                None => {},
            }
            proof {
                lemma_bind_wf(sym@, env@, n@, ft@);
                lemma_frame_find(sym@.last(), n@);
                assert(sym@.last().len() == env@.last().len());
            }
            let slot = sym.add_name(n);
            env.set_type(slot, ft);
            Ok(())
        },
        Expression::Index(a, _) => a.visit(sym, env),
        _ => Err(ParserError::new(ErrorKind::IllegalAssignmentTarget, "only a name or a member can be defined")),
    }
}

/// Checks statements in order (see [`visit_body`]); `ret` is the declared
/// return type, if any.
fn visit_body_exec(body: &Vec<Statement>, ret: &Option<Type>, sym: &mut SymTab, env: &mut TypeTab) -> (r: Result<(), ParserError>)
    requires
        env_wf(old(sym)@, old(env)@),
    ensures
        visit_agrees(r, visit_body(body@, ret_of(*ret), old(sym)@, old(env)@), final(sym)@, final(env)@),
        env_wf(final(sym)@, final(env)@),
        frames_kept(old(sym)@, final(sym)@),
        frames_kept(old(env)@, final(env)@),
    decreases body@, 0int,
{
    let n = body.len();
    let mut i: usize = 0;
    assert(body@.subrange(0, n as int) =~= body@);
    while i < n
        invariant
            n == body.len(),
            i <= n,
            env_wf(sym@, env@),
            frames_kept(old(sym)@, sym@),
            frames_kept(old(env)@, env@),
            visit_body(body@, ret_of(*ret), old(sym)@, old(env)@) == visit_body(
                body@.subrange(i as int, n as int),
                ret_of(*ret),
                sym@,
                env@,
            ),
        decreases n - i,
    {
        let ghost rest = body@.subrange(i as int, n as int);
        assert(rest[0] == body@[i as int]);
        assert(rest.subrange(1, rest.len() as int) =~= body@.subrange(i + 1, n as int));
        proof {
            assert(decreases_to!(body@ => body@[i as int]));
        }
        let ghost f0 = sym@;
        let ghost t0 = env@;
        match body[i].visit(sym, env) {
            Err(e) => {
                proof {
                    lemma_frames_kept_trans(old(sym)@, f0, sym@);
                    lemma_frames_kept_trans(old(env)@, t0, env@);
                }
                return Err(e);
            },
            Ok(()) => {},
        }
        proof {
            lemma_frames_kept_trans(old(sym)@, f0, sym@);
            lemma_frames_kept_trans(old(env)@, t0, env@);
        }
        match ret {
            Some(rt) => {
                if !matches!(rt, Type::Any) {
                    match body[i].get_type(sym, env) {
                        Err(e) => {
                            return Err(e);
                        },
                        Ok(t) => {
                            if !t.equals(rt) {
                                return Err(ParserError::new(ErrorKind::ReturnTypeMismatch, "a statement does not have the declared return type"));
                            }
                        },
                    }
                }
            },
            None => {},
        }
        i = i + 1;
    }
    Ok(())
}

/// Checks a function body in a child frame (see [`visit_fun`]); the tables
/// come back as they were.
fn visit_fun_exec(
    names: &Vec<String>,
    types: &Vec<Type>,
    t: &Option<Type>,
    body: &Vec<Statement>,
    sym: &mut SymTab,
    env: &mut TypeTab,
) -> (r: Result<(), ParserError>)
    requires
        env_wf(old(sym)@, old(env)@),
    ensures
        visit_agrees(r, visit_fun(names@, types@, *t, body@, old(sym)@, old(env)@), final(sym)@, final(env)@),
        final(sym)@ == old(sym)@,
        final(env)@ == old(env)@,
    decreases body@, 1int,
{
    if names.len() != types.len() {
        return Err(ParserError::new(ErrorKind::ArityMismatch, "parameter names and types differ in number"));
    }
    sym.push_frame(names);
    env.push_frame(types);
    proof {
        crate::ast::lemma_types_view(types@);
        let fs = sym@;
        let ts = env@;
        assert(fs =~= old(sym)@.push(strings_view(names@)));
        assert forall|f: int| 0 <= f < fs.len() implies #[trigger] fs[f].len() == ts[f].len() by {
            if f < fs.len() - 1 {
                assert(fs[f] == old(sym)@[f]);
                assert(ts[f] == old(env)@[f]);
            }
        }
    }
    let ghost f1 = sym@;
    let ghost t1 = env@;
    let r = visit_body_exec(body, t, sym, env);
    proof {
        assert(sym@.len() == f1.len());
    }
    sym.pop_frame();
    env.pop_frame();
    proof {
        assert(sym@ =~= old(sym)@);
        assert(env@ =~= old(env)@);
    }
    match r {
        Err(e) => Err(e),
        Ok(()) => Ok(()),
    }
}

/// Checks dictionary entries in the dictionary's frame (see [`visit_items`]).
fn visit_items_exec(items: &Vec<Expression>, tp: &Type, sym: &mut SymTab, env: &mut TypeTab) -> (r: Result<(), ParserError>)
    requires
        env_wf(old(sym)@, old(env)@),
    ensures
        visit_agrees(r, visit_items(items@, tp@, old(sym)@, old(env)@), final(sym)@, final(env)@),
        env_wf(final(sym)@, final(env)@),
        frames_kept(old(sym)@, final(sym)@),
        frames_kept(old(env)@, final(env)@),
    decreases items@, 0int,
{
    let n = items.len();
    let mut i: usize = 0;
    assert(items@.subrange(0, n as int) =~= items@);
    while i < n
        invariant
            n == items.len(),
            i <= n,
            env_wf(sym@, env@),
            frames_kept(old(sym)@, sym@),
            frames_kept(old(env)@, env@),
            visit_items(items@, tp@, old(sym)@, old(env)@) == visit_items(items@.subrange(i as int, n as int), tp@, sym@, env@),
        decreases n - i,
    {
        let ghost rest = items@.subrange(i as int, n as int);
        assert(rest[0] == items@[i as int]);
        assert(rest.subrange(1, rest.len() as int) =~= items@.subrange(i + 1, n as int));
        proof {
            assert(decreases_to!(items@ => items@[i as int]));
        }
        match items[i].get_type(sym, env) {
            Err(e) => {
                return Err(e);
            },
            Ok(x) => {
                if !tp.compare(&x) {
                    return Err(ParserError::new(ErrorKind::TypeMismatch, "dictionary entries differ in type"));
                }
            },
        }
        let ghost f0 = sym@;
        let ghost t0 = env@;
        let v = items[i].visit(sym, env);
        proof {
            lemma_frames_kept_trans(old(sym)@, f0, sym@);
            lemma_frames_kept_trans(old(env)@, t0, env@);
        }
        match v {
            Err(e) => {
                return Err(e);
            },
            Ok(()) => {},
        }
        i = i + 1;
    }
    Ok(())
}

impl Expression {
    /// Checks this expression, recording definitions in the innermost
    /// frames of the tables.
    pub fn visit(&self, sym: &mut SymTab, env: &mut TypeTab) -> (r: Result<(), ParserError>)
        requires
            env_wf(old(sym)@, old(env)@),
        ensures
            visit_agrees(r, visit_expr(*self, old(sym)@, old(env)@), final(sym)@, final(env)@),
            env_wf(final(sym)@, final(env)@),
            frames_kept(old(sym)@, final(sym)@),
            frames_kept(old(env)@, final(env)@),
        decreases self, 2int,
    {
        match self {
            Expression::Identifier(n) => {
                if sym.get_name(n).is_some() {
                    Ok(())
                } else {
                    Err(ParserError::new(ErrorKind::UnknownIdentifier, "use of an undeclared name"))
                }
            },
            Expression::Index(a, _) => a.visit(sym, env),
            Expression::DictLiteral(items) => {
                let tp = if items.len() == 0 {
                    Type::Any
                } else {
                    match items[0].get_type(sym, env) {
                        Err(e) => {
                            return Err(e);
                        },
                        Ok(x) => x,
                    }
                };
                let no_names: Vec<String> = Vec::new();
                let no_types: Vec<Type> = Vec::new();
                sym.push_frame(&no_names);
                env.push_frame(&no_types);
                proof {
                    assert(types_view(no_types@) =~= Seq::<TypeV>::empty());
                    assert(Seq::new(no_names.len() as nat, |j: int| no_names@[j]@) =~= Seq::<Seq<char>>::empty());
                    assert(sym@ =~= old(sym)@.push(Seq::empty()));
                    assert(env@ =~= old(env)@.push(Seq::empty()));
                    assert forall|f: int| 0 <= f < sym@.len() implies #[trigger] sym@[f].len() == env@[f].len() by {
                        if f < sym@.len() - 1 {
                            assert(sym@[f] == old(sym)@[f]);
                            assert(env@[f] == old(env)@[f]);
                        }
                    }
                }
                let ghost f1 = sym@;
                let r = visit_items_exec(items, &tp, sym, env);
                proof {
                    assert(sym@.len() == f1.len());
                }
                sym.pop_frame();
                env.pop_frame();
                proof {
                    assert(sym@ =~= old(sym)@);
                    assert(env@ =~= old(env)@);
                }
                match r {
                    Err(e) => Err(e),
                    Ok(()) => Ok(()),
                }
            },
            Expression::Definition(t, target, v) => {
                let ft = match v {
                    Some(b) => {
                        let ghost f0 = sym@;
                        let ghost t0 = env@;
                        match b.visit(sym, env) {
                            Err(e) => {
                                return Err(e);
                            },
                            Ok(()) => {},
                        }
                        let rhs = match b.get_type(sym, env) {
                            Err(e) => {
                                return Err(e);
                            },
                            Ok(x) => x,
                        };
                        match defined_type_exec(t, Some(rhs)) {
                            Err(e) => {
                                return Err(e);
                            },
                            Ok(x) => x,
                        }
                    },
                    None => match defined_type_exec(t, None) {
                        Err(e) => {
                            return Err(e);
                        },
                        Ok(x) => x,
                    },
                };
                let ghost f1 = sym@;
                let ghost t1 = env@;
                let r = define_exec(target, ft, sym, env);
                proof {
                    lemma_frames_kept_trans(old(sym)@, f1, sym@);
                    lemma_frames_kept_trans(old(env)@, t1, env@);
                }
                r
            },
            Expression::Fun { param_names, param_types, t, body } => visit_fun_exec(param_names, param_types, t, body, sym, env),
            Expression::Call(c, args) => match c.get_type(sym, env) {
                Err(e) => Err(e),
                Ok(ct) => match ct {
                    Type::Fun(sig) => {
                        assert(ct@ == TypeV::Fun(types_view(sig@)));
                        proof {
                            crate::ast::lemma_types_view(sig@);
                        }
                        match infer_args(args, sym, env) {
                            Err(e) => Err(e),
                            Ok(at) => {
                                if sig.len() > 0 && fits(&sig, &at) {
                                    Ok(())
                                } else {
                                    Err(ParserError::new(ErrorKind::ArityMismatch, "the arguments do not fit the function"))
                                }
                            },
                        }
                    },
                    Type::Any => Ok(()),
                    _ => {
                        assert(!(ct@ is Fun) && !(ct@ is Any));
                        Err(ParserError::new(ErrorKind::CallNonFun, "only a function can be called"))
                    },
                },
            },
            Expression::Operation { left, right, .. } => {
                let ghost f0 = sym@;
                let ghost t0 = env@;
                match left.visit(sym, env) {
                    Err(e) => {
                        return Err(e);
                    },
                    Ok(()) => {},
                }
                let ghost f1 = sym@;
                let ghost t1 = env@;
                let r = right.visit(sym, env);
                proof {
                    lemma_frames_kept_trans(f0, f1, sym@);
                    lemma_frames_kept_trans(t0, t1, env@);
                }
                match r {
                    Err(e) => {
                        return Err(e);
                    },
                    Ok(()) => {},
                }
                match self.get_type(sym, env) {
                    Err(e) => Err(e),
                    Ok(_) => Ok(()),
                }
            },
            Expression::Block(stmts) => visit_body_exec(stmts, &None, sym, env),
            _ => Ok(()),
        }
    }
}

impl Statement {
    /// Checks this statement, recording definitions in the innermost frames
    /// of the tables.
    pub fn visit(&self, sym: &mut SymTab, env: &mut TypeTab) -> (r: Result<(), ParserError>)
        requires
            env_wf(old(sym)@, old(env)@),
        ensures
            visit_agrees(r, visit_stmt(*self, old(sym)@, old(env)@), final(sym)@, final(env)@),
            env_wf(final(sym)@, final(env)@),
            frames_kept(old(sym)@, final(sym)@),
            frames_kept(old(env)@, final(env)@),
        decreases self, 2int,
    {
        match self {
            Statement::Expression(e) => e.visit(sym, env),
            Statement::Fun { name, param_names, param_types, t, body } => {
                if sym.find_local(name).is_some() {
                    return Err(ParserError::new(ErrorKind::Redeclared, "a function of this name is already declared here"));
                }
                let ft = fun_type(t, param_types);
                proof {
                    lemma_bind_wf(sym@, env@, name@, ft@);
                    lemma_frame_find(sym@.last(), name@);
                    assert(sym@.last().len() == env@.last().len());
                }
                let slot = sym.add_name(name);
                env.set_type(slot, ft);
                let ghost f1 = sym@;
                let ghost t1 = env@;
                visit_fun_exec(param_names, param_types, t, body, sym, env)
            },
        }
    }
}

/// Checks a program: its statements in order, in the given tables.
pub fn check(program: &Vec<Statement>, sym: &mut SymTab, env: &mut TypeTab) -> (r: Result<(), ParserError>)
    requires
        env_wf(old(sym)@, old(env)@),
    ensures
        visit_agrees(r, visit_body(program@, None, old(sym)@, old(env)@), final(sym)@, final(env)@),
        env_wf(final(sym)@, final(env)@),
{
    visit_body_exec(program, &None, sym, env)
}

/// Every use of a name that the checker reaches is either bound in the
/// chain of frames, or the check fails with `UnknownIdentifier`; inference
/// of the name fails the same way.
pub proof fn lemma_identifier_use(n: String, fs: Seq<Seq<Seq<char>>>, ts: Seq<Seq<TypeV>>)
    ensures
        visit_expr(Expression::Identifier(n), fs, ts) is Ok <==> lookup(fs, n@) is Some,
        visit_expr(Expression::Identifier(n), fs, ts) is Err ==> visit_expr(Expression::Identifier(n), fs, ts)
            == Err::<(Seq<Seq<Seq<char>>>, Seq<Seq<TypeV>>), ErrorKind>(ErrorKind::UnknownIdentifier),
        infer(Expression::Identifier(n), fs, ts) is Ok <==> lookup(fs, n@) is Some,
        infer(Expression::Identifier(n), fs, ts) is Err ==> infer(Expression::Identifier(n), fs, ts)
            == Err::<TypeV, ErrorKind>(ErrorKind::UnknownIdentifier),
{
}

} // verus!
