//! A type checker without translation: it only decides whether a program is well typed.
//! Its scoping is simpler than that of the checker in `semant`: a function is in scope in
//! its own body and after its declaration, and every binding hides earlier ones.
pub mod env;
pub mod eq;

use vstd::prelude::*;

use crate::ast::{erase, erase_all, lemma_erase_all_index, lemma_erase_all_len, BinOp, Error, Expr, FunSignature, Program, Result, Tag, Top, Ty, Type, _Expr, _Type};
use crate::semant::eq::count_mismatch;
use crate::semant::spec::{eq_labels, main_labels, Labels, fun_ty_v, main_msg, main_name, main_ok, mismatch_msg, param_types, top_sig, undefined_msg};
use crate::semant::{err_with_name, str_is_main};
use env::{copy_type, Environment};
use eq::{len_eq, TypeEq};

verus! {

/// A scope with the parameters bound in order (a later parameter of the same name wins).
pub open spec fn with_params(env: Map<Seq<char>, Ty>, ps: Seq<(Tag<String>, Tag<Type>)>) -> Map<Seq<char>, Ty>
    decreases ps.len(),
{
    if ps.len() == 0 {
        env
    } else {
        with_params(env, ps.drop_last()).insert(ps.last().0.item@, erase(*ps.last().1.item))
    }
}

/// `+`, `-`, `*` and `/`.
pub open spec fn is_arith(op: BinOp) -> bool {
    op == BinOp::Add || op == BinOp::Sub || op == BinOp::Mul || op == BinOp::Div
}

/// `>`, `>=`, `<` and `<=`.
pub open spec fn is_comparison(op: BinOp) -> bool {
    op == BinOp::Gt || op == BinOp::Gte || op == BinOp::Lt || op == BinOp::Lte
}

/// The type of an expression in a scope, or the headline of the error where the checker
/// rejects it (the first problem met, in the order the checker looks).
pub open spec fn ty_res(e: Tag<Expr>, env: Map<Seq<char>, Ty>) -> core::result::Result<Ty, Seq<char>>
    decreases e,
{
    match *e.item {
        Expr::Unit => Ok(Ty::Unit),
        Expr::Bool(_) => Ok(Ty::Bool),
        Expr::Int(_) => Ok(Ty::I64),
        Expr::Ident(id) => if env.contains_key(id.item@) {
            Ok(env[id.item@])
        } else {
            Err(undefined_msg(id.item@))
        },
        Expr::BinOp(l, op, r) => match ty_res(*l, env) {
            Err(m) => Err(m),
            Ok(lt) => match ty_res(*r, env) {
                Err(m) => Err(m),
                Ok(rt) => if is_arith(*op.item) || is_comparison(*op.item) {
                    if lt != Ty::I64 {
                        Err(mismatch_msg(lt, Ty::I64))
                    } else if rt != Ty::I64 {
                        Err(mismatch_msg(rt, Ty::I64))
                    } else {
                        Ok(if is_arith(*op.item) { Ty::I64 } else { Ty::Bool })
                    }
                } else if lt == rt {
                    Ok(Ty::Bool)
                } else {
                    Err(mismatch_msg(lt, rt))
                },
            },
        },
        Expr::Sequence(a, b) => match ty_res(*a, env) {
            Err(m) => Err(m),
            Ok(_) => ty_res(*b, env),
        },
        Expr::If(c, t, f) => match ty_res(*c, env) {
            Err(m) => Err(m),
            Ok(ct) => if ct != Ty::Bool {
                Err(mismatch_msg(ct, Ty::Bool))
            } else {
                match ty_res(*t, env) {
                    Err(m) => Err(m),
                    Ok(tt) => match ty_res(*f, env) {
                        Err(m) => Err(m),
                        Ok(ft) => if tt == ft {
                            Ok(tt)
                        } else {
                            Err(mismatch_msg(tt, ft))
                        },
                    },
                }
            },
        },
        Expr::FunApp(f, args) => match ty_res(*f, env) {
            Err(m) => Err(m),
            Ok(Ty::Fun(formals, ret)) => if formals.len() != args.item@.len() {
                Err(count_mismatch())
            } else {
                match args_res(args.item@, formals, env) {
                    Some(m) => Err(m),
                    None => Ok(*ret),
                }
            },
            Ok(_) => Err("expected function"@),
        },
        Expr::Let(id, ann, rhs, rest) => match ty_res(*rhs, env) {
            Err(m) => Err(m),
            Ok(vt) => if ann is Some && erase(*ann->0.item) != vt {
                Err(mismatch_msg(vt, erase(*ann->0.item)))
            } else {
                ty_res(*rest, env.insert(id.item@, vt))
            },
        },
        Expr::FunDec(sig, rest) => {
            let env2 = env.insert(sig.name.item@, fun_ty_v(sig));
            match ty_res(*sig.body, with_params(env2, sig.params.item@)) {
                Err(m) => Err(m),
                Ok(bt) => if bt != erase(*sig.ret.item) {
                    Err(mismatch_msg(bt, erase(*sig.ret.item)))
                } else {
                    ty_res(*rest, env2)
                },
            }
        },
        Expr::Print(x) => match ty_res(*x, env) {
            Err(m) => Err(m),
            Ok(_) => Ok(Ty::Unit),
        },
        Expr::Block(x) => ty_res(*x, env),
    }
}

/// Where the type checker places the type of an expression: at the expression, except that
/// a sequence, a `let`, a nested function and a block place it at their last part.
pub open spec fn ty_span(e: Tag<Expr>) -> (usize, usize)
    decreases e,
{
    match *e.item {
        Expr::Sequence(_, b) => ty_span(*b),
        Expr::Let(_, _, _, rest) => ty_span(*rest),
        Expr::FunDec(_, rest) => ty_span(*rest),
        Expr::Block(x) => ty_span(*x),
        _ => e.span,
    }
}

/// The labels of the error `ty_res` gives, where they follow from the program's text: not
/// where a difference lies inside two function types, nor where the error points at a list of
/// parameter types that a name of the scope has.
pub open spec fn ty_labels(e: Tag<Expr>, env: Map<Seq<char>, Ty>) -> Option<Labels>
    decreases e,
{
    match *e.item {
        Expr::Ident(id) => if env.contains_key(id.item@) {
            None
        } else {
            Some(seq![(id.span, "not found in scope"@)])
        },
        Expr::BinOp(l, op, r) => match ty_res(*l, env) {
            Err(_) => ty_labels(*l, env),
            Ok(lt) => match ty_res(*r, env) {
                Err(_) => ty_labels(*r, env),
                Ok(rt) => if is_arith(*op.item) || is_comparison(*op.item) {
                    if lt != Ty::I64 {
                        eq_labels(lt, ty_span(*l), Ty::I64, e.span)
                    } else {
                        eq_labels(rt, ty_span(*r), Ty::I64, e.span)
                    }
                } else {
                    eq_labels(lt, ty_span(*l), rt, ty_span(*r))
                },
            },
        },
        Expr::Sequence(a, b) => match ty_res(*a, env) {
            Err(_) => ty_labels(*a, env),
            Ok(_) => ty_labels(*b, env),
        },
        Expr::If(c, t, f) => match ty_res(*c, env) {
            Err(_) => ty_labels(*c, env),
            Ok(ct) => if ct != Ty::Bool {
                eq_labels(ct, ty_span(*c), Ty::Bool, e.span)
            } else {
                match ty_res(*t, env) {
                    Err(_) => ty_labels(*t, env),
                    Ok(tt) => match ty_res(*f, env) {
                        Err(_) => ty_labels(*f, env),
                        Ok(ft) => eq_labels(tt, ty_span(*t), ft, ty_span(*f)),
                    },
                }
            },
        },
        Expr::FunApp(f, args) => match ty_res(*f, env) {
            Err(_) => ty_labels(*f, env),
            Ok(Ty::Fun(formals, _)) => if formals.len() != args.item@.len() {
                None
            } else {
                args_labels(args.item@, formals, env)
            },
            Ok(_) => Some(seq![(f.span, "not callable"@)]),
        },
        Expr::Let(id, ann, rhs, rest) => match ty_res(*rhs, env) {
            Err(_) => ty_labels(*rhs, env),
            Ok(vt) => if ann is Some && erase(*ann->0.item) != vt {
                eq_labels(vt, ty_span(*rhs), erase(*ann->0.item), ann->0.span)
            } else {
                ty_labels(*rest, env.insert(id.item@, vt))
            },
        },
        Expr::FunDec(sig, rest) => {
            let env2 = env.insert(sig.name.item@, fun_ty_v(sig));
            match ty_res(*sig.body, with_params(env2, sig.params.item@)) {
                Err(_) => ty_labels(*sig.body, with_params(env2, sig.params.item@)),
                Ok(bt) => if bt != erase(*sig.ret.item) {
                    eq_labels(bt, ty_span(*sig.body), erase(*sig.ret.item), sig.ret.span)
                } else {
                    ty_labels(*rest, env2)
                },
            }
        },
        Expr::Print(x) => ty_labels(*x, env),
        Expr::Block(x) => ty_labels(*x, env),
        _ => None,
    }
}

/// The labels of the error `args_res` gives, where `ty_labels` knows them.
pub open spec fn args_labels(args: Seq<Box<Tag<Expr>>>, formals: Seq<Ty>, env: Map<Seq<char>, Ty>) -> Option<Labels>
    decreases args,
{
    if args.len() == 0 || formals.len() == 0 {
        None
    } else {
        match ty_res(*args[0], env) {
            Err(_) => ty_labels(*args[0], env),
            Ok(t) => if t != formals[0] {
                None
            } else {
                args_labels(args.drop_first(), formals.drop_first(), env)
            },
        }
    }
}

/// The error of the first argument, left to right, that fails to check or lacks the type of
/// its parameter.
pub open spec fn args_res(args: Seq<Box<Tag<Expr>>>, formals: Seq<Ty>, env: Map<Seq<char>, Ty>) -> Option<Seq<char>>
    decreases args,
{
    if args.len() == 0 {
        None
    } else {
        match ty_res(*args[0], env) {
            Err(m) => Some(m),
            Ok(t) => if formals.len() == 0 {
                Some(count_mismatch())
            } else if t != formals[0] {
                Some(mismatch_msg(t, formals[0]))
            } else {
                args_res(args.drop_first(), formals.drop_first(), env)
            },
        }
    }
}

/// The type of an expression in a scope, or `None` where the checker rejects it.
pub open spec fn ty_of(e: Tag<Expr>, env: Map<Seq<char>, Ty>) -> Option<Ty> {
    match ty_res(e, env) {
        Ok(t) => Some(t),
        Err(_) => None,
    }
}

/// The scope of the top-level functions: each bound to its type, in order.
pub open spec fn globals_map(tops: Seq<Tag<Top>>, n: nat) -> Map<Seq<char>, Ty>
    decreases n,
{
    if n == 0 {
        Map::empty()
    } else {
        globals_map(tops, (n - 1) as nat).insert(top_sig(tops[n - 1]).name.item@, fun_ty_v(top_sig(tops[n - 1])))
    }
}

/// The function is called `main`.
pub open spec fn is_main(t: Tag<Top>) -> bool {
    top_sig(t).name.item@ == main_name()
}

/// A program is well typed: exactly one function is `main`, it returns unit and takes no
/// parameters, and every body has its function's result type.
pub open spec fn well_typed(tops: Seq<Tag<Top>>) -> bool {
    &&& exists|m: int|
        0 <= m < tops.len() && #[trigger] is_main(tops[m]) && main_ok(top_sig(tops[m])) && forall|j: int|
            0 <= j < tops.len() && j != m ==> !is_main(#[trigger] tops[j])
    &&& forall|i: int| 0 <= i < tops.len() ==> #[trigger] body_fits(tops, top_sig(tops[i]))
}

/// The body of a function has its result type, with the top-level functions and its
/// parameters in scope.
pub open spec fn body_fits(tops: Seq<Tag<Top>>, sig: FunSignature) -> bool {
    ty_of(*sig.body, with_params(globals_map(tops, tops.len()), sig.params.item@)) == Some(erase(*sig.ret.item))
}

/// Whether a `main` was seen among the first `n` top-level functions, or the error of the
/// first one that is a second `main` or a `main` with a result or parameters.
pub open spec fn mains_res(tops: Seq<Tag<Top>>, n: nat) -> core::result::Result<bool, Seq<char>>
    decreases n,
{
    if n == 0 || n > tops.len() {
        Ok(false)
    } else {
        match mains_res(tops, (n - 1) as nat) {
            Err(m) => Err(m),
            Ok(seen) => if is_main(tops[n - 1]) {
                if seen {
                    Err("duplicated main function"@)
                } else if !main_ok(top_sig(tops[n - 1])) {
                    Err(main_msg(top_sig(tops[n - 1])))
                } else {
                    Ok(true)
                }
            } else {
                Ok(seen)
            },
        }
    }
}

/// The error of the first function body, from the `k`-th on, that fails to check or lacks its
/// function's result type.
pub open spec fn bodies_msg(tops: Seq<Tag<Top>>, genv: Map<Seq<char>, Ty>, k: nat) -> Option<Seq<char>>
    decreases tops.len() - k,
{
    if k >= tops.len() {
        None
    } else {
        let sig = top_sig(tops[k as int]);
        match ty_res(*sig.body, with_params(genv, sig.params.item@)) {
            Err(m) => Some(m),
            Ok(bt) => if bt != erase(*sig.ret.item) {
                Some(mismatch_msg(bt, erase(*sig.ret.item)))
            } else {
                bodies_msg(tops, genv, k + 1)
            },
        }
    }
}

/// The headline of the error that checking a program reports, if any.
pub open spec fn check_msg(tops: Seq<Tag<Top>>) -> Option<Seq<char>> {
    match mains_res(tops, tops.len()) {
        Err(m) => Some(m),
        Ok(false) => Some("main function not found"@),
        Ok(true) => bodies_msg(tops, globals_map(tops, tops.len()), 0),
    }
}

/// The index of the `main` among the first `n` top-level functions, where there is one.
pub open spec fn main_index(tops: Seq<Tag<Top>>, n: nat) -> int {
    choose|j: int| 0 <= j < n && is_main(#[trigger] tops[j])
}

/// The labels of the error `mains_res` gives: both definitions of a second `main`, or the
/// label of a `main` that is not valid.
pub open spec fn mains_labels(tops: Seq<Tag<Top>>, n: nat) -> Labels
    decreases n,
{
    if n == 0 || n > tops.len() {
        Seq::empty()
    } else {
        match mains_res(tops, (n - 1) as nat) {
            Err(_) => mains_labels(tops, (n - 1) as nat),
            Ok(seen) => if is_main(tops[n - 1]) && seen {
                seq![
                    (tops[main_index(tops, (n - 1) as nat)].span, "first definition"@),
                    (tops[n - 1].span, "second definition "@),
                ]
            } else if is_main(tops[n - 1]) && !main_ok(top_sig(tops[n - 1])) {
                main_labels(top_sig(tops[n - 1]))
            } else {
                Seq::empty()
            },
        }
    }
}

/// The labels of the error `bodies_msg` gives, where `ty_labels` knows them.
pub open spec fn bodies_labels(tops: Seq<Tag<Top>>, genv: Map<Seq<char>, Ty>, k: nat) -> Option<Labels>
    decreases tops.len() - k,
{
    if k >= tops.len() {
        None
    } else {
        let sig = top_sig(tops[k as int]);
        match ty_res(*sig.body, with_params(genv, sig.params.item@)) {
            Err(_) => ty_labels(*sig.body, with_params(genv, sig.params.item@)),
            Ok(bt) => if bt != erase(*sig.ret.item) {
                eq_labels(bt, ty_span(*sig.body), erase(*sig.ret.item), sig.ret.span)
            } else {
                bodies_labels(tops, genv, k + 1)
            },
        }
    }
}

/// The labels of the error that checking a program reports, where they are known.
pub open spec fn check_labels(tops: Seq<Tag<Top>>) -> Option<Labels> {
    match mains_res(tops, tops.len()) {
        Err(_) => Some(mains_labels(tops, tops.len())),
        Ok(false) => Some(Seq::empty()),
        Ok(true) => bodies_labels(tops, globals_map(tops, tops.len()), 0),
    }
}

proof fn lemma_mains_err(tops: Seq<Tag<Top>>, i: nat, n: nat)
    requires
        mains_res(tops, i) is Err,
        i <= n <= tops.len(),
    ensures
        mains_res(tops, n) == mains_res(tops, i),
        mains_labels(tops, n) == mains_labels(tops, i),
    decreases n - i,
{
    if i < n {
        lemma_mains_err(tops, i + 1, n);
    }
}

/// The type of a function with the given signature.
fn fun_type(sig: &FunSignature) -> (r: Type)
    ensures
        erase(r) == fun_ty_v(*sig),
{
    let n = sig.params.item.len();
    let mut formal_tys: Vec<_Type> = Vec::new();
    let mut i: usize = 0;
    while i < n
        invariant
            n == sig.params.item@.len(),
            i <= n,
            formal_tys@.len() == i,
            forall|j: int| 0 <= j < i ==> erase(*(#[trigger] formal_tys@[j]).item) == erase(*sig.params.item@[j].1.item),
        decreases n - i,
    {
        formal_tys.push(sig.params.item[i].1.copy());
        i = i + 1;
    }
    proof {
        let pt = param_types(sig.params.item@);
        assert forall|j: int| 0 <= j < n implies erase_all(formal_tys@)[j] == erase_all(pt)[j] by {
            lemma_erase_all_index(formal_tys@, j);
            lemma_erase_all_index(pt, j);
        }
        lemma_erase_all_len(formal_tys@);
        lemma_erase_all_len(pt);
        assert(erase_all(formal_tys@) =~= erase_all(pt));
    }
    Type::Fun(sig.params.to(formal_tys), Box::new(sig.ret.copy()))
}

/// A copy of `env` with the parameters of `sig` bound.
fn bind_params(env: &Environment, sig: &FunSignature) -> (r: Environment)
    ensures
        r.view() == with_params(env.view(), sig.params.item@),
{
    let ghost ps = sig.params.item@;
    let mut benv = env.copy();
    let n = sig.params.item.len();
    let mut k: usize = 0;
    proof {
        assert(ps.take(0) =~= Seq::<(Tag<String>, Tag<Type>)>::empty());
    }
    while k < n
        invariant
            n == ps.len(),
            ps == sig.params.item@,
            k <= n,
            benv.view() == with_params(env.view(), ps.take(k as int)),
        decreases n - k,
    {
        let name = (*sig.params.item[k].0.item).clone();
        let ty = copy_type(&sig.params.item[k].1.item);
        benv.insert(name, ty);
        proof {
            assert(ps.take(k + 1).drop_last() =~= ps.take(k as int));
        }
        k = k + 1;
    }
    proof {
        assert(ps.take(n as int) =~= ps);
    }
    benv
}

/// The type of an expression in a scope, placed where `ty_span` says: at the expression, or
/// at the last part of a sequence, a `let`, a nested function or a block.
fn type_of_expr(expr: &_Expr, env: &Environment) -> (r: Result<_Type>)
    ensures
        r is Ok <==> ty_res(**expr, env.view()) is Ok,
        r matches Ok(t) ==> ty_res(**expr, env.view()) == Ok::<Ty, Seq<char>>(erase(*t.item)),
        r matches Err(e) ==> ty_res(**expr, env.view()) == Err::<Ty, Seq<char>>(e.message()),
        r matches Ok(t) ==> t.span == ty_span(**expr),
        r matches Err(e) ==> (ty_labels(**expr, env.view()) matches Some(ls) ==> e.labels() == ls),
    decreases **expr,
{
    let ghost ev = env.view();
    let ty = match &*expr.item {
        Expr::Unit => Type::Unit,
        Expr::Bool(_) => Type::Bool,
        Expr::Int(_) => Type::I64,
        Expr::Ident(id) => match env.lookup(id.item.as_str()) {
            Some(t) => copy_type(t),
            None => {
                let msg = err_with_name("undefined identifier '", &id.item, "'");
                return Err(Error::new(msg.as_str()).label("not found in scope", id.span));
            },
        },
        Expr::BinOp(left, op, right) => {
            let l_ty = match type_of_expr(left, env) {
                Ok(t) => t,
                Err(e) => return Err(e),
            };
            let r_ty = match type_of_expr(right, env) {
                Ok(t) => t,
                Err(e) => return Err(e),
            };
            match *op.item {
                BinOp::Eq | BinOp::Ne => {
                    let c = TypeEq::assert_eq(&l_ty, &r_ty);
                    if c.is_err() {
                        return Err(c.unwrap_err());
                    }
                    Type::Bool
                },
                _ => {
                    let c = TypeEq::assert_eq(&l_ty, &expr.to(Type::I64));
                    if c.is_err() {
                        return Err(c.unwrap_err());
                    }
                    let c2 = TypeEq::assert_eq(&r_ty, &expr.to(Type::I64));
                    if c2.is_err() {
                        return Err(c2.unwrap_err());
                    }
                    match *op.item {
                        BinOp::Add | BinOp::Sub | BinOp::Mul | BinOp::Div => Type::I64,
                        _ => Type::Bool,
                    }
                },
            }
        },
        Expr::Sequence(first, second) => {
            let f = type_of_expr(first, env);
            if f.is_err() {
                return f;
            }
            return type_of_expr(second, env);
        },
        Expr::If(cond, then_b, else_b) => {
            let c_ty = match type_of_expr(cond, env) {
                Ok(t) => t,
                Err(e) => return Err(e),
            };
            let c = TypeEq::assert_eq(&c_ty, &expr.to(Type::Bool));
            if c.is_err() {
                return Err(c.unwrap_err());
            }
            let t_ty = match type_of_expr(then_b, env) {
                Ok(t) => t,
                Err(e) => return Err(e),
            };
            let e_ty = match type_of_expr(else_b, env) {
                Ok(t) => t,
                Err(e) => return Err(e),
            };
            let c2 = TypeEq::assert_eq(&t_ty, &e_ty);
            if c2.is_err() {
                return Err(c2.unwrap_err());
            }
            t_ty.into_inner()
        },
        Expr::FunApp(fun, args) => {
            let fun_ty = match type_of_expr(fun, env) {
                Ok(t) => t,
                Err(e) => return Err(e),
            };
            match &*fun_ty.item {
                Type::Fun(formals, ret) => {
                    let c = len_eq(formals, args);
                    if c.is_err() {
                        proof {
                            lemma_erase_all_len(formals.item@);
                        }
                        return Err(c.unwrap_err());
                    }
                    let ghost all = args.item@;
                    let ghost fs = erase_all(formals.item@);
                    proof {
                        lemma_erase_all_len(formals.item@);
                        assert(all.skip(0) =~= all);
                        assert(fs.skip(0) =~= fs);
                        assert(erase(*fun_ty.item) == Ty::Fun(fs, Box::new(erase(*ret.item))));
                    }
                    let n = args.item.len();
                    let mut i: usize = 0;
                    while i < n
                        invariant
                            n == all.len(),
                            all == args.item@,
                            fs == erase_all(formals.item@),
                            fs.len() == n,
                            formals.item@.len() == n,
                            i <= n,
                            env.view() == ev,
                            *expr.item == Expr::FunApp(*fun, *args),
                            ty_res(**fun, ev) == Ok::<Ty, Seq<char>>(Ty::Fun(fs, Box::new(erase(*ret.item)))),
                            args_res(all, fs, ev) == args_res(all.skip(i as int), fs.skip(i as int), ev),
                            args_labels(all, fs, ev) == args_labels(all.skip(i as int), fs.skip(i as int), ev),
                        decreases n - i,
                    {
                        proof {
                            let sk = all.skip(i as int);
                            assert(sk[0] == all[i as int]);
                            assert(sk.drop_first() =~= all.skip(i + 1));
                            assert(fs.skip(i as int)[0] == fs[i as int]);
                            assert(fs.skip(i as int).drop_first() =~= fs.skip(i + 1));
                            assert(decreases_to!(**expr => expr.item));
                            assert(decreases_to!(expr.item => *args));
                            assert(decreases_to!(*args => args.item));
                            assert(decreases_to!(args.item => args.item@));
                            assert(decreases_to!(args.item@ => args.item@[i as int]));
                            lemma_erase_all_index(formals.item@, i as int);
                        }
                        let a_ty = match type_of_expr(&args.item[i], env) {
                            Ok(t) => t,
                            Err(e) => return Err(e),
                        };
                        let c2 = TypeEq::assert_eq(&a_ty, &formals.item[i]);
                        if c2.is_err() {
                            return Err(c2.unwrap_err());
                        }
                        i = i + 1;
                    }
                    proof {
                        assert(all.skip(n as int).len() == 0);
                    }
                    copy_type(&ret.item)
                },
                _ => {
                    return Err(Error::new("expected function").label("not callable", fun.span));
                },
            }
        },
        Expr::Let(id, ann, val, rest) => {
            let v_ty = match type_of_expr(val, env) {
                Ok(t) => t,
                Err(e) => return Err(e),
            };
            if let Some(expected) = ann {
                let c = TypeEq::assert_eq(&v_ty, expected);
                if c.is_err() {
                    return Err(c.unwrap_err());
                }
            }
            let mut local_env = env.copy();
            local_env.insert((*id.item).clone(), v_ty.into_inner());
            return type_of_expr(rest, &local_env);
        },
        Expr::FunDec(sig, rest) => {
            let mut env2 = env.copy();
            env2.insert((*sig.name.item).clone(), fun_type(sig));
            let body_env = bind_params(&env2, sig);
            let b_ty = match type_of_expr(&sig.body, &body_env) {
                Ok(t) => t,
                Err(e) => return Err(e),
            };
            let c = TypeEq::assert_eq(&b_ty, &sig.ret);
            if c.is_err() {
                return Err(c.unwrap_err());
            }
            return type_of_expr(rest, &env2);
        },
        Expr::Print(e) => {
            match type_of_expr(e, env) {
                Ok(_) => {},
                Err(e) => return Err(e),
            }
            Type::Unit
        },
        Expr::Block(e) => {
            return type_of_expr(e, env);
        },
    };
    Ok(expr.to(ty))
}

/// Type checks a program: exactly one `main`, returning unit without parameters, and every
/// function body of its declared result type.
pub fn type_check(program: &Program) -> (r: Result<()>)
    ensures
        r is Ok <==> well_typed(program@),
        r matches Err(e) ==> check_msg(program@) == Some(e.message()),
        r matches Err(e) ==> (check_labels(program@) matches Some(ls) ==> e.labels() == ls),
{
    let ghost tops = program@;
    let mut env = Environment::new();
    let mut main_found: Option<(usize, (usize, usize))> = None;
    let n = program.len();
    let mut i: usize = 0;
    while i < n
        invariant
            n == tops.len(),
            tops == program@,
            i <= n,
            env.view() == globals_map(tops, i as nat),
            main_found is None ==> forall|j: int| 0 <= j < i ==> !is_main(#[trigger] tops[j]),
            main_found matches Some((m, sp)) ==> m < i && is_main(tops[m as int]) && main_ok(top_sig(tops[m as int]))
                && sp == tops[m as int].span && forall|j: int| 0 <= j < i && j != m ==> !is_main(#[trigger] tops[j]),
            mains_res(tops, i as nat) == Ok::<bool, Seq<char>>(main_found is Some),
        decreases n - i,
    {
        let top = &program[i];
        let Top::FunDec(sig) = &*top.item;
        if str_is_main(sig.name.item.as_str()) {
            if let Some((m, first)) = main_found {
                proof {
                    assert(is_main(tops[m as int]) && is_main(tops[i as int]));
                    lemma_mains_err(tops, (i + 1) as nat, n as nat);
                }
                return Err(Error::new("duplicated main function").label("first definition", first).label("second definition ", top.span));
            }
            if !sig.ret.item.matches(&Type::Unit) {
                proof {
                    lemma_mains_err(tops, (i + 1) as nat, n as nat);
                }
                let mut m = String::from_str("got ");
                sig.ret.item.write_into(&mut m);
                return Err(Error::new("main function must return Unit").label(m.as_str(), sig.ret.span));
            }
            if sig.params.item.len() != 0 {
                proof {
                    lemma_mains_err(tops, (i + 1) as nat, n as nat);
                }
                return Err(Error::new("main function cannot have arguments").label("unexpected arguments", sig.params.span));
            }
            main_found = Some((i, top.span));
        }
        env.insert((*sig.name.item).clone(), fun_type(sig));
        i = i + 1;
    }
    if main_found.is_none() {
        return Err(Error::new("main function not found"));
    }
    let mut k: usize = 0;
    while k < n
        invariant
            n == tops.len(),
            tops == program@,
            k <= n,
            env.view() == globals_map(tops, tops.len()),
            forall|j: int| 0 <= j < k ==> #[trigger] body_fits(tops, top_sig(tops[j])),
            check_msg(tops) == bodies_msg(tops, globals_map(tops, tops.len()), k as nat),
            check_labels(tops) == bodies_labels(tops, globals_map(tops, tops.len()), k as nat),
        decreases n - k,
    {
        let Top::FunDec(sig) = &*program[k].item;
        let local_env = bind_params(&env, sig);
        let body_ty = match type_of_expr(&sig.body, &local_env) {
            Ok(t) => t,
            Err(e) => {
                proof {
                    assert(!body_fits(tops, top_sig(tops[k as int])));
                }
                return Err(e);
            },
        };
        let c = TypeEq::assert_eq(&body_ty, &sig.ret);
        if c.is_err() {
            proof {
                assert(!body_fits(tops, top_sig(tops[k as int])));
            }
            return c;
        }
        k = k + 1;
    }
    Ok(())
}

/// The types of the operators: on two integers, `+`, `-`, `*` and `/` give an integer and
/// `>`, `>=`, `<` and `<=` a truth value; `==` and `!=` on two operands of one type give a truth
/// value.
pub proof fn lemma_operator_types(e: Tag<Expr>, env: Map<Seq<char>, Ty>)
    ensures
        *e.item matches Expr::BinOp(l, op, r) ==> {
            &&& ty_res(*l, env) == Ok::<Ty, Seq<char>>(Ty::I64) && ty_res(*r, env) == Ok::<Ty, Seq<char>>(Ty::I64) ==> {
                &&& (*op.item == BinOp::Add || *op.item == BinOp::Sub || *op.item == BinOp::Mul || *op.item == BinOp::Div)
                    ==> ty_res(e, env) == Ok::<Ty, Seq<char>>(Ty::I64)
                &&& (*op.item == BinOp::Gt || *op.item == BinOp::Gte || *op.item == BinOp::Lt || *op.item == BinOp::Lte)
                    ==> ty_res(e, env) == Ok::<Ty, Seq<char>>(Ty::Bool)
            }
            &&& (*op.item == BinOp::Eq || *op.item == BinOp::Ne) && ty_res(*l, env) is Ok && ty_res(*r, env) == ty_res(*l, env)
                ==> ty_res(e, env) == Ok::<Ty, Seq<char>>(Ty::Bool)
        },
{
}

} // verus!
