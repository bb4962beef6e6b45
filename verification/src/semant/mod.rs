//! Type checking and translation to the intermediate representation.
pub mod env;
pub mod eq;
pub mod limits;
pub mod spec;
pub mod trans;

use vstd::prelude::*;

use crate::ast::{self, erase, erase_all, lemma_erase_all_index, lemma_erase_all_len, lemma_tyvs_index, lemma_tyvs_len, tyv, tyvs, TyV, BinOp, Error, FunSignature, Result, Tag, Top, Ty, Type, _Expr, _Type};
use crate::ir::canonical::flat;
use crate::ir::frame::Frame;
use crate::ir::frame::Access;
use crate::ir::symbols::{bumps, NameSupply, Temp};
use crate::ir::translate::{self, tv, tvs, FunContext};
use crate::ir::{self as irm, wf_stmt, Fragment};
use crate::text::push_str;

use trans::{FragV, frag_v, frags_v, lemma_frags_v_push, param_temps, st_of, tr_e, tr_fun, tr_list, tr_program};
use env::{Binding, Entry, EntryView, EnvView, Environment};
use spec::{main_msg, redefined_msg, main_name, body_env, declare_v, env_small, expr_small, frame_need, fun_fits, globals_v, main_ok, nested_fit, param_types, program_fits, program_small, sig_small, small_ty, tc, tc_args, tc_collect, tc_fun, tc_program, top_sig, Outcome, rejects_with, Labels};

verus! {

/// A typed expression: its translation and its type.
#[derive(Debug)]
pub struct TypedExpr {
    pub ir: translate::Expr,
    pub ty: Tag<Type>,
}

/// Why a construct was not translated: the checker rejected it with an error, or it reached a
/// state that the checker cannot handle (a function declared where it is not in scope, or one
/// with more than eight parameters).
#[derive(Debug)]
pub enum Fault {
    Rejected(Error),
    Stuck,
}

/// The result of checking a construct.
pub type Checked<T> = std::result::Result<T, Fault>;

/// Every fragment has a well-formed frame.
pub open spec fn frames_wf(frags: Seq<Fragment>) -> bool {
    forall|i: int| 0 <= i < frags.len() ==> (#[trigger] frags[i])->frame.wf()
}

/// The body of every fragment is flat and well formed.
pub open spec fn frags_ok(frags: Seq<Fragment>) -> bool {
    forall|i: int| 0 <= i < frags.len() ==> #[trigger] frag_ok(frags[i])
}

pub open spec fn frag_ok(f: Fragment) -> bool {
    match f {
        Fragment::Proc { body, .. } => forall|j: int| 0 <= j < body@.len() ==> flat(#[trigger] body@[j]) && wf_stmt(body@[j]),
    }
}

/// The name of a fragment's entry label.
pub open spec fn frag_name(f: Fragment) -> Seq<char> {
    match f {
        Fragment::Proc { label, .. } => label.0@,
    }
}

/// The entry label names of a list of fragments, in order.
pub open spec fn frag_names(frags: Seq<Fragment>) -> Seq<Seq<char>> {
    frags.map_values(|f: Fragment| frag_name(f))
}

proof fn lemma_frag_names_push(frags: Seq<Fragment>, f: Fragment)
    ensures
        frag_names(frags.push(f)) == frag_names(frags).push(frag_name(f)),
{
    assert(frag_names(frags.push(f)) =~= frag_names(frags).push(frag_name(f)));
}

pub(crate) fn err_with_name(prefix: &str, name: &String, suffix: &str) -> (r: String)
    ensures
        r@ == prefix@ + name@ + suffix@,
{
    let mut s = String::from_str(prefix);
    push_str(&mut s, name.as_str());
    push_str(&mut s, suffix);
    s
}

/// Declares a function in the scope: an error if its name is bound already.
fn declare_fun<T>(env: &mut Environment, sig: &FunSignature, span_tag: &Tag<T>) -> (r: Result<()>)
    requires
        old(env).wf(),
    ensures
        final(env).wf(),
        r is Ok <==> declare_v(old(env).view(), *sig) is Some,
        r is Ok ==> declare_v(old(env).view(), *sig) == Some(final(env).view()),
        r matches Err(e) ==> e.message() == redefined_msg(*sig),
        r matches Err(e) ==> e.labels() == seq![(sig.name.span, "redefined here"@)] && *final(env) == *old(env),
        r is Ok ==> final(env).globals_full() == old(env).globals_full().insert(sig.name.item@, final(env).globals_full()[sig.name.item@]),
        r is Ok ==> final(env).globals_full()[sig.name.item@].ty.span == span_tag.span
            && erase(*final(env).globals_full()[sig.name.item@].ty.item) == spec::fun_ty_v(*sig)
            && (final(env).globals_full()[sig.name.item@].binding matches Binding::Fun(l) && l.0@ == sig.name.item@),
        r is Ok ==> tyv(final(env).globals_full()[sig.name.item@].ty) == TyV::Fun(
            span_tag.span,
            sig.params.span,
            tyvs(spec::param_types(sig.params.item@)),
            Box::new(tyv(sig.ret)),
        ),
        old(env).labels_ok() ==> final(env).labels_ok(),
        final(env).temps() == old(env).temps(),
{
    if env.lookup(sig.name.item.as_str()).is_some() {
        let msg = err_with_name("function '", &sig.name.item, "' is defined multiple times");
        return Err(Error::new(msg.as_str()).label("redefined here", sig.name.span));
    }
    let n = sig.params.item.len();
    let mut formal_tys: Vec<_Type> = Vec::new();
    let mut i: usize = 0;
    while i < n
        invariant
            n == sig.params.item@.len(),
            i <= n,
            formal_tys@.len() == i,
            forall|j: int| 0 <= j < i ==> erase(*(#[trigger] formal_tys@[j]).item) == erase(*sig.params.item@[j].1.item),
            forall|j: int| 0 <= j < i ==> tyv(#[trigger] formal_tys@[j]) == tyv(sig.params.item@[j].1),
        decreases n - i,
    {
        formal_tys.push(sig.params.item[i].1.copy());
        i = i + 1;
    }
    proof {
        let pt = param_types(sig.params.item@);
        assert forall|j: int| 0 <= j < n implies erase_all(formal_tys@)[j] == erase_all(pt)[j] by {
            lemma_erase_all_index(formal_tys@, j);
            lemma_erase_all_index(pt, j);
        }
        lemma_erase_all_len(formal_tys@);
        lemma_erase_all_len(pt);
        assert(erase_all(formal_tys@) =~= erase_all(pt));
        assert forall|j: int| 0 <= j < n implies tyvs(formal_tys@)[j] == tyvs(pt)[j] by {
            lemma_tyvs_index(formal_tys@, j);
            lemma_tyvs_index(pt, j);
        }
        lemma_tyvs_len(formal_tys@);
        lemma_tyvs_len(pt);
        assert(tyvs(formal_tys@) =~= tyvs(pt));
    }
    let fun_ty = Type::Fun(sig.params.to(formal_tys), Box::new(sig.ret.copy()));
    let label = translate::get_label(sig.name.item.as_str());
    env.insert_global((*sig.name.item).clone(), Entry { ty: span_tag.to(fun_ty), binding: Binding::Fun(label) });
    proof {
        assert(env.view() =~= declare_v(old(env).view(), *sig).unwrap());
    }
    Ok(())
}

/// The context is small: the scope and the construct have small types.
pub open spec fn small_ctx(e: Tag<ast::Expr>, env: EnvView) -> bool {
    env_small(env) && expr_small(e)
}

/// Type checks a program and translates every function, nested ones included, into a
/// fragment.
pub fn check(program: &ast::Program, names: &mut NameSupply) -> (r: Result<irm::Program>)
    requires
        !(tc_program(program@) is Stuck),
        program_fits(program@),
    ensures
        r is Ok <==> tc_program(program@) is Typed,
        r matches Err(e) ==> rejects_with(tc_program(program@), e),
        program_small(program@) ==> (r matches Ok(p) ==> frags_ok(p.fragments@)),
        r matches Ok(p) ==> frames_wf(p.fragments@),
        r matches Ok(p) ==> frag_names(p.fragments@) == spec::declared_in_program(program@, program@.len()),
        r matches Ok(p) ==> (*final(names), frags_v(p.fragments@)) == tr_program(program@, program@.len(), *old(names)),
{
    match try_check(program, names) {
        Some(r) => r,
        None => {
            proof {
                assert(false);
            }
            Err(Error::new("unreachable"))
        },
    }
}

/// Checks a program as `check` does, and answers `None` where the checker gets stuck: a
/// function declared where it is not in scope, or one with more than eight parameters.
pub fn try_check(program: &ast::Program, names: &mut NameSupply) -> (r: Option<Result<irm::Program>>)
    requires
        program_fits(program@),
    ensures
        r is None <==> tc_program(program@) is Stuck,
        r matches Some(res) ==> (res is Ok <==> tc_program(program@) is Typed),
        r matches Some(Err(e)) ==> rejects_with(tc_program(program@), e),
        program_small(program@) ==> (r matches Some(Ok(p)) ==> frags_ok(p.fragments@)),
        r matches Some(Ok(p)) ==> frames_wf(p.fragments@),
        r matches Some(Ok(p)) ==> frag_names(p.fragments@) == spec::declared_in_program(program@, program@.len()),
        r matches Some(Ok(p)) ==> (*final(names), frags_v(p.fragments@)) == tr_program(program@, program@.len(), *old(names)),
{
    let ghost n_init = *names;
    let mut env = Environment::new();
    let c = collect_globals(program, &mut env);
    if c.is_err() {
        return Some(Err(c.unwrap_err()));
    }
    let ghost genv = env.view();
    proof {
        if program_small(program@) {
            lemma_globals_small(program@, program@.len());
        }
    }
    let mut fragments: Vec<Fragment> = Vec::new();
    let mut i: usize = 0;
    proof {
        assert(frags_v(fragments@) =~= Seq::<FragV>::empty());
    }
    while i < program.len()
        invariant
            i <= program@.len(),
            env.wf(),
            env.labels_ok(),
            env.view() == genv,
            program_fits(program@),
            tc_program(program@) == spec::funs_v(program@, genv, i as nat),
            program_small(program@) ==> env_small(genv) && frags_ok(fragments@),
            frames_wf(fragments@),
            frag_names(fragments@) == spec::declared_in_program(program@, i as nat),
            (*names, frags_v(fragments@)) == tr_program(program@, i as nat, n_init),
        decreases program@.len() - i,
    {
        let Top::FunDec(sig) = &*program[i].item;
        proof {
            assert(fun_fits(top_sig(program@[i as int])));
            if program_small(program@) {
                assert(sig_small(top_sig(program@[i as int])));
            }
        }
        match emit_fun(sig, &env, &mut fragments, names) {
            Ok(f) => {
                proof {
                    lemma_frag_names_push(fragments@, f);
                    assert(spec::declared_in_program(program@, (i + 1) as nat)
                        == spec::declared_in_program(program@, i as nat) + spec::declared_in_fun(*sig));
                    assert(spec::declared_in_fun(*sig) == spec::declared(*sig.body).push(sig.name.item@));
                    assert(frag_names(fragments@).push(frag_name(f))
                        =~= spec::declared_in_program(program@, (i + 1) as nat));
                    lemma_frags_v_push(fragments@, f);
                }
                fragments.push(f);
            },
            Err(Fault::Stuck) => return None,
            Err(Fault::Rejected(e)) => return Some(Err(e)),
        }
        i = i + 1;
    }
    Some(Ok(irm::Program { fragments }))
}

proof fn lemma_globals_small(tops: Seq<Tag<Top>>, n: nat)
    requires
        n <= tops.len(),
        program_small(tops),
        globals_v(tops, n) is Ok,
    ensures
        env_small(globals_v(tops, n)->Ok_0.0),
    decreases n,
{
    if n > 0 {
        lemma_globals_small(tops, (n - 1) as nat);
        let env = globals_v(tops, (n - 1) as nat)->Ok_0.0;
        assert(sig_small(top_sig(tops[n - 1])));
        lemma_declare_small(env, top_sig(tops[n - 1]));
    }
}

/// Type checks an expression and translates it, placing its local variables in `frame` and
/// the fragments of nested functions in `fragments`.
#[verifier::spinoff_prover]
fn check_expr(
    expr: &_Expr,
    env: &Environment,
    frame: &mut Frame,
    fragments: &mut Vec<Fragment>,
    names: &mut NameSupply,
) -> (r: Checked<TypedExpr>)
    requires
        env.wf(),
        env.labels_ok(),
        old(frame).wf(),
        old(frame).room() >= 8 * frame_need(**expr),
        nested_fit(**expr),
    ensures
        r is Ok ==> frag_names(final(fragments)@) == frag_names(old(fragments)@) + spec::declared(**expr),
        r is Ok <==> tc(**expr, env.view()) is Typed,
        r matches Err(Fault::Stuck) <==> tc(**expr, env.view()) is Stuck,
        r matches Err(Fault::Rejected(e)) ==> rejects_with(tc(**expr, env.view()), e),
        r matches Ok(te) ==> (tv(te.ir), st_of(*final(names), *final(frame), final(fragments)@)) == tr_e(**expr, env.temps(), st_of(*old(names), *old(frame), old(fragments)@)),
        final(frame).name() == old(frame).name(),
        r matches Ok(te) ==> tc(**expr, env.view()) == Outcome::Typed(erase(*te.ty.item)) && !(te.ir is Nx),
        r matches Ok(te) ==> te.ty.span == spec::ty_span(**expr),
        small_ctx(**expr, env.view()) ==> (r matches Ok(te) ==> translate::wf(te.ir) && small_ty(erase(*te.ty.item))),
        final(frame).wf(),
        final(frame).counter() >= old(frame).counter() - 8 * frame_need(**expr),
        frags_ok(old(fragments)@) && small_ctx(**expr, env.view()) ==> frags_ok(final(fragments)@),
        frames_wf(old(fragments)@) ==> frames_wf(final(fragments)@),
    decreases **expr, 1nat,
{
    let ghost names0 = frag_names(fragments@);
    proof {
        assert(names0 + Seq::<Seq<char>>::empty() =~= names0);
    }
    match &*expr.item {
        ast::Expr::Unit => Ok(TypedExpr { ir: translate::unit(), ty: expr.to(Type::Unit) }),
        ast::Expr::Bool(b) => {
            let v: i64 = if *b { 1 } else { 0 };
            Ok(TypedExpr { ir: translate::integer(v), ty: expr.to(Type::Bool) })
        },
        ast::Expr::Int(i) => Ok(TypedExpr { ir: translate::integer(*i), ty: expr.to(Type::I64) }),
        ast::Expr::Ident(id) => match env.lookup(id.item.as_str()) {
            Some(entry) => match &entry.binding {
                Binding::Var(acc) => Ok(TypedExpr { ir: translate::var(acc), ty: entry.ty.at(id) }),
                Binding::Fun(label) => Ok(TypedExpr { ir: translate::fun(label), ty: entry.ty.at(id) }),
            },
            None => {
                let msg = err_with_name("undefined identifier '", &id.item, "'");
                Err(Fault::Rejected(Error::new(msg.as_str()).label("not found in scope", id.span)))
            },
        },
        ast::Expr::BinOp(left, op, right) => check_binop(expr, left, op, right, env, frame, fragments, names),
        ast::Expr::Sequence(first, second) => {
            let fi = match check_expr(first, env, frame, fragments, names) {
                Ok(x) => x,
                Err(e) => return Err(e),
            };
            let si = match check_expr(second, env, frame, fragments, names) {
                Ok(x) => x,
                Err(e) => return Err(e),
            };
            proof {
                assert(frag_names(fragments@) =~= names0 + spec::declared(**expr));
            }
            Ok(TypedExpr { ir: translate::chain_expr(fi.ir, si.ir, names), ty: si.ty })
        },
        ast::Expr::If(cond, then_b, else_b) => check_if(expr, cond, then_b, else_b, env, frame, fragments, names),
        ast::Expr::FunApp(fun, args) => check_app(expr, fun, args, env, frame, fragments, names),
        ast::Expr::Let(id, ann, rhs, rest) => check_let(expr, id, ann, rhs, rest, env, frame, fragments, names),
        ast::Expr::FunDec(sig, rest) => {
            let fragment = match emit_fun(sig, env, fragments, names) {
                Ok(f) => f,
                Err(e) => return Err(e),
            };
            let ghost name = frag_name(fragment);
            proof {
                lemma_frag_names_push(fragments@, fragment);
                lemma_frags_v_push(fragments@, fragment);
            }
            fragments.push(fragment);
            let res = check_expr(rest, env, frame, fragments, names);
            proof {
                if res is Ok {
                    assert(spec::declared(**expr) == spec::declared_in_fun(*sig) + spec::declared(**rest));
                    assert(spec::declared_in_fun(*sig) == spec::declared(*sig.body).push(sig.name.item@));
                    assert(frag_names(fragments@) =~= names0 + spec::declared(**expr));
                }
            }
            res
        },
        ast::Expr::Print(e) => {
            let ei = match check_expr(e, env, frame, fragments, names) {
                Ok(x) => x,
                Err(e) => return Err(e),
            };
            Ok(TypedExpr { ir: translate::print_int(ei.ir, names), ty: expr.to(Type::Unit) })
        },
        ast::Expr::Block(e) => check_expr(e, env, frame, fragments, names),
    }
}

/// Checks and translates `left op right`.
#[verifier::spinoff_prover]
fn check_binop(
    expr: &_Expr,
    left: &_Expr,
    op: &Tag<BinOp>,
    right: &_Expr,
    env: &Environment,
    frame: &mut Frame,
    fragments: &mut Vec<Fragment>,
    names: &mut NameSupply,
) -> (r: Checked<TypedExpr>)
    requires
        env.wf(),
        env.labels_ok(),
        old(frame).wf(),
        old(frame).room() >= 8 * frame_need(**expr),
        nested_fit(**expr),
        *expr.item == ast::Expr::BinOp(*left, *op, *right),
    ensures
        r is Ok ==> frag_names(final(fragments)@) == frag_names(old(fragments)@) + spec::declared(**expr),
        r is Ok <==> tc(**expr, env.view()) is Typed,
        r matches Err(Fault::Stuck) <==> tc(**expr, env.view()) is Stuck,
        r matches Err(Fault::Rejected(e)) ==> rejects_with(tc(**expr, env.view()), e),
        r matches Ok(te) ==> (tv(te.ir), st_of(*final(names), *final(frame), final(fragments)@)) == tr_e(**expr, env.temps(), st_of(*old(names), *old(frame), old(fragments)@)),
        final(frame).name() == old(frame).name(),
        r matches Ok(te) ==> tc(**expr, env.view()) == Outcome::Typed(erase(*te.ty.item)) && !(te.ir is Nx),
        r matches Ok(te) ==> te.ty.span == spec::ty_span(**expr),
        small_ctx(**expr, env.view()) ==> (r matches Ok(te) ==> translate::wf(te.ir) && small_ty(erase(*te.ty.item))),
        final(frame).wf(),
        final(frame).counter() >= old(frame).counter() - 8 * frame_need(**expr),
        frags_ok(old(fragments)@) && small_ctx(**expr, env.view()) ==> frags_ok(final(fragments)@),
        frames_wf(old(fragments)@) ==> frames_wf(final(fragments)@),
    decreases **expr, 0nat,
{
    let ghost names0 = frag_names(fragments@);
    proof {
        assert(names0 + Seq::<Seq<char>>::empty() =~= names0);
    }
    let l = match check_expr(left, env, frame, fragments, names) {
        Ok(x) => x,
        Err(e) => return Err(e),
    };
    let r = match check_expr(right, env, frame, fragments, names) {
        Ok(x) => x,
        Err(e) => return Err(e),
    };
    let c = l.ty.assert_eq(&r.ty);
    if c.is_err() {
        return Err(Fault::Rejected(c.unwrap_err()));
    }
    proof {
        assert(frag_names(fragments@) =~= names0 + spec::declared(**expr));
    }
    let res = match *op.item {
        BinOp::Add | BinOp::Sub | BinOp::Mul | BinOp::Div => {
            let c2 = l.ty.assert_eq_raw(&Type::I64);
            if c2.is_err() {
                return Err(Fault::Rejected(c2.unwrap_err()));
            }
            let ir = match *op.item {
                BinOp::Add => translate::op_add(l.ir, r.ir, names),
                BinOp::Sub => translate::op_sub(l.ir, r.ir, names),
                BinOp::Mul => translate::op_mul(l.ir, r.ir, names),
                _ => translate::op_div(l.ir, r.ir, names),
            };
            TypedExpr { ir, ty: expr.to(Type::I64) }
        },
        BinOp::Gt | BinOp::Gte | BinOp::Lt | BinOp::Lte => {
            let c2 = l.ty.assert_eq_raw(&Type::I64);
            if c2.is_err() {
                return Err(Fault::Rejected(c2.unwrap_err()));
            }
            let ir = match *op.item {
                BinOp::Gt => translate::op_gt(l.ir, r.ir, names),
                BinOp::Gte => translate::op_ge(l.ir, r.ir, names),
                BinOp::Lt => translate::op_lt(l.ir, r.ir, names),
                _ => translate::op_le(l.ir, r.ir, names),
            };
            TypedExpr { ir, ty: expr.to(Type::Bool) }
        },
        BinOp::Eq => TypedExpr { ir: translate::op_eq(l.ir, r.ir, names), ty: expr.to(Type::Bool) },
        BinOp::Ne => TypedExpr { ir: translate::op_ne(l.ir, r.ir, names), ty: expr.to(Type::Bool) },
    };
    Ok(res)
}

/// Checks and translates `if cond { then_b } else { else_b }`.
#[verifier::spinoff_prover]
#[verifier::rlimit(40)]
fn check_if(
    expr: &_Expr,
    cond: &_Expr,
    then_b: &_Expr,
    else_b: &_Expr,
    env: &Environment,
    frame: &mut Frame,
    fragments: &mut Vec<Fragment>,
    names: &mut NameSupply,
) -> (r: Checked<TypedExpr>)
    requires
        env.wf(),
        env.labels_ok(),
        old(frame).wf(),
        old(frame).room() >= 8 * frame_need(**expr),
        nested_fit(**expr),
        *expr.item == ast::Expr::If(*cond, *then_b, *else_b),
    ensures
        r is Ok ==> frag_names(final(fragments)@) == frag_names(old(fragments)@) + spec::declared(**expr),
        r is Ok <==> tc(**expr, env.view()) is Typed,
        r matches Err(Fault::Stuck) <==> tc(**expr, env.view()) is Stuck,
        r matches Err(Fault::Rejected(e)) ==> rejects_with(tc(**expr, env.view()), e),
        r matches Ok(te) ==> (tv(te.ir), st_of(*final(names), *final(frame), final(fragments)@)) == tr_e(**expr, env.temps(), st_of(*old(names), *old(frame), old(fragments)@)),
        final(frame).name() == old(frame).name(),
        r matches Ok(te) ==> tc(**expr, env.view()) == Outcome::Typed(erase(*te.ty.item)) && !(te.ir is Nx),
        r matches Ok(te) ==> te.ty.span == spec::ty_span(**expr),
        small_ctx(**expr, env.view()) ==> (r matches Ok(te) ==> translate::wf(te.ir) && small_ty(erase(*te.ty.item))),
        final(frame).wf(),
        final(frame).counter() >= old(frame).counter() - 8 * frame_need(**expr),
        frags_ok(old(fragments)@) && small_ctx(**expr, env.view()) ==> frags_ok(final(fragments)@),
        frames_wf(old(fragments)@) ==> frames_wf(final(fragments)@),
    decreases **expr, 0nat,
{
    let ghost names0 = frag_names(fragments@);
    proof {
        assert(names0 + Seq::<Seq<char>>::empty() =~= names0);
    }
    let ci = match check_expr(cond, env, frame, fragments, names) {
        Ok(x) => x,
        Err(e) => return Err(e),
    };
    let c = ci.ty.assert_eq_raw(&Type::Bool);
    if c.is_err() {
        return Err(Fault::Rejected(c.unwrap_err()));
    }
    let ti = match check_expr(then_b, env, frame, fragments, names) {
        Ok(x) => x,
        Err(e) => return Err(e),
    };
    let ei = match check_expr(else_b, env, frame, fragments, names) {
        Ok(x) => x,
        Err(e) => return Err(e),
    };
    let c2 = ti.ty.assert_eq(&ei.ty);
    if c2.is_err() {
        return Err(Fault::Rejected(c2.unwrap_err()));
    }
    let ty = ti.ty.at(&**expr);
    proof {
        assert(frag_names(fragments@) =~= names0 + spec::declared(**expr));
    }
    Ok(TypedExpr { ir: translate::if_else(ci.ir, ti.ir, ei.ir, names), ty })
}

/// Checks and translates `let id: ann = rhs; rest`.
#[verifier::spinoff_prover]
fn check_let(
    expr: &_Expr,
    id: &ast::_Ident,
    ann: &Option<_Type>,
    rhs: &_Expr,
    rest: &_Expr,
    env: &Environment,
    frame: &mut Frame,
    fragments: &mut Vec<Fragment>,
    names: &mut NameSupply,
) -> (r: Checked<TypedExpr>)
    requires
        env.wf(),
        env.labels_ok(),
        old(frame).wf(),
        old(frame).room() >= 8 * frame_need(**expr),
        nested_fit(**expr),
        *expr.item == ast::Expr::Let(*id, *ann, *rhs, *rest),
    ensures
        r is Ok ==> frag_names(final(fragments)@) == frag_names(old(fragments)@) + spec::declared(**expr),
        r is Ok <==> tc(**expr, env.view()) is Typed,
        r matches Err(Fault::Stuck) <==> tc(**expr, env.view()) is Stuck,
        r matches Err(Fault::Rejected(e)) ==> rejects_with(tc(**expr, env.view()), e),
        r matches Ok(te) ==> (tv(te.ir), st_of(*final(names), *final(frame), final(fragments)@)) == tr_e(**expr, env.temps(), st_of(*old(names), *old(frame), old(fragments)@)),
        final(frame).name() == old(frame).name(),
        r matches Ok(te) ==> tc(**expr, env.view()) == Outcome::Typed(erase(*te.ty.item)) && !(te.ir is Nx),
        r matches Ok(te) ==> te.ty.span == spec::ty_span(**expr),
        small_ctx(**expr, env.view()) ==> (r matches Ok(te) ==> translate::wf(te.ir) && small_ty(erase(*te.ty.item))),
        final(frame).wf(),
        final(frame).counter() >= old(frame).counter() - 8 * frame_need(**expr),
        frags_ok(old(fragments)@) && small_ctx(**expr, env.view()) ==> frags_ok(final(fragments)@),
        frames_wf(old(fragments)@) ==> frames_wf(final(fragments)@),
    decreases **expr, 0nat,
{
    let ghost names0 = frag_names(fragments@);
    proof {
        assert(names0 + Seq::<Seq<char>>::empty() =~= names0);
    }
    let ri = match check_expr(rhs, env, frame, fragments, names) {
        Ok(x) => x,
        Err(e) => return Err(e),
    };
    if let Some(expected) = ann {
        let c = ri.ty.assert_eq(expected);
        if c.is_err() {
            return Err(Fault::Rejected(c.unwrap_err()));
        }
    }
    let (assign, access) = translate::declare_var(ri.ir, frame, names);
    let local_env = env.with_local((*id.item).clone(), Entry { ty: ri.ty, binding: Binding::Var(access) });
    let rest_info = match check_expr(rest, &local_env, frame, fragments, names) {
        Ok(x) => x,
        Err(e) => return Err(e),
    };
    proof {
        assert(frag_names(fragments@) =~= names0 + spec::declared(**expr));
    }
    Ok(TypedExpr { ir: translate::chain_expr(assign, rest_info.ir, names), ty: rest_info.ty })
}

/// Checks and translates a call `fun(args...)`.
fn check_app(
    expr: &_Expr,
    fun: &_Expr,
    args: &ast::_Vec<_Expr>,
    env: &Environment,
    frame: &mut Frame,
    fragments: &mut Vec<Fragment>,
    names: &mut NameSupply,
) -> (r: Checked<TypedExpr>)
    requires
        *expr.item == ast::Expr::FunApp(*fun, *args),
        env.wf(),
        env.labels_ok(),
        old(frame).wf(),
        old(frame).room() >= 8 * frame_need(**expr),
        nested_fit(**expr),
    ensures
        r is Ok ==> frag_names(final(fragments)@) == frag_names(old(fragments)@) + spec::declared(**expr),
        r is Ok <==> tc(**expr, env.view()) is Typed,
        r matches Err(Fault::Stuck) <==> tc(**expr, env.view()) is Stuck,
        r matches Err(Fault::Rejected(e)) ==> rejects_with(tc(**expr, env.view()), e),
        r matches Ok(te) ==> (tv(te.ir), st_of(*final(names), *final(frame), final(fragments)@)) == tr_e(**expr, env.temps(), st_of(*old(names), *old(frame), old(fragments)@)),
        final(frame).name() == old(frame).name(),
        r matches Ok(te) ==> tc(**expr, env.view()) == Outcome::Typed(erase(*te.ty.item)) && !(te.ir is Nx),
        r matches Ok(te) ==> te.ty.span == spec::ty_span(**expr),
        small_ctx(**expr, env.view()) ==> (r matches Ok(te) ==> translate::wf(te.ir) && small_ty(erase(*te.ty.item))),
        final(frame).wf(),
        final(frame).counter() >= old(frame).counter() - 8 * frame_need(**expr),
        frags_ok(old(fragments)@) && small_ctx(**expr, env.view()) ==> frags_ok(final(fragments)@),
        frames_wf(old(fragments)@) ==> frames_wf(final(fragments)@),
    decreases **expr, 0nat,
{
    let ghost ev = env.view();
    let ghost c0 = frame.counter();
    let ghost nf = frame_need(**fun);
    let ghost all = args.item@;
    let ghost temps = env.temps();
    let fun_info = match check_expr(fun, env, frame, fragments, names) {
        Ok(x) => x,
        Err(e) => return Err(e),
    };
    let ghost s1 = st_of(*names, *frame, fragments@);
    let ghost fv = tv(fun_info.ir);
    match &*fun_info.ty.item {
        Type::Fun(formals, ret) => {
            let c = eq::len_eq(formals, args);
            if c.is_err() {
                proof {
                    lemma_erase_all_len(formals.item@);
                }
                return Err(Fault::Rejected(c.unwrap_err()));
            }
            let ghost fs = erase_all(formals.item@);
            let ghost rt = erase(*ret.item);
            proof {
                lemma_erase_all_len(formals.item@);
                assert(all.skip(0) =~= all);
                assert(fs.skip(0) =~= fs);
                assert(erase(*fun_info.ty.item) == Ty::Fun(fs, Box::new(rt)));
                assert(tc(**expr, ev) == (match tc_args(all, fs, ev) {
                    Outcome::Typed(_) => Outcome::Typed(rt),
                    o => o,
                }));
            }
            let n = args.item.len();
            let mut arg_irs: Vec<translate::Expr> = Vec::new();
            let mut i: usize = 0;
            while i < n
                invariant
                    n == all.len(),
                    all == args.item@,
                    fs == erase_all(formals.item@),
                    fs.len() == n,
                    formals.item@.len() == n,
                    frame_need(**expr) == nf + spec::frame_need_list(all),
                    c0 == old(frame).counter(),
                    i <= n,
                    arg_irs@.len() == i,
                    env.wf(),
                    env.labels_ok(),
                    env.view() == ev,
                    frame.wf(),
                    frag_names(old(fragments)@) + spec::declared(**fun) + spec::declared_list(all)
                        == frag_names(fragments@) + spec::declared_list(all.skip(i as int)),
                    frame.counter() - 8 * spec::frame_need_list(all.skip(i as int)) >= c0 - 8 * nf - 8 * spec::frame_need_list(all),
                    frame.room() >= 8 * spec::frame_need_list(all.skip(i as int)),
                    spec::nested_fit_list(all.skip(i as int)),
                    tc_args(all, fs, ev) == tc_args(all.skip(i as int), fs.skip(i as int), ev),
                    rt == erase(*ret.item),
                    tc(**expr, ev) == (match tc_args(all, fs, ev) {
                        Outcome::Typed(_) => Outcome::Typed(rt),
                        o => o,
                    }),
                    *expr.item == ast::Expr::FunApp(*fun, *args),
                    small_ctx(**expr, ev) ==> spec::small_list(all.skip(i as int)) && small_ty(Ty::Fun(fs, Box::new(erase(*ret.item)))),
                    small_ctx(**expr, ev) ==> forall|j: int| 0 <= j < i ==> translate::wf(#[trigger] arg_irs@[j]),
                    frags_ok(old(fragments)@) && small_ctx(**expr, ev) ==> frags_ok(fragments@),
                    frames_wf(old(fragments)@) ==> frames_wf(fragments@),
                    env.temps() == temps,
                    fv == tv(fun_info.ir),
                    tr_e(**fun, temps, st_of(*old(names), *old(frame), old(fragments)@)) == (fv, s1),
                    tr_list(all, temps, s1) == (tvs(arg_irs@) + tr_list(all.skip(i as int), temps, st_of(*names, *frame, fragments@)).0,
                        tr_list(all.skip(i as int), temps, st_of(*names, *frame, fragments@)).1),
                    frame.name() == old(frame).name(),
                decreases n - i,
            {
                let ghost sk = all.skip(i as int);
                let ghost cur = st_of(*names, *frame, fragments@);
                let ghost prev_irs = arg_irs@;
                proof {
                    assert(sk[0] == all[i as int]);
                    assert(sk.drop_first() =~= all.skip(i + 1));
                    assert(fs.skip(i as int)[0] == fs[i as int]);
                    assert(fs.skip(i as int).drop_first() =~= fs.skip(i + 1));
                    assert(spec::frame_need_list(sk) == frame_need(*all[i as int]) + spec::frame_need_list(all.skip(i + 1)));
                    assert(spec::declared_list(sk) == spec::declared(*all[i as int]) + spec::declared_list(all.skip(i + 1)));
                    assert(decreases_to!(**expr => expr.item));
                    assert(decreases_to!(expr.item => *args));
                    assert(decreases_to!(*args => args.item));
                    assert(decreases_to!(args.item => args.item@));
                    assert(decreases_to!(args.item@ => args.item@[i as int]));
                }
                let ai = match check_expr(&args.item[i], env, frame, fragments, names) {
                    Ok(x) => x,
                    Err(e) => return Err(e),
                };
                let c2 = ai.ty.assert_eq(&formals.item[i]);
                if c2.is_err() {
                    proof {
                        lemma_erase_all_index(formals.item@, i as int);
                    }
                    return Err(Fault::Rejected(c2.unwrap_err()));
                }
                proof {
                    lemma_erase_all_index(formals.item@, i as int);
                }
                proof {
                    assert(frag_names(old(fragments)@) + spec::declared(**fun) + spec::declared_list(all)
                        =~= frag_names(fragments@) + spec::declared_list(all.skip(i + 1)));
                }
                let ghost av = tv(ai.ir);
                let ghost rest = tr_list(all.skip(i + 1), temps, st_of(*names, *frame, fragments@));
                arg_irs.push(ai.ir);
                proof {
                    assert(tr_list(sk, temps, cur) == (seq![av] + rest.0, rest.1));
                    assert(tvs(arg_irs@) =~= tvs(prev_irs).push(av));
                    assert(tvs(prev_irs) + (seq![av] + rest.0) =~= tvs(arg_irs@) + rest.0);
                }
                i = i + 1;
            }
            let ret_ty = ret.at(&**expr);
            proof {
                assert(all.skip(n as int).len() == 0);
                assert(tvs(arg_irs@) + Seq::<translate::TrV>::empty() =~= tvs(arg_irs@));
                assert(spec::declared_list(all.skip(n as int)) =~= Seq::<Seq<char>>::empty());
                assert(frag_names(fragments@) =~= frag_names(old(fragments)@) + spec::declared(**expr));
            }
            Ok(TypedExpr { ir: translate::fun_app(fun_info.ir, arg_irs, names), ty: ret_ty })
        },
        _ => Err(Fault::Rejected(Error::new("expected function").label("not callable", fun_info.ty.span))),
    }
}

/// Type checks a function and translates it into a fragment.
#[verifier::rlimit(60)]
fn emit_fun(sig: &FunSignature, env: &Environment, fragments: &mut Vec<Fragment>, names: &mut NameSupply) -> (r: Checked<Fragment>)
    requires
        env.wf(),
        env.labels_ok(),
        fun_fits(*sig),
    ensures
        r is Ok ==> frag_names(final(fragments)@) == frag_names(old(fragments)@) + spec::declared(*sig.body),
        r matches Ok(f) ==> frag_name(f) == sig.name.item@,
        r is Ok <==> tc_fun(*sig, env.view()) is Typed,
        r matches Err(Fault::Stuck) <==> tc_fun(*sig, env.view()) is Stuck,
        r matches Err(Fault::Rejected(e)) ==> rejects_with(tc_fun(*sig, env.view()), e),
        r matches Ok(f) ==> (frag_v(f), *final(names), frags_v(final(fragments)@)) == tr_fun(*sig, *old(names), frags_v(old(fragments)@)),
        frags_ok(old(fragments)@) && env_small(env.view()) && sig_small(*sig) ==> frags_ok(final(fragments)@)
            && (r matches Ok(f) ==> frag_ok(f)),
        frames_wf(old(fragments)@) ==> frames_wf(final(fragments)@),
        r matches Ok(f) ==> f->frame.wf(),
    decreases *sig, 0nat,
{
    let ghost ev = env.view();
    let ghost ps = sig.params.item@;
    let ghost t0 = names.next_temp;
    let entry = match env.lookup(sig.name.item.as_str()) {
        Some(e) => e,
        None => return Err(Fault::Stuck),
    };
    let label = match &entry.binding {
        Binding::Fun(l) => l.clone(),
        Binding::Var(_) => return Err(Fault::Stuck),
    };
    let n = sig.params.item.len();
    if n > 8 {
        return Err(Fault::Stuck);
    }
    let mut param_names: Vec<String> = Vec::new();
    let mut i: usize = 0;
    while i < n
        invariant
            n == ps.len(),
            ps == sig.params.item@,
            i <= n,
            param_names@.len() == i,
            forall|j: int| 0 <= j < i ==> (#[trigger] param_names@[j])@ == ps[j].0.item@,
        decreases n - i,
    {
        param_names.push((*sig.params.item[i].0.item).clone());
        i = i + 1;
    }
    let mut ctx = FunContext::entry(label, param_names, names);
    let ghost n_entry = *names;
    let mut benv = env.for_body();
    let m = ctx.params.len();
    let mut k: usize = 0;
    proof {
        assert(benv.view().locals =~= Map::<Seq<char>, EntryView>::empty());
        assert(benv.temps() =~= param_temps(ps, t0, 0));
    }
    while k < m
        invariant
            m == n,
            n == ps.len(),
            ps == sig.params.item@,
            m == ctx.params@.len(),
            forall|j: int| 0 <= j < m ==> (#[trigger] ctx.params@[j]).0@ == ps[j].0.item@,
            k <= m,
            benv.wf(),
            benv.labels_ok(),
            benv.view().globals == ev.globals,
            forall|key: Seq<char>| #[trigger] benv.view().locals.contains_key(key) <==> exists|j: int| 0 <= j < k && #[trigger] ps[j].0.item@ == key,
            forall|key: Seq<char>| #[trigger] benv.view().locals.contains_key(key) ==> benv.view().locals[key] == (EntryView {
                ty: erase(*ps[spec::first_param(ps, key)].1.item),
                is_fun: false,
            }),
            forall|j: int| 0 <= j < m ==> (#[trigger] ctx.params@[j]).1 == Access::InReg(Temp(bumps(t0, j as nat))),
            benv.temps() == param_temps(ps, t0, k as nat),
            *names == n_entry,
        decreases m - k,
    {
        let name = &ctx.params[k].0;
        let access = ctx.params[k].1;
        proof {
            assert(ctx.params@[k as int].0@ == ps[k as int].0.item@);
        }
        let j = first_index(&sig.params.item, name);
        benv.insert_local(name.clone(), Entry { ty: sig.params.item[j].1.copy(), binding: Binding::Var(access) });
        proof {
            assert forall|key: Seq<char>| #[trigger] benv.view().locals.contains_key(key) <==> exists|jj: int| 0 <= jj < k + 1 && #[trigger] ps[jj].0.item@ == key by {
                if key == name@ {
                    assert(ps[k as int].0.item@ == key);
                }
                if exists|jj: int| 0 <= jj < k + 1 && #[trigger] ps[jj].0.item@ == key {
                    let jj = choose|jj: int| 0 <= jj < k + 1 && #[trigger] ps[jj].0.item@ == key;
                    if jj < k {
                    } else {
                        assert(key == name@);
                    }
                }
            }
        }
        k = k + 1;
    }
    proof {
        assert(benv.view().locals =~= spec::params_map(ps));
        assert(benv.view() == body_env(ev, ps));
    }
    let collected = collect_locals(&sig.body, &mut benv);
    if collected.is_err() {
        return Err(Fault::Rejected(collected.unwrap_err()));
    }
    proof {
        assert(ctx.frame.room() >= 8 * frame_need(*sig.body));
        if env_small(ev) && sig_small(*sig) {
            lemma_body_env_small(ev, *sig);
            lemma_collect_small(*sig.body, body_env(ev, ps));
        }
    }
    let body_info = match check_expr(&sig.body, &benv, &mut ctx.frame, fragments, names) {
        Ok(x) => x,
        Err(e) => return Err(e),
    };
    let c = body_info.ty.assert_eq(&sig.ret);
    if c.is_err() {
        return Err(Fault::Rejected(c.unwrap_err()));
    }
    Ok(ctx.exit(body_info.ir, names))
}

/// The position of the first parameter with the given name.
fn first_index(ps: &Vec<(ast::_Ident, _Type)>, name: &String) -> (j: usize)
    requires
        exists|i: int| 0 <= i < ps@.len() && #[trigger] ps@[i].0.item@ == name@,
    ensures
        j < ps@.len(),
        j == spec::first_param(ps@, name@),
        ps@[j as int].0.item@ == name@,
{
    let mut j: usize = 0;
    while j < ps.len()
        invariant
            j <= ps@.len(),
            exists|i: int| 0 <= i < ps@.len() && #[trigger] ps@[i].0.item@ == name@,
            forall|i: int| 0 <= i < j ==> (#[trigger] ps@[i]).0.item@ != name@,
        decreases ps@.len() - j,
    {
        if *ps[j].0.item == *name {
            proof {
                let c = spec::first_param(ps@, name@);
                assert(0 <= j < ps@.len() && ps@[j as int].0.item@ == name@ && forall|i: int| 0 <= i < j ==> ps@[i].0.item@ != name@);
                if c < j {
                    assert(ps@[c].0.item@ != name@);
                } else if c > j {
                    assert(ps@[j as int].0.item@ != name@);
                }
            }
            return j;
        }
        j = j + 1;
    }
    proof {
        let i = choose|i: int| 0 <= i < ps@.len() && #[trigger] ps@[i].0.item@ == name@;
        assert(ps@[i].0.item@ != name@);
    }
    0
}

proof fn lemma_body_env_small(env: EnvView, sig: FunSignature)
    requires
        env_small(env),
        sig_small(sig),
    ensures
        env_small(body_env(env, sig.params.item@)),
{
    let ps = sig.params.item@;
    assert forall|k: Seq<char>| #[trigger] spec::params_map(ps).contains_key(k) implies small_ty(spec::params_map(ps)[k].ty) by {
        let i = choose|i: int| 0 <= i < ps.len() && #[trigger] ps[i].0.item@ == k;
        let c = spec::first_param(ps, k);
        assert(0 <= i < ps.len() && ps[i].0.item@ == k);
        lemma_first_param_exists(ps, k, i);
        assert(small_ty(erase(*ps[c].1.item)));
    }
}

proof fn lemma_first_param_exists(ps: Seq<(ast::_Ident, _Type)>, k: Seq<char>, i: int)
    requires
        0 <= i < ps.len(),
        ps[i].0.item@ == k,
    ensures
        0 <= spec::first_param(ps, k) < ps.len(),
        ps[spec::first_param(ps, k)].0.item@ == k,
    decreases i,
{
    if exists|j: int| 0 <= j < i && ps[j].0.item@ == k {
        let j = choose|j: int| 0 <= j < i && ps[j].0.item@ == k;
        lemma_first_param_exists(ps, k, j);
    } else {
        assert(0 <= i < ps.len() && ps[i].0.item@ == k && forall|j: int| 0 <= j < i ==> ps[j].0.item@ != k);
    }
}

proof fn lemma_collect_small(e: Tag<ast::Expr>, env: EnvView)
    requires
        env_small(env),
        expr_small(e),
        tc_collect(e, env) is Ok,
    ensures
        env_small(tc_collect(e, env)->Ok_0),
    decreases e,
{
    match *e.item {
        ast::Expr::FunDec(sig, rest) => {
            lemma_declare_small(env, sig);
            lemma_collect_small(*rest, declare_v(env, sig).unwrap());
        },
        ast::Expr::Let(_, _, _, rest) => {
            lemma_collect_small(*rest, env);
        },
        ast::Expr::Sequence(a, b) => {
            match *a.item {
                ast::Expr::FunDec(sig, _) => {
                    assert(expr_small(*a));
                    lemma_declare_small(env, sig);
                    lemma_collect_small(*b, declare_v(env, sig).unwrap());
                },
                _ => {
                    lemma_collect_small(*b, env);
                },
            }
        },
        _ => {},
    }
}

proof fn lemma_declare_small(env: EnvView, sig: FunSignature)
    requires
        env_small(env),
        sig_small(sig),
        declare_v(env, sig) is Some,
    ensures
        env_small(declare_v(env, sig).unwrap()),
{
    let e2 = declare_v(env, sig).unwrap();
    assert forall|k: Seq<char>| #[trigger] e2.globals.contains_key(k) implies small_ty(e2.globals[k].ty) by {
        if k != sig.name.item@ {
            assert(env.globals.contains_key(k));
        }
    }
    assert forall|k: Seq<char>| #[trigger] e2.locals.contains_key(k) implies small_ty(e2.locals[k].ty) by {
        assert(env.locals.contains_key(k));
    }
}

/// Declares the functions of a body that are visible throughout it.
fn collect_locals(expr: &_Expr, env: &mut Environment) -> (r: Result<()>)
    requires
        old(env).wf(),
    ensures
        final(env).wf(),
        r is Ok <==> tc_collect(**expr, old(env).view()) is Ok,
        r is Ok ==> tc_collect(**expr, old(env).view()) == Ok::<EnvView, (Seq<char>, Labels)>(final(env).view()),
        r matches Err(e) ==> tc_collect(**expr, old(env).view()) == Err::<EnvView, (Seq<char>, Labels)>((e.message(), e.labels())),
        old(env).labels_ok() ==> final(env).labels_ok(),
        final(env).temps() == old(env).temps(),
    decreases **expr,
{
    match &*expr.item {
        ast::Expr::FunDec(sig, rest) => {
            let d = declare_fun(env, sig, &**expr);
            if d.is_err() {
                return d;
            }
            collect_locals(rest, env)
        },
        ast::Expr::Let(_, _, _, rest) => collect_locals(rest, env),
        ast::Expr::Sequence(a, b) => {
            if let ast::Expr::FunDec(sig, _) = &*a.item {
                let d = declare_fun(env, sig, &**a);
                if d.is_err() {
                    return d;
                }
            }
            collect_locals(b, env)
        },
        _ => Ok(()),
    }
}

/// `main` must return unit and take no parameters.
fn validate_main(main_top: &Tag<Top>) -> (r: Result<()>)
    ensures
        r is Ok <==> main_ok(top_sig(*main_top)),
        r matches Err(e) ==> e.message() == main_msg(top_sig(*main_top)),
        r matches Err(e) ==> e.labels() == spec::main_labels(top_sig(*main_top)),
{
    let Top::FunDec(sig) = &*main_top.item;
    if !sig.ret.item.matches(&Type::Unit) {
        let mut m = String::from_str("got ");
        sig.ret.item.write_into(&mut m);
        return Err(Error::new("main function must return Unit").label(m.as_str(), sig.ret.span));
    }
    if sig.params.item.len() != 0 {
        return Err(Error::new("main function cannot have arguments").label("unexpected arguments", sig.params.span));
    }
    Ok(())
}

/// Declares every top-level function, and checks that there is exactly one valid `main`.
fn collect_globals(program: &ast::Program, env: &mut Environment) -> (r: Result<()>)
    requires
        old(env).wf(),
        old(env).view().locals == Map::<Seq<char>, EntryView>::empty(),
        old(env).view().globals == Map::<Seq<char>, EntryView>::empty(),
    ensures
        final(env).wf(),
        old(env).labels_ok() ==> final(env).labels_ok(),
        r is Ok <==> (globals_v(program@, program@.len()) matches Ok((e, Some(mi))) && main_ok(top_sig(program@[mi]))),
        r is Ok ==> (globals_v(program@, program@.len()) matches Ok((e, _)) && e == final(env).view()),
        r matches Err(e) ==> rejects_with(tc_program(program@), e),
{
    let mut main_found: Option<usize> = None;
    let n = program.len();
    let mut i: usize = 0;
    proof {
        assert(env.view() =~= EnvView { locals: Map::empty(), globals: Map::empty() });
    }
    while i < n
        invariant
            n == program@.len(),
            i <= n,
            env.wf(),
            old(env).labels_ok() ==> env.labels_ok(),
            globals_v(program@, i as nat) == Ok::<(EnvView, Option<int>), (Seq<char>, Labels)>((env.view(), match main_found { Some(m) => Some(m as int), None => None::<int> })),
            main_found matches Some(m) ==> m < i,
        decreases n - i,
    {
        let top = &program[i];
        let Top::FunDec(sig) = &*top.item;
        let is_main = str_is_main(sig.name.item.as_str());
        if is_main {
            if main_found.is_some() {
                proof {
                    lemma_globals_none(program@, (i + 1) as nat, n as nat);
                }
                return Err(Error::new("multiple main functions"));
            }
            main_found = Some(i);
        }
        let d = declare_fun(env, sig, top);
        if d.is_err() {
            proof {
                lemma_globals_none(program@, (i + 1) as nat, n as nat);
            }
            return d;
        }
        i = i + 1;
    }
    match main_found {
        None => Err(Error::new("main function not found")),
        Some(m) => validate_main(&program[m]),
    }
}

proof fn lemma_globals_none(p: Seq<Tag<Top>>, i: nat, n: nat)
    requires
        globals_v(p, i) is Err,
        i <= n,
    ensures
        globals_v(p, n) == globals_v(p, i),
    decreases n - i,
{
    if i < n {
        lemma_globals_none(p, i + 1, n);
    }
}

/// Whether a name is `main`.
pub(crate) fn str_is_main(name: &str) -> (r: bool)
    ensures
        r == (name@ == main_name()),
{
    let m = String::from_str("main");
    let s = String::from_str(name);
    s == m
}

} // verus!
