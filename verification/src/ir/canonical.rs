//! Canonical trees: side effects hoisted out of expressions, statements flattened into a list.
use vstd::prelude::*;

use super::symbols::{bump, NameSupply, Temp};
use super::view::{lvs, ev, evs, lemma_evs_all, lemma_evs_small, lemma_evs_cons, lemma_evs_index, lemma_evs_len, lemma_size_v_pos, lemma_size_vs_cons, sv, svs, size_sv, size_v, size_vs, ExprV, StmtV};
use super::{wf_expr, wf_stmt, Expr, Stmt};

verus! {

/// The number of nodes of an expression.
pub open spec fn size_e(e: Expr) -> nat
    decreases e,
{
    match e {
        Expr::Const(_) | Expr::Name(_) | Expr::Temp(_) => 1,
        Expr::BinOp(_, a, b) => 1 + size_e(*a) + size_e(*b),
        Expr::Mem(a) => 1 + size_e(*a),
        Expr::Call(f, args) => 1 + size_e(*f) + size_list(args@),
        Expr::ESeq(s, v) => 1 + size_s(*s) + size_e(*v),
    }
}

/// The number of nodes of a list of expressions.
pub open spec fn size_list(es: Seq<Expr>) -> nat
    decreases es,
{
    if es.len() == 0 {
        0
    } else {
        size_list(es.drop_last()) + size_e(es.last())
    }
}

/// The number of nodes of a statement.
pub open spec fn size_s(s: Stmt) -> nat
    decreases s,
{
    match s {
        Stmt::Move(d, v) => 1 + size_e(d) + size_e(v),
        Stmt::Expr(e) => 1 + size_e(e),
        Stmt::Jump(e, _) => 1 + size_e(e),
        Stmt::CJump(_, a, b, _, _) => 1 + size_e(a) + size_e(b),
        Stmt::Sequence(a, b) => 1 + size_s(*a) + size_s(*b),
        Stmt::Label(_) => 1,
    }
}

pub proof fn lemma_size_e_pos(e: Expr)
    ensures
        size_e(e) >= 1,
{
}

pub proof fn lemma_size_list_first(es: Seq<Expr>)
    requires
        es.len() > 0,
    ensures
        size_list(es) == size_e(es[0]) + size_list(es.drop_first()),
    decreases es.len(),
{
    if es.len() > 1 {
        lemma_size_list_first(es.drop_last());
        assert(es.drop_last().drop_first() =~= es.drop_first().drop_last());
    } else {
        assert(es.drop_last() =~= Seq::<Expr>::empty());
        assert(es.drop_first() =~= Seq::<Expr>::empty());
    }
}

/// An expression with no `ESeq` anywhere inside.
pub open spec fn no_eseq(e: Expr) -> bool
    decreases e,
{
    match e {
        Expr::Const(_) | Expr::Name(_) | Expr::Temp(_) => true,
        Expr::BinOp(_, a, b) => no_eseq(*a) && no_eseq(*b),
        Expr::Mem(a) => no_eseq(*a),
        Expr::Call(f, args) => no_eseq(*f) && forall|i: int| 0 <= i < args@.len() ==> no_eseq(#[trigger] args@[i]),
        Expr::ESeq(_, _) => false,
    }
}

/// A statement whose expressions contain no `ESeq`.
pub open spec fn canonical(s: Stmt) -> bool
    decreases s,
{
    match s {
        Stmt::Move(d, v) => no_eseq(d) && no_eseq(v),
        Stmt::Expr(e) => no_eseq(e),
        Stmt::Jump(e, _) => no_eseq(e),
        Stmt::CJump(_, a, b, _, _) => no_eseq(a) && no_eseq(b),
        Stmt::Sequence(a, b) => canonical(*a) && canonical(*b),
        Stmt::Label(_) => true,
    }
}

/// An entry of a linearized body: canonical, not a sequence, and not the empty statement.
pub open spec fn flat(s: Stmt) -> bool {
    &&& canonical(s)
    &&& !(s is Sequence)
    &&& s != Stmt::Expr(Expr::Const(0))
}

/// Every expression of a list can be handled by the back end.
pub open spec fn all_wf(es: Seq<Expr>) -> bool {
    forall|i: int| 0 <= i < es.len() ==> wf_expr(#[trigger] es[i])
}

/// The cleaned expressions that `reorder` hands back for `es`: as many, free of `ESeq`, still
/// well-formed, and with names and constants left in place.
pub open spec fn cleaned(es: Seq<Expr>, clean: Seq<Expr>) -> bool {
    &&& clean.len() == es.len()
    &&& forall|i: int| 0 <= i < clean.len() ==> no_eseq(#[trigger] clean[i])
    &&& all_wf(es) ==> all_wf(clean)
    &&& forall|i: int| 0 <= i < clean.len() && (es[i] is Name || es[i] is Const) ==> #[trigger] clean[i] == es[i]
}

proof fn lemma_cleaned_cons(orig: Seq<Expr>, c: Expr, rest: Seq<Expr>)
    requires
        orig.len() > 0,
        cleaned(orig.drop_first(), rest),
        no_eseq(c),
        all_wf(orig) ==> wf_expr(c),
        (orig[0] is Name || orig[0] is Const) ==> c == orig[0],
    ensures
        cleaned(orig, seq![c] + rest),
{
    let r = seq![c] + rest;
    assert forall|i: int| 0 <= i < r.len() implies no_eseq(#[trigger] r[i]) by {
        if i > 0 {
            assert(r[i] == rest[i - 1]);
        }
    }
    if all_wf(orig) {
        assert forall|i: int| 0 <= i < orig.drop_first().len() implies wf_expr(#[trigger] orig.drop_first()[i]) by {
            assert(orig.drop_first()[i] == orig[i + 1]);
        }
        assert forall|i: int| 0 <= i < r.len() implies wf_expr(#[trigger] r[i]) by {
            if i > 0 {
                assert(r[i] == rest[i - 1]);
            }
        }
    }
    assert forall|i: int| 0 <= i < r.len() && (orig[i] is Name || orig[i] is Const) implies #[trigger] r[i] == orig[i] by {
        if i > 0 {
            assert(r[i] == rest[i - 1]);
            assert(orig.drop_first()[i - 1] == orig[i]);
        }
    }
}

/// Whether running `stmt` can neither change the value of `expr` nor be affected by it.
fn commutes(stmt: &Stmt, expr: &Expr) -> (r: bool)
    ensures
        r == ((*stmt matches Stmt::Expr(Expr::Const(_))) || expr is Name || expr is Const),
{
    match (stmt, expr) {
        (Stmt::Expr(Expr::Const(_)), _) => true,
        (_, Expr::Name(_)) | (_, Expr::Const(_)) => true,
        _ => false,
    }
}

/// Hoists the side effects out of a list of expressions, left to right: the statement to run
/// first, and the expressions that are left.
#[verifier::spinoff_prover]
#[verifier::rlimit(50)]
fn reorder(exprs: Vec<Expr>, names: &mut NameSupply) -> (r: (Stmt, Vec<Expr>))
    ensures
        cleaned(exprs@, r.1@),
        all_wf(exprs@) ==> canonical(r.0) && wf_stmt(r.0),
        (sv(r.0), evs(r.1@), final(names).next_temp) == reorder_v(evs(exprs@), old(names).next_temp),
        final(names).next_label == old(names).next_label,
    decreases size_list(exprs@), 1nat,
{
    let ghost n0 = names.next_temp;
    proof {
        reveal_with_fuel(wf_stmt, 3);
        reveal_with_fuel(wf_expr, 2);
        reveal_with_fuel(canonical, 3);
    }
    let ghost orig = exprs@;
    if exprs.len() == 0 {
        proof {
            assert(evs(orig) =~= Seq::<ExprV>::empty());
            assert(evs(Seq::<Expr>::empty()) =~= Seq::<ExprV>::empty());
            assert(ev(Expr::Const(0)) == ExprV::Const(0));
            assert(sv(Stmt::Expr(Expr::Const(0))) == nop_v());
        }
        return (Stmt::nop(), Vec::new());
    }
    proof {
        assert(evs(orig) == seq![ev(orig[0])] + evs(orig.drop_first()));
        assert(evs(orig).drop_first() =~= evs(orig.drop_first()));
        assert(evs(orig)[0] == ev(orig[0]));
    }
    let mut exprs = exprs;
    proof {
        lemma_size_list_first(orig);
        lemma_size_e_pos(orig[0]);
    }
    let e0 = exprs.remove(0);
    assert(exprs@ =~= orig.drop_first());
    let ghost g0 = e0;
    let (stmts, clean_expr) = match e0 {
        Expr::Call(f, args) => {
            assert(g0 == Expr::Call(f, args));
            let ghost gf = *f;
            let t = Temp::new(names);
            let mut v: Vec<Expr> = Vec::new();
            v.push(*f);
            let mut args = args;
            let ghost args0 = args@;
            v.append(&mut args);
            proof {
                assert(v@ =~= seq![*f].add(args0));
                lemma_size_list_first(v@);
                assert(v@.drop_first() =~= args0);
                if all_wf(orig) {
                    assert(wf_expr(orig[0]));
                    assert(wf_expr(g0));
                    assert(wf_expr(gf));
                    assert forall|i: int| 0 <= i < v@.len() implies wf_expr(#[trigger] v@[i]) by {
                        if i > 0 {
                            assert(v@[i] == args0[i - 1]);
                            assert(wf_expr(args0[i - 1]));
                        } else {
                            assert(v@[i] == gf);
                        }
                    }
                }
            }
            let ghost vs = v@;
            proof {
                lemma_evs_cons(gf, args0);
                assert(vs =~= seq![gf] + args0);
            }
            let (stms, clean) = reorder(v, names);
            let mut clean = clean;
            let ghost c0 = clean@;
            proof {
                lemma_evs_len(c0);
                assert(evs(c0) == seq![ev(c0[0])] + evs(c0.drop_first()));
                assert(evs(c0).drop_first() =~= evs(c0.drop_first()));
            }
            let f_clean = clean.remove(0);
            proof {
                assert(clean@ =~= c0.drop_first());
                assert forall|i: int| 0 <= i < clean@.len() implies no_eseq(#[trigger] clean@[i]) by {
                    assert(clean@[i] == c0[i + 1]);
                }
                if all_wf(orig) {
                    assert forall|i: int| 0 <= i < clean@.len() implies wf_expr(#[trigger] clean@[i]) by {
                        assert(clean@[i] == c0[i + 1]);
                    }
                }
            }
            let ghost gfc = f_clean;
            let ghost gcl = clean;
            let s1 = Stmt::Sequence(
                Box::new(stms),
                Box::new(Stmt::Move(Expr::Temp(t), Expr::Call(Box::new(f_clean), clean))),
            );
            proof {
                lemma_evs_all();
                assert(ev(g0) == ExprV::Call(Box::new(ev(gf)), evs(args0)));
                assert(evs(gcl@) == evs(c0).drop_first());
                assert(ev(gfc) == evs(c0)[0]);
                assert(ev(Expr::Temp(t)) == ExprV::Temp(t));
                assert(ev(Expr::Call(Box::new(gfc), gcl)) == ExprV::Call(Box::new(ev(gfc)), evs(gcl@)));
                assert(sv(Stmt::Move(Expr::Temp(t), Expr::Call(Box::new(gfc), gcl))) == StmtV::Move(
                    ExprV::Temp(t),
                    ExprV::Call(Box::new(ev(gfc)), evs(gcl@)),
                ));
                assert(ev(Expr::Const(0)) == ExprV::Const(0));
                assert(sv(Stmt::Expr(Expr::Const(0))) == nop_v());
                assert(gfc == c0[0]);
                assert(no_eseq(gfc));
                assert(no_eseq(Expr::Call(Box::new(gfc), gcl)));
                if all_wf(orig) {
                    assert(all_wf(vs));
                    assert(gcl@.len() <= 8);
                    assert(wf_expr(Expr::Call(Box::new(gfc), gcl)));
                    assert(canonical(s1) && wf_stmt(s1));
                }
            }
            proof {
                let (st_s, cl_s, n2) = reorder_v(seq![ev(gf)] + evs(args0), bump(n0));
                assert(t == Temp(n0));
                assert(evs(vs) == seq![ev(gf)] + evs(args0));
                assert(sv(stms) == st_s && evs(c0) == cl_s && names.next_temp == n2);
                assert(sv(s1) == seq_v(st_s, StmtV::Move(ExprV::Temp(Temp(n0)), ExprV::Call(Box::new(cl_s[0]), cl_s.drop_first()))));
                assert(sv(Stmt::Sequence(Box::new(s1), Box::new(Stmt::Expr(Expr::Const(0))))) == seq_v(sv(s1), nop_v()));
            }
            (Stmt::Sequence(Box::new(s1), Box::new(Stmt::nop())), Expr::Temp(t))
        },
        other => {
            assert(g0 == other);
            assert(!(ev(g0) is Call));
            canon_expr(other, names)
        },
    };
    let ghost n1 = names.next_temp;
    proof {
        let first = match evs(orig)[0] {
            ExprV::Call(f, args) => {
                let (stms, clean, n2) = reorder_v(seq![*f] + args, bump(n0));
                (
                    seq_v(seq_v(stms, StmtV::Move(ExprV::Temp(Temp(n0)), ExprV::Call(Box::new(clean[0]), clean.drop_first()))), nop_v()),
                    ExprV::Temp(Temp(n0)),
                    n2,
                )
            },
            other => canon_e_v(other, n0),
        };
        assert((sv(stmts), ev(clean_expr), n1) == first);
    }
    assert(all_wf(orig) ==> canonical(stmts) && wf_stmt(stmts));
    assert(no_eseq(clean_expr));
    assert(all_wf(orig) ==> wf_expr(clean_expr));
    let (stmts_rest, mut clean_exprs) = reorder(exprs, names);
    proof {
        if all_wf(orig) {
            assert forall|i: int| 0 <= i < orig.drop_first().len() implies wf_expr(#[trigger] orig.drop_first()[i]) by {
                assert(orig.drop_first()[i] == orig[i + 1]);
            }
        }
    }
    let ghost rest = clean_exprs@;
    let ghost n3 = names.next_temp;
    let ghost (gst, gsr, gce) = (stmts, stmts_rest, clean_expr);
    proof {
        lemma_evs_all();
        assert(sv(Stmt::Sequence(Box::new(stmts), Box::new(stmts_rest))) == seq_v(sv(stmts), sv(stmts_rest)));
        assert(ev(Expr::Temp(Temp(n3))) == ExprV::Temp(Temp(n3)));
        lemma_commutes_view(stmts_rest, clean_expr);
        assert(evs(orig).drop_first() == evs(orig.drop_first()));
        assert((sv(gsr), evs(rest), n3) == reorder_v(evs(orig).drop_first(), n1));
        assert(sv(Stmt::Move(Expr::Temp(Temp(n3)), gce)) == StmtV::Move(ExprV::Temp(Temp(n3)), ev(gce)));
        assert(sv(Stmt::Sequence(Box::new(Stmt::Move(Expr::Temp(Temp(n3)), gce)), Box::new(gsr))) == seq_v(
            StmtV::Move(ExprV::Temp(Temp(n3)), ev(gce)),
            sv(gsr),
        ));
        assert(sv(Stmt::Sequence(Box::new(gst), Box::new(Stmt::Sequence(Box::new(Stmt::Move(Expr::Temp(Temp(n3)), gce)), Box::new(gsr)))))
            == seq_v(sv(gst), seq_v(StmtV::Move(ExprV::Temp(Temp(n3)), ev(gce)), sv(gsr))));
    }
    assert(all_wf(orig) ==> canonical(stmts_rest) && wf_stmt(stmts_rest));
    if commutes(&stmts_rest, &clean_expr) {
        let ghost c = clean_expr;
        clean_exprs.insert(0, clean_expr);
        proof {
            assert(clean_exprs@ =~= seq![c] + rest);
            lemma_cleaned_cons(orig, c, rest);
            lemma_evs_cons(c, rest);
        }
        (Stmt::Sequence(Box::new(stmts), Box::new(stmts_rest)), clean_exprs)
    } else {
        let t = Temp::new(names);
        let move_to_temp = Stmt::Move(Expr::Temp(t), clean_expr);
        clean_exprs.insert(0, Expr::Temp(t));
        proof {
            assert(clean_exprs@ =~= seq![Expr::Temp(t)] + rest);
            lemma_cleaned_cons(orig, Expr::Temp(t), rest);
            lemma_evs_cons(Expr::Temp(t), rest);
        }
        (
            Stmt::Sequence(
                Box::new(stmts),
                Box::new(Stmt::Sequence(Box::new(move_to_temp), Box::new(stmts_rest))),
            ),
            clean_exprs,
        )
    }
}

proof fn lemma_commutes_view(s: Stmt, e: Expr)
    ensures
        commutes_v(sv(s), ev(e)) == ((s matches Stmt::Expr(Expr::Const(_))) || e is Name || e is Const),
{
    reveal_with_fuel(sv, 2);
    reveal_with_fuel(ev, 2);
    if let Stmt::Expr(x) = s {
        assert(sv(s) == StmtV::Expr(ev(x)));
    }
}

/// Hoists the side effects out of `exprs`, then runs the statement that `assemble` builds from
/// the expressions that are left.
pub fn reorder_stmt_with<F>(exprs: Vec<Expr>, assemble: F, names: &mut NameSupply) -> (r: Stmt)
    where
        F: FnOnce(Vec<Expr>) -> Stmt,
    requires
        forall|v: Vec<Expr>| v@.len() == exprs@.len() ==> call_requires(assemble, (v,)),
    ensures
        r matches Stmt::Sequence(stms, s) && {
            &&& all_wf(exprs@) ==> canonical(*stms) && wf_stmt(*stms)
            &&& exists|clean: Vec<Expr>| cleaned(exprs@, clean@) && call_ensures(assemble, (clean,), *s)
            &&& sv(*stms) == reorder_v(evs(exprs@), old(names).next_temp).0
            &&& exists|clean: Vec<Expr>| evs(clean@) == reorder_v(evs(exprs@), old(names).next_temp).1 && clean@.len() == exprs@.len()
                && call_ensures(assemble, (clean,), *s)
        },
        final(names).next_temp == reorder_v(evs(exprs@), old(names).next_temp).2,
        final(names).next_label == old(names).next_label,
    decreases size_list(exprs@), 2nat,
{
    let (stms, clean_exprs) = reorder(exprs, names);
    let ghost c = clean_exprs;
    let s = assemble(clean_exprs);
    assert(cleaned(exprs@, c@) && call_ensures(assemble, (c,), s));
    assert(evs(c@) == reorder_v(evs(exprs@), old(names).next_temp).1 && c@.len() == exprs@.len() && call_ensures(assemble, (c,), s));
    Stmt::Sequence(Box::new(stms), Box::new(s))
}

/// Hoists the side effects out of `exprs`, and builds an expression from those left.
pub fn reorder_expr_with<F>(exprs: Vec<Expr>, assemble: F, names: &mut NameSupply) -> (r: (Stmt, Expr))
    where
        F: FnOnce(Vec<Expr>) -> Expr,
    requires
        forall|v: Vec<Expr>| v@.len() == exprs@.len() ==> call_requires(assemble, (v,)),
    ensures
        all_wf(exprs@) ==> canonical(r.0) && wf_stmt(r.0),
        exists|clean: Vec<Expr>| cleaned(exprs@, clean@) && call_ensures(assemble, (clean,), r.1),
        sv(r.0) == reorder_v(evs(exprs@), old(names).next_temp).0,
        exists|clean: Vec<Expr>| evs(clean@) == reorder_v(evs(exprs@), old(names).next_temp).1 && clean@.len() == exprs@.len()
            && call_ensures(assemble, (clean,), r.1),
        final(names).next_temp == reorder_v(evs(exprs@), old(names).next_temp).2,
        final(names).next_label == old(names).next_label,
    decreases size_list(exprs@), 2nat,
{
    let (stms, clean_exprs) = reorder(exprs, names);
    let ghost c = clean_exprs;
    let e = assemble(clean_exprs);
    assert(cleaned(exprs@, c@) && call_ensures(assemble, (c,), e));
    assert(evs(c@) == reorder_v(evs(exprs@), old(names).next_temp).1 && c@.len() == exprs@.len() && call_ensures(assemble, (c,), e));
    (stms, e)
}

/// Hoists the side effects out of an expression: the statement to run first, and an
/// expression free of `ESeq`.
#[verifier::spinoff_prover]
#[verifier::rlimit(50)]
fn canon_expr(expr: Expr, names: &mut NameSupply) -> (r: (Stmt, Expr))
    ensures
        no_eseq(r.1),
        wf_expr(expr) ==> canonical(r.0) && wf_stmt(r.0) && wf_expr(r.1),
        (expr is Name || expr is Const) ==> r.1 == expr,
        (sv(r.0), ev(r.1), final(names).next_temp) == canon_e_v(ev(expr), old(names).next_temp),
        final(names).next_label == old(names).next_label,
    decreases size_e(expr), 0nat,
{
    proof {
        reveal_with_fuel(wf_stmt, 3);
        reveal_with_fuel(wf_expr, 2);
        reveal_with_fuel(canonical, 3);
        lemma_evs_all();
    }
    let ghost ge = expr;
    match expr {
        Expr::BinOp(op, l, r) => {
            let ghost (gl, gr) = (*l, *r);
            let mut v: Vec<Expr> = Vec::new();
            v.push(*l);
            v.push(*r);
            proof {
                reveal_with_fuel(size_list, 3);
                assert(v@ =~= seq![gl, gr]);
                lemma_evs_small(gl, gr);
                assert(ev(ge) == ExprV::BinOp(op, Box::new(ev(gl)), Box::new(ev(gr))));
            }
            let (stms, clean) = reorder(v, names);
            let mut el = clean;
            let ghost c0 = el@;
            let r_clean = el.pop().unwrap();
            let l_clean = el.pop().unwrap();
            proof {
                assert(r_clean == c0[1] && l_clean == c0[0]);
            }
            (stms, Expr::BinOp(op, Box::new(l_clean), Box::new(r_clean)))
        },
        Expr::Mem(addr) => {
            let ghost ga = *addr;
            let mut v: Vec<Expr> = Vec::new();
            v.push(*addr);
            proof {
                reveal_with_fuel(size_list, 2);
                assert(v@ =~= seq![ga]);
                lemma_evs_small(ga, ga);
                assert(ev(ge) == ExprV::Mem(Box::new(ev(ga))));
            }
            let (stms, clean) = reorder(v, names);
            let mut el = clean;
            let ghost c0 = el@;
            let a_clean = el.remove(0);
            (stms, Expr::Mem(Box::new(a_clean)))
        },
        Expr::ESeq(s, e) => {
            proof {
                assert(ev(ge) == ExprV::ESeq(Box::new(sv(*s)), Box::new(ev(*e))));
            }
            let stms1 = canon_stmt(*s, names);
            let (stms2, e_clean) = canon_expr(*e, names);
            (Stmt::Sequence(Box::new(stms1), Box::new(stms2)), e_clean)
        },
        Expr::Call(f, args) => {
            let ghost gf = *f;
            let mut v: Vec<Expr> = Vec::new();
            v.push(*f);
            let mut args = args;
            let ghost args0 = args@;
            v.append(&mut args);
            proof {
                assert(v@ =~= seq![gf].add(args0));
                lemma_size_list_first(v@);
                assert(v@.drop_first() =~= args0);
                lemma_evs_cons(gf, args0);
                assert(ev(ge) == ExprV::Call(Box::new(ev(gf)), evs(args0)));
            }
            let (stms, clean) = reorder(v, names);
            let mut el = clean;
            let ghost c0 = el@;
            let f_clean = el.remove(0);
            proof {
                assert(el@ =~= c0.drop_first());
                assert forall|i: int| 0 <= i < el@.len() implies no_eseq(#[trigger] el@[i]) by {
                    assert(el@[i] == c0[i + 1]);
                }
                if wf_expr(ge) {
                    assert forall|i: int| 0 <= i < v@.len() implies wf_expr(#[trigger] v@[i]) by {
                        if i > 0 {
                            assert(v@[i] == args0[i - 1]);
                        }
                    }
                    assert forall|i: int| 0 <= i < el@.len() implies wf_expr(#[trigger] el@[i]) by {
                        assert(el@[i] == c0[i + 1]);
                    }
                }
            }
            (stms, Expr::Call(Box::new(f_clean), el))
        },
        other => {
            proof {
                assert(ev(Expr::Const(0)) == ExprV::Const(0));
                assert(sv(Stmt::Expr(Expr::Const(0))) == nop_v());
            }
            (Stmt::nop(), other)
        },
    }
}

/// Hoists the side effects out of every expression of a statement.
#[verifier::spinoff_prover]
#[verifier::rlimit(50)]
fn canon_stmt(stmt: Stmt, names: &mut NameSupply) -> (r: Stmt)
    ensures
        wf_stmt(stmt) ==> canonical(r) && wf_stmt(r),
        (sv(r), final(names).next_temp) == canon_s_v(sv(stmt), old(names).next_temp),
        final(names).next_label == old(names).next_label,
    decreases size_s(stmt), 0nat,
{
    proof {
        reveal_with_fuel(wf_stmt, 3);
        reveal_with_fuel(wf_expr, 2);
        reveal_with_fuel(size_list, 3);
        reveal_with_fuel(canonical, 3);
        lemma_evs_all();
    }
    let ghost n0 = names.next_temp;
    let ghost gs = stmt;
    match stmt {
        Stmt::Sequence(s1, s2) => {
            proof {
                assert(sv(gs) == StmtV::Sequence(Box::new(sv(*s1)), Box::new(sv(*s2))));
            }
            let a = canon_stmt(*s1, names);
            let b = canon_stmt(*s2, names);
            let res = Stmt::Sequence(Box::new(a), Box::new(b));
            proof {
                assert((sv(res), names.next_temp) == canon_s_v(sv(gs), n0));
            }
            res
        },
        Stmt::Jump(e, labels) => {
            let ghost g = e;
            let mut v: Vec<Expr> = Vec::new();
            v.push(e);
            proof {
                assert(v@ =~= seq![g]);
                lemma_evs_small(g, g);
                assert(sv(gs) == StmtV::Jump(ev(g), lvs(labels@)));
            }
            let (stms, clean) = reorder(v, names);
            let ghost gl = labels;
            let mut el = clean;
            let ghost c0 = el@;
            let x = el.remove(0);
            let res = Stmt::Sequence(Box::new(stms), Box::new(Stmt::Jump(x, labels)));
            proof {
                assert(x == c0[0]);
                assert(evs(c0)[0] == ev(x));
                assert(sv(Stmt::Jump(x, gl)) == StmtV::Jump(ev(x), lvs(gl@)));
                assert((sv(res), names.next_temp) == canon_s_v(sv(gs), n0));
            }
            res
        },
        Stmt::CJump(op, e1, e2, t, f) => {
            let ghost (g1, g2) = (e1, e2);
            let mut v: Vec<Expr> = Vec::new();
            v.push(e1);
            v.push(e2);
            proof {
                assert(v@ =~= seq![g1, g2]);
                lemma_evs_small(g1, g2);
                assert(sv(gs) == StmtV::CJump(op, ev(g1), ev(g2), t.0@, f.0@));
            }
            let (stms, clean) = reorder(v, names);
            let mut el = clean;
            let ghost c0 = el@;
            let c2 = el.pop().unwrap();
            let c1 = el.pop().unwrap();
            proof {
                assert(c2 == c0[1] && c1 == c0[0]);
            }
            let ghost (gt, gf) = (t, f);
            let res = Stmt::Sequence(Box::new(stms), Box::new(Stmt::CJump(op, c1, c2, t, f)));
            proof {
                assert(evs(c0)[0] == ev(c1) && evs(c0)[1] == ev(c2));
                assert(sv(Stmt::CJump(op, c1, c2, gt, gf)) == StmtV::CJump(op, ev(c1), ev(c2), gt.0@, gf.0@));
                assert((sv(res), names.next_temp) == canon_s_v(sv(gs), n0));
            }
            res
        },
        Stmt::Move(Expr::Temp(t), Expr::Call(f, args)) => {
            let ghost gcall = Expr::Call(f, args);
            assert(stmt == Stmt::Move(Expr::Temp(t), gcall));
            let ghost gf = *f;
            let mut v: Vec<Expr> = Vec::new();
            v.push(*f);
            let mut args = args;
            let ghost args0 = args@;
            v.append(&mut args);
            proof {
                assert(v@ =~= seq![gf].add(args0));
                lemma_size_list_first(v@);
                assert(v@.drop_first() =~= args0);
                assert(size_list(v@) == size_e(gf) + size_list(args0));
                assert(size_e(gcall) == 1 + size_e(gf) + size_list(args0));
                lemma_evs_cons(gf, args0);
                assert(ev(gcall) == ExprV::Call(Box::new(ev(gf)), evs(args0)));
                assert(ev(Expr::Temp(t)) == ExprV::Temp(t));
                assert(sv(gs) == StmtV::Move(ExprV::Temp(t), ev(gcall)));
            }
            let (stms, clean) = reorder(v, names);
            let mut el = clean;
            let ghost c0 = el@;
            let f_clean = el.remove(0);
            proof {
                assert(el@ =~= c0.drop_first());
                assert forall|i: int| 0 <= i < el@.len() implies no_eseq(#[trigger] el@[i]) by {
                    assert(el@[i] == c0[i + 1]);
                }
                if wf_stmt(gs) {
                    assert(wf_expr(gcall));
                    assert forall|i: int| 0 <= i < v@.len() implies wf_expr(#[trigger] v@[i]) by {
                        if i > 0 {
                            assert(v@[i] == args0[i - 1]);
                        }
                    }
                    assert forall|i: int| 0 <= i < el@.len() implies wf_expr(#[trigger] el@[i]) by {
                        assert(el@[i] == c0[i + 1]);
                    }
                }
            }
            let ghost (gfc, gel) = (f_clean, el);
            let res = Stmt::Sequence(Box::new(stms), Box::new(Stmt::Move(Expr::Temp(t), Expr::Call(Box::new(f_clean), el))));
            proof {
                assert(gfc == c0[0]);
                assert(evs(c0)[0] == ev(gfc));
                assert(evs(gel@) == evs(c0).drop_first());
                assert(ev(Expr::Call(Box::new(gfc), gel)) == ExprV::Call(Box::new(ev(gfc)), evs(gel@)));
                assert(sv(Stmt::Move(Expr::Temp(t), Expr::Call(Box::new(gfc), gel))) == StmtV::Move(
                    ExprV::Temp(t),
                    ExprV::Call(Box::new(ev(gfc)), evs(gel@)),
                ));
                assert((sv(res), names.next_temp) == canon_s_v(sv(gs), n0));
            }
            res
        },
        Stmt::Move(Expr::Temp(t), src) => {
            let ghost g = src;
            let mut v: Vec<Expr> = Vec::new();
            v.push(src);
            proof {
                assert(v@ =~= seq![g]);
                lemma_evs_small(g, g);
                assert(ev(Expr::Temp(t)) == ExprV::Temp(t));
                assert(sv(gs) == StmtV::Move(ExprV::Temp(t), ev(g)));
            }
            let (stms, clean) = reorder(v, names);
            let mut el = clean;
            let ghost c0 = el@;
            let x = el.remove(0);
            let res = Stmt::Sequence(Box::new(stms), Box::new(Stmt::Move(Expr::Temp(t), x)));
            proof {
                assert(x == c0[0]);
                assert(evs(c0)[0] == ev(x));
                assert(sv(Stmt::Move(Expr::Temp(t), x)) == StmtV::Move(ExprV::Temp(t), ev(x)));
                assert((sv(res), names.next_temp) == canon_s_v(sv(gs), n0));
            }
            res
        },
        Stmt::Move(Expr::Mem(addr), src) => {
            let ghost ga = *addr;
            let ghost g = src;
            assert(stmt == Stmt::Move(Expr::Mem(Box::new(ga)), g));
            assert(size_s(stmt) == 2 + size_e(ga) + size_e(g)) by {
                reveal_with_fuel(size_s, 2);
                reveal_with_fuel(size_e, 2);
            }
            let mut v: Vec<Expr> = Vec::new();
            v.push(*addr);
            v.push(src);
            proof {
                assert(v@ =~= seq![ga, g]);
                assert(v@.drop_last() =~= seq![ga]);
                assert(size_list(v@) == size_e(ga) + size_e(g));
                lemma_evs_small(ga, g);
                assert(ev(Expr::Mem(Box::new(ga))) == ExprV::Mem(Box::new(ev(ga))));
                assert(sv(gs) == StmtV::Move(ExprV::Mem(Box::new(ev(ga))), ev(g)));
            }
            let (stms, clean) = reorder(v, names);
            let mut el = clean;
            let ghost c0 = el@;
            let src_clean = el.pop().unwrap();
            let addr_clean = el.pop().unwrap();
            proof {
                assert(src_clean == c0[1] && addr_clean == c0[0]);
            }
            let ghost (gac, gsc) = (addr_clean, src_clean);
            let res = Stmt::Sequence(Box::new(stms), Box::new(Stmt::Move(Expr::Mem(Box::new(addr_clean)), src_clean)));
            proof {
                assert(evs(c0)[0] == ev(gac) && evs(c0)[1] == ev(gsc));
                assert(ev(Expr::Mem(Box::new(gac))) == ExprV::Mem(Box::new(ev(gac))));
                assert(sv(Stmt::Move(Expr::Mem(Box::new(gac)), gsc)) == StmtV::Move(ExprV::Mem(Box::new(ev(gac))), ev(gsc)));
                assert((sv(res), names.next_temp) == canon_s_v(sv(gs), n0));
            }
            res
        },
        Stmt::Expr(e) => {
            let ghost g = e;
            let mut v: Vec<Expr> = Vec::new();
            v.push(e);
            proof {
                assert(v@ =~= seq![g]);
                lemma_evs_small(g, g);
                assert(sv(gs) == StmtV::Expr(ev(g)));
            }
            let (stms, clean) = reorder(v, names);
            let mut el = clean;
            let ghost c0 = el@;
            let x = el.remove(0);
            let res = Stmt::Sequence(Box::new(stms), Box::new(Stmt::Expr(x)));
            proof {
                assert(x == c0[0]);
                assert(evs(c0)[0] == ev(x));
                assert(sv(Stmt::Expr(x)) == StmtV::Expr(ev(x)));
                assert((sv(res), names.next_temp) == canon_s_v(sv(gs), n0));
            }
            res
        },
        other => {
            proof {
                if gs is Move {
                    assert(sv(gs) == StmtV::Move(ev(gs->Move_0), ev(gs->Move_1)));
                    assert(!(ev(gs->Move_0) is Temp) && !(ev(gs->Move_0) is Mem));
                }
            }
            other
        },
    }
}

/// The statement that does nothing, as a value.
pub open spec fn nop_v() -> StmtV {
    StmtV::Expr(ExprV::Const(0))
}

/// Two statements one after the other, as a value.
pub open spec fn seq_v(a: StmtV, b: StmtV) -> StmtV {
    StmtV::Sequence(Box::new(a), Box::new(b))
}

/// Whether a statement and an expression may swap places: the statement does nothing, or
/// the expression is a name or a constant.
pub open spec fn commutes_v(s: StmtV, e: ExprV) -> bool {
    (s matches StmtV::Expr(ExprV::Const(_))) || e is Name || e is Const
}

/// Hoisting the side effects out of a list of expressions, left to right, with fresh
/// temporaries numbered from `n`: the statement to run first, the expressions left, and the
/// next fresh temporary. A call is first moved into a fresh temporary; an expression whose
/// value the later side effects might change is kept in a fresh temporary.
pub open spec fn reorder_v(es: Seq<ExprV>, n: usize) -> (StmtV, Seq<ExprV>, usize)
    decreases size_vs(es), 1nat,
{
    if es.len() == 0 {
        (nop_v(), Seq::empty(), n)
    } else {
        let (st, ce, n1) = match es[0] {
            ExprV::Call(f, args) => {
                proof {
                    lemma_size_vs_cons(*f, args);
                    lemma_size_v_pos(es[0]);
                }
                let (stms, clean, n2) = reorder_v(seq![*f] + args, bump(n));
                (
                    seq_v(seq_v(stms, StmtV::Move(ExprV::Temp(Temp(n)), ExprV::Call(Box::new(clean[0]), clean.drop_first()))), nop_v()),
                    ExprV::Temp(Temp(n)),
                    n2,
                )
            },
            other => canon_e_v(other, n),
        };
        proof {
            lemma_size_v_pos(es[0]);
        }
        let (rest_st, rest_clean, n3) = reorder_v(es.drop_first(), n1);
        if commutes_v(rest_st, ce) {
            (seq_v(st, rest_st), seq![ce] + rest_clean, n3)
        } else {
            (
                seq_v(st, seq_v(StmtV::Move(ExprV::Temp(Temp(n3)), ce), rest_st)),
                seq![ExprV::Temp(Temp(n3))] + rest_clean,
                bump(n3),
            )
        }
    }
}

/// Hoisting the side effects out of an expression: the statement to run first, an
/// expression free of `ESeq`, and the next fresh temporary.
pub open spec fn canon_e_v(e: ExprV, n: usize) -> (StmtV, ExprV, usize)
    decreases size_v(e), 0nat,
{
    match e {
        ExprV::BinOp(op, l, r) => {
            proof {
                lemma_size_vs_cons(*r, Seq::empty());
                assert(seq![*r] =~= seq![*r] + Seq::<ExprV>::empty());
                lemma_size_vs_cons(*l, seq![*r]);
                assert(seq![*l, *r] =~= seq![*l] + seq![*r]);
            }
            let (st, cl, n1) = reorder_v(seq![*l, *r], n);
            (st, ExprV::BinOp(op, Box::new(cl[0]), Box::new(cl[1])), n1)
        },
        ExprV::Mem(a) => {
            proof {
                lemma_size_vs_cons(*a, Seq::empty());
                assert(seq![*a] =~= seq![*a] + Seq::<ExprV>::empty());
            }
            let (st, cl, n1) = reorder_v(seq![*a], n);
            (st, ExprV::Mem(Box::new(cl[0])), n1)
        },
        ExprV::ESeq(s, v) => {
            let (s1, n1) = canon_s_v(*s, n);
            let (s2, vc, n2) = canon_e_v(*v, n1);
            (seq_v(s1, s2), vc, n2)
        },
        ExprV::Call(f, args) => {
            proof {
                lemma_size_vs_cons(*f, args);
            }
            let (st, cl, n1) = reorder_v(seq![*f] + args, n);
            (st, ExprV::Call(Box::new(cl[0]), cl.drop_first()), n1)
        },
        _ => (nop_v(), e, n),
    }
}

/// Hoisting the side effects out of every expression of a statement: the statement, whose
/// expressions are free of `ESeq`, and the next fresh temporary.
pub open spec fn canon_s_v(s: StmtV, n: usize) -> (StmtV, usize)
    decreases size_sv(s), 0nat,
{
    match s {
        StmtV::Sequence(a, b) => {
            let (ca, n1) = canon_s_v(*a, n);
            let (cb, n2) = canon_s_v(*b, n1);
            (seq_v(ca, cb), n2)
        },
        StmtV::Jump(e, labels) => {
            proof {
                lemma_size_vs_cons(e, Seq::empty());
                assert(seq![e] =~= seq![e] + Seq::<ExprV>::empty());
            }
            let (st, cl, n1) = reorder_v(seq![e], n);
            (seq_v(st, StmtV::Jump(cl[0], labels)), n1)
        },
        StmtV::CJump(op, a, b, t, f) => {
            proof {
                lemma_size_vs_cons(b, Seq::empty());
                assert(seq![b] =~= seq![b] + Seq::<ExprV>::empty());
                lemma_size_vs_cons(a, seq![b]);
                assert(seq![a, b] =~= seq![a] + seq![b]);
            }
            let (st, cl, n1) = reorder_v(seq![a, b], n);
            (seq_v(st, StmtV::CJump(op, cl[0], cl[1], t, f)), n1)
        },
        StmtV::Move(ExprV::Temp(t), ExprV::Call(f, args)) => {
            proof {
                lemma_size_vs_cons(*f, args);
                assert(size_v(ExprV::Call(f, args)) == 1 + size_v(*f) + size_vs(args));
            }
            let (st, cl, n1) = reorder_v(seq![*f] + args, n);
            (seq_v(st, StmtV::Move(ExprV::Temp(t), ExprV::Call(Box::new(cl[0]), cl.drop_first()))), n1)
        },
        StmtV::Move(ExprV::Temp(t), src) => {
            proof {
                lemma_size_vs_cons(src, Seq::empty());
                assert(seq![src] =~= seq![src] + Seq::<ExprV>::empty());
            }
            let (st, cl, n1) = reorder_v(seq![src], n);
            (seq_v(st, StmtV::Move(ExprV::Temp(t), cl[0])), n1)
        },
        StmtV::Move(ExprV::Mem(addr), src) => {
            proof {
                lemma_size_vs_cons(src, Seq::empty());
                assert(seq![src] =~= seq![src] + Seq::<ExprV>::empty());
                lemma_size_vs_cons(*addr, seq![src]);
                assert(seq![*addr, src] =~= seq![*addr] + seq![src]);
                assert(size_v(ExprV::Mem(addr)) == 1 + size_v(*addr));
            }
            let (st, cl, n1) = reorder_v(seq![*addr, src], n);
            (seq_v(st, StmtV::Move(ExprV::Mem(Box::new(cl[0])), cl[1])), n1)
        },
        StmtV::Expr(e) => {
            proof {
                lemma_size_vs_cons(e, Seq::empty());
                assert(seq![e] =~= seq![e] + Seq::<ExprV>::empty());
            }
            let (st, cl, n1) = reorder_v(seq![e], n);
            (seq_v(st, StmtV::Expr(cl[0])), n1)
        },
        _ => (s, n),
    }
}

/// The labels a statement places, anywhere in it (inside its expressions too), in the order
/// in which they are run.
pub open spec fn labels_s(s: StmtV) -> Seq<Seq<char>>
    decreases s,
{
    match s {
        StmtV::Move(d, v) => labels_e(d) + labels_e(v),
        StmtV::Expr(e) => labels_e(e),
        StmtV::Jump(e, _) => labels_e(e),
        StmtV::CJump(_, a, b, _, _) => labels_e(a) + labels_e(b),
        StmtV::Sequence(a, b) => labels_s(*a) + labels_s(*b),
        StmtV::Label(l) => seq![l],
    }
}

/// The labels placed by the statements inside an expression, in the order they are run.
pub open spec fn labels_e(e: ExprV) -> Seq<Seq<char>>
    decreases e,
{
    match e {
        ExprV::BinOp(_, a, b) => labels_e(*a) + labels_e(*b),
        ExprV::Mem(a) => labels_e(*a),
        ExprV::Call(f, args) => labels_e(*f) + labels_es(args),
        ExprV::ESeq(s, v) => labels_s(*s) + labels_e(*v),
        _ => Seq::empty(),
    }
}

/// The labels placed inside a list of expressions, left to right.
pub open spec fn labels_es(es: Seq<ExprV>) -> Seq<Seq<char>>
    decreases es,
{
    if es.len() == 0 {
        Seq::empty()
    } else {
        labels_e(es[0]) + labels_es(es.drop_first())
    }
}

/// The labels placed by a list of statements, in order.
pub open spec fn labels_ss(ss: Seq<StmtV>) -> Seq<Seq<char>>
    decreases ss.len(),
{
    if ss.len() == 0 {
        Seq::empty()
    } else {
        labels_s(ss[0]) + labels_ss(ss.drop_first())
    }
}

proof fn lemma_labels_es_cons(x: ExprV, rest: Seq<ExprV>)
    ensures
        labels_es(seq![x] + rest) == labels_e(x) + labels_es(rest),
{
    assert((seq![x] + rest).drop_first() =~= rest);
    assert((seq![x] + rest)[0] == x);
}

proof fn lemma_labels_es_one(x: ExprV)
    ensures
        labels_es(seq![x]) == labels_e(x),
{
    lemma_labels_es_cons(x, Seq::empty());
    assert(seq![x] + Seq::<ExprV>::empty() =~= seq![x]);
    assert(labels_e(x) + Seq::<Seq<char>>::empty() =~= labels_e(x));
}

proof fn lemma_labels_es_two(x: ExprV, y: ExprV)
    ensures
        labels_es(seq![x, y]) == labels_e(x) + labels_e(y),
{
    lemma_labels_es_cons(x, seq![y]);
    assert(seq![x] + seq![y] =~= seq![x, y]);
    lemma_labels_es_one(y);
}

proof fn lemma_labels_ss_append(a: Seq<StmtV>, b: Seq<StmtV>)
    ensures
        labels_ss(a + b) == labels_ss(a) + labels_ss(b),
    decreases a.len(),
{
    if a.len() == 0 {
        assert(a + b =~= b);
    } else {
        lemma_labels_ss_append(a.drop_first(), b);
        assert((a + b).drop_first() =~= a.drop_first() + b);
        assert((a + b)[0] == a[0]);
    }
}

/// Hoisting side effects out of a list of expressions keeps the labels they place, in order:
/// first those of the statement to run, then those still inside the expressions left.
pub proof fn lemma_reorder_labels(es: Seq<ExprV>, n: usize)
    ensures
        reorder_v(es, n).1.len() == es.len(),
        labels_s(reorder_v(es, n).0) + labels_es(reorder_v(es, n).1) == labels_es(es),
    decreases size_vs(es), 1nat,
{
    reveal_with_fuel(labels_s, 3);
    reveal_with_fuel(labels_e, 3);
    if es.len() > 0 {
        lemma_size_v_pos(es[0]);
        let (st, ce, n1) = match es[0] {
            ExprV::Call(f, args) => {
                lemma_size_vs_cons(*f, args);
                lemma_reorder_labels(seq![*f] + args, bump(n));
                lemma_labels_es_cons(*f, args);
                let (stms, clean, n2) = reorder_v(seq![*f] + args, bump(n));
                assert(clean =~= seq![clean[0]] + clean.drop_first());
                lemma_labels_es_cons(clean[0], clean.drop_first());
                let st = seq_v(seq_v(stms, StmtV::Move(ExprV::Temp(Temp(n)), ExprV::Call(Box::new(clean[0]), clean.drop_first()))), nop_v());
                let call = ExprV::Call(Box::new(clean[0]), clean.drop_first());
                assert(labels_e(call) == labels_e(clean[0]) + labels_es(clean.drop_first()));
                assert(labels_e(call) == labels_es(clean));
                assert(labels_s(StmtV::Move(ExprV::Temp(Temp(n)), call)) =~= labels_es(clean));
                assert(labels_s(nop_v()) =~= Seq::<Seq<char>>::empty());
                assert(labels_s(st) =~= labels_s(stms) + labels_es(clean));
                assert(labels_s(st) =~= labels_es(seq![*f] + args));
                (st, ExprV::Temp(Temp(n)), n2)
            },
            other => {
                lemma_canon_e_labels(other, n);
                canon_e_v(other, n)
            },
        };
        assert(labels_s(st) + labels_e(ce) =~= labels_e(es[0]));
        lemma_reorder_labels(es.drop_first(), n1);
        let (rest_st, rest_clean, n3) = reorder_v(es.drop_first(), n1);
        if commutes_v(rest_st, ce) {
            lemma_labels_es_cons(ce, rest_clean);
            assert(labels_e(ce) =~= Seq::<Seq<char>>::empty() || labels_s(rest_st) =~= Seq::<Seq<char>>::empty());
            assert(labels_s(seq_v(st, rest_st)) + labels_es(seq![ce] + rest_clean) =~= labels_es(es));
        } else {
            lemma_labels_es_cons(ExprV::Temp(Temp(n3)), rest_clean);
            assert(labels_s(seq_v(st, seq_v(StmtV::Move(ExprV::Temp(Temp(n3)), ce), rest_st)))
                + labels_es(seq![ExprV::Temp(Temp(n3))] + rest_clean) =~= labels_es(es));
        }
    }
}

/// Hoisting side effects out of an expression keeps the labels placed inside it, in order.
pub proof fn lemma_canon_e_labels(e: ExprV, n: usize)
    ensures
        labels_s(canon_e_v(e, n).0) + labels_e(canon_e_v(e, n).1) == labels_e(e),
    decreases size_v(e), 0nat,
{
    reveal_with_fuel(labels_s, 3);
    reveal_with_fuel(labels_e, 3);
    match e {
        ExprV::BinOp(op, l, r) => {
            lemma_size_vs_cons(*r, Seq::empty());
            assert(seq![*r] =~= seq![*r] + Seq::<ExprV>::empty());
            lemma_size_vs_cons(*l, seq![*r]);
            assert(seq![*l, *r] =~= seq![*l] + seq![*r]);
            lemma_reorder_labels(seq![*l, *r], n);
            lemma_labels_es_two(*l, *r);
            let cl = reorder_v(seq![*l, *r], n).1;
            assert(cl =~= seq![cl[0], cl[1]]);
            lemma_labels_es_two(cl[0], cl[1]);
        },
        ExprV::Mem(a) => {
            lemma_size_vs_cons(*a, Seq::empty());
            assert(seq![*a] =~= seq![*a] + Seq::<ExprV>::empty());
            lemma_reorder_labels(seq![*a], n);
            lemma_labels_es_one(*a);
            let cl = reorder_v(seq![*a], n).1;
            assert(cl =~= seq![cl[0]]);
            lemma_labels_es_one(cl[0]);
        },
        ExprV::ESeq(s, v) => {
            lemma_canon_s_labels(*s, n);
            let n1 = canon_s_v(*s, n).1;
            lemma_canon_e_labels(*v, n1);
        },
        ExprV::Call(f, args) => {
            lemma_size_vs_cons(*f, args);
            lemma_reorder_labels(seq![*f] + args, n);
            lemma_labels_es_cons(*f, args);
            let cl = reorder_v(seq![*f] + args, n).1;
            assert(cl =~= seq![cl[0]] + cl.drop_first());
            lemma_labels_es_cons(cl[0], cl.drop_first());
        },
        _ => {},
    }
}

/// Hoisting side effects out of a statement keeps the labels it places, in order.
pub proof fn lemma_canon_s_labels(s: StmtV, n: usize)
    ensures
        labels_s(canon_s_v(s, n).0) == labels_s(s),
    decreases size_sv(s), 0nat,
{
    reveal_with_fuel(labels_s, 3);
    reveal_with_fuel(labels_e, 3);
    match s {
        StmtV::Sequence(a, b) => {
            lemma_canon_s_labels(*a, n);
            lemma_canon_s_labels(*b, canon_s_v(*a, n).1);
        },
        StmtV::Jump(e, labels) => {
            lemma_size_vs_cons(e, Seq::empty());
            assert(seq![e] =~= seq![e] + Seq::<ExprV>::empty());
            lemma_reorder_labels(seq![e], n);
            lemma_labels_es_one(e);
            let cl = reorder_v(seq![e], n).1;
            assert(cl =~= seq![cl[0]]);
            lemma_labels_es_one(cl[0]);
        },
        StmtV::CJump(op, a, b, t, f) => {
            lemma_size_vs_cons(b, Seq::empty());
            assert(seq![b] =~= seq![b] + Seq::<ExprV>::empty());
            lemma_size_vs_cons(a, seq![b]);
            assert(seq![a, b] =~= seq![a] + seq![b]);
            lemma_reorder_labels(seq![a, b], n);
            lemma_labels_es_two(a, b);
            let cl = reorder_v(seq![a, b], n).1;
            assert(cl =~= seq![cl[0], cl[1]]);
            lemma_labels_es_two(cl[0], cl[1]);
        },
        StmtV::Move(ExprV::Temp(t), ExprV::Call(f, args)) => {
            lemma_size_vs_cons(*f, args);
            assert(size_v(ExprV::Call(f, args)) == 1 + size_v(*f) + size_vs(args));
            lemma_reorder_labels(seq![*f] + args, n);
            lemma_labels_es_cons(*f, args);
            let cl = reorder_v(seq![*f] + args, n).1;
            assert(cl =~= seq![cl[0]] + cl.drop_first());
            lemma_labels_es_cons(cl[0], cl.drop_first());
        },
        StmtV::Move(ExprV::Temp(t), src) => {
            lemma_size_vs_cons(src, Seq::empty());
            assert(seq![src] =~= seq![src] + Seq::<ExprV>::empty());
            lemma_reorder_labels(seq![src], n);
            lemma_labels_es_one(src);
            let cl = reorder_v(seq![src], n).1;
            assert(cl =~= seq![cl[0]]);
            lemma_labels_es_one(cl[0]);
        },
        StmtV::Move(ExprV::Mem(addr), src) => {
            lemma_size_vs_cons(src, Seq::empty());
            assert(seq![src] =~= seq![src] + Seq::<ExprV>::empty());
            lemma_size_vs_cons(*addr, seq![src]);
            assert(seq![*addr, src] =~= seq![*addr] + seq![src]);
            assert(size_v(ExprV::Mem(addr)) == 1 + size_v(*addr));
            lemma_reorder_labels(seq![*addr, src], n);
            lemma_labels_es_two(*addr, src);
            let cl = reorder_v(seq![*addr, src], n).1;
            assert(cl =~= seq![cl[0], cl[1]]);
            lemma_labels_es_two(cl[0], cl[1]);
        },
        StmtV::Expr(e) => {
            lemma_size_vs_cons(e, Seq::empty());
            assert(seq![e] =~= seq![e] + Seq::<ExprV>::empty());
            lemma_reorder_labels(seq![e], n);
            lemma_labels_es_one(e);
            let cl = reorder_v(seq![e], n).1;
            assert(cl =~= seq![cl[0]]);
            lemma_labels_es_one(cl[0]);
        },
        _ => {},
    }
}

/// Flattening a statement keeps the labels it places, in order.
pub proof fn lemma_flatten_labels(s: StmtV)
    ensures
        labels_ss(flatten_v(s)) == labels_s(s),
    decreases s,
{
    reveal_with_fuel(labels_s, 3);
    reveal_with_fuel(labels_e, 3);
    match s {
        StmtV::Sequence(a, b) => {
            lemma_flatten_labels(*a);
            lemma_flatten_labels(*b);
            lemma_labels_ss_append(flatten_v(*a), flatten_v(*b));
            assert(flatten_v(s) == flatten_v(*a) + flatten_v(*b));
            assert(labels_s(s) == labels_s(*a) + labels_s(*b));
        },
        StmtV::Expr(ExprV::Const(0)) => {
            assert(flatten_v(s) =~= Seq::<StmtV>::empty());
            assert(labels_ss(Seq::<StmtV>::empty()) =~= Seq::<Seq<char>>::empty());
            assert(labels_s(s) =~= Seq::<Seq<char>>::empty());
        },
        _ => {
            assert(flatten_v(s) =~= seq![s]);
            assert(seq![s].drop_first() =~= Seq::<StmtV>::empty());
            assert(labels_ss(seq![s]) == labels_s(s) + labels_ss(Seq::<StmtV>::empty()));
            assert(labels_s(s) + Seq::<Seq<char>>::empty() =~= labels_s(s));
        },
    }
}

/// Linearizing a statement keeps every label it places, anywhere in it, in the order in which
/// they are run.
pub proof fn lemma_linearize_keeps_labels(s: StmtV, n: usize)
    ensures
        labels_ss(flatten_v(canon_s_v(s, n).0)) == labels_s(s),
{
    lemma_canon_s_labels(s, n);
    lemma_flatten_labels(canon_s_v(s, n).0);
}

/// The leaves of a statement value, left to right, without empty statements.
pub open spec fn flatten_v(s: StmtV) -> Seq<StmtV>
    decreases s,
{
    match s {
        StmtV::Sequence(a, b) => flatten_v(*a) + flatten_v(*b),
        StmtV::Expr(ExprV::Const(0)) => Seq::empty(),
        _ => seq![s],
    }
}

/// The leaves of a statement tree, left to right, without empty statements.
pub open spec fn flatten_spec(s: Stmt) -> Seq<Stmt>
    decreases s,
{
    match s {
        Stmt::Sequence(a, b) => flatten_spec(*a) + flatten_spec(*b),
        Stmt::Expr(Expr::Const(0)) => Seq::empty(),
        _ => seq![s],
    }
}

/// Flattening commutes with taking values.
pub proof fn lemma_flatten_view(s: Stmt)
    ensures
        svs(flatten_spec(s)) == flatten_v(sv(s)),
    decreases s,
{
    reveal_with_fuel(sv, 2);
    reveal_with_fuel(ev, 2);
    match s {
        Stmt::Sequence(a, b) => {
            lemma_flatten_view(*a);
            lemma_flatten_view(*b);
            assert(svs(flatten_spec(*a) + flatten_spec(*b)) =~= svs(flatten_spec(*a)) + svs(flatten_spec(*b)));
        },
        Stmt::Expr(e) => {
            assert(sv(s) == StmtV::Expr(ev(e)));
            if e is Const {
                assert(ev(e) == ExprV::Const(e->Const_0));
            } else {
                assert(!(ev(e) is Const));
            }
            assert(svs(flatten_spec(s)) =~= flatten_v(sv(s)));
        },
        _ => {
            assert(svs(flatten_spec(s)) =~= flatten_v(sv(s)));
        },
    }
}

pub proof fn lemma_flatten_flat(s: Stmt)
    requires
        canonical(s),
        wf_stmt(s),
    ensures
        forall|i: int| 0 <= i < flatten_spec(s).len() ==> flat(#[trigger] flatten_spec(s)[i]) && wf_stmt(flatten_spec(s)[i]),
    decreases s,
{
    if let Stmt::Sequence(a, b) = s {
        lemma_flatten_flat(*a);
        lemma_flatten_flat(*b);
        assert forall|i: int| 0 <= i < flatten_spec(s).len() implies flat(#[trigger] flatten_spec(s)[i]) && wf_stmt(flatten_spec(s)[i]) by {
            if i < flatten_spec(*a).len() {
                assert(flatten_spec(s)[i] == flatten_spec(*a)[i]);
            } else {
                assert(flatten_spec(s)[i] == flatten_spec(*b)[i - flatten_spec(*a).len()]);
            }
        }
    }
}

fn flatten(stmt: Stmt, acc: &mut Vec<Stmt>)
    ensures
        final(acc)@ == old(acc)@ + flatten_spec(stmt),
    decreases stmt,
{
    match stmt {
        Stmt::Sequence(a, b) => {
            flatten(*a, acc);
            flatten(*b, acc);
            assert(acc@ =~= old(acc)@ + flatten_spec(stmt));
        },
        Stmt::Expr(Expr::Const(0)) => {
            assert(acc@ =~= old(acc)@ + flatten_spec(stmt));
        },
        s => {
            acc.push(s);
            assert(acc@ =~= old(acc)@ + flatten_spec(stmt));
        },
    }
}

/// The statement as a flat list of canonical statements, in execution order.
pub fn linearize(stmt: Stmt, names: &mut NameSupply) -> (r: Vec<Stmt>)
    ensures
        wf_stmt(stmt) ==> forall|i: int| 0 <= i < r@.len() ==> flat(#[trigger] r@[i]) && wf_stmt(r@[i]),
        svs(r@) == flatten_v(canon_s_v(sv(stmt), old(names).next_temp).0),
        labels_ss(svs(r@)) == labels_s(sv(stmt)),
        final(names).next_temp == canon_s_v(sv(stmt), old(names).next_temp).1,
        final(names).next_label == old(names).next_label,
{
    let c = canon_stmt(stmt, names);
    let mut instructions: Vec<Stmt> = Vec::new();
    flatten(c, &mut instructions);
    proof {
        assert(instructions@ =~= flatten_spec(c));
        lemma_flatten_view(c);
        lemma_linearize_keeps_labels(sv(stmt), old(names).next_temp);
        if wf_stmt(stmt) {
            lemma_flatten_flat(c);
        }
    }
    instructions
}

} // verus!
