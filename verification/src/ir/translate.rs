//! Building intermediate-representation trees for the constructs of the source language.
use vstd::prelude::*;

use super::frame::{param_slots, Access, Frame};
use super::symbols::{bump, bumps, fresh_label_text, Label, NameSupply, Temp};
use super::view::{ev, evs, lemma_evs_append, lemma_evs_small, lvs, sv, svs, ExprV, StmtV};
use super::canonical::{canon_s_v, flat, flatten_v, linearize};
use super::{supported_relop, wf_expr, wf_stmt, Fragment, RelOp};
use crate::ir;

verus! {

/// A translated construct in one of three forms: a value, a statement with no value, or a
/// condition still waiting for its true and false labels (`CJump(op, a, b, t, f)`), whose
/// operands are turned into values only once the labels are there.
#[derive(Debug)]
pub enum Expr {
    Ex(ir::Expr),
    Nx(ir::Stmt),
    Cx(RelOp, Box<Expr>, Box<Expr>),
}

/// Every tree inside a translated construct can be handled by the back end.
pub open spec fn wf(e: Expr) -> bool
    decreases e,
{
    match e {
        Expr::Ex(x) => wf_expr(x),
        Expr::Nx(s) => wf_stmt(s),
        Expr::Cx(op, a, b) => supported_relop(op) && wf(*a) && wf(*b),
    }
}

/// The statements `s[0]; s[1]; ...` nested to the left, or nothing for no statements.
pub open spec fn fold_spec(s: Seq<ir::Stmt>) -> Option<ir::Stmt>
    decreases s.len(),
{
    if s.len() == 0 {
        None
    } else if s.len() == 1 {
        Some(s[0])
    } else {
        Some(ir::Stmt::Sequence(Box::new(fold_spec(s.drop_last()).unwrap()), Box::new(s.last())))
    }
}

pub proof fn lemma_fold_wf(s: Seq<ir::Stmt>)
    requires
        forall|i: int| 0 <= i < s.len() ==> wf_stmt(#[trigger] s[i]),
    ensures
        fold_spec(s) matches Some(f) ==> wf_stmt(f),
        fold_spec(s) is Some <==> s.len() > 0,
    decreases s.len(),
{
    if s.len() > 1 {
        lemma_fold_wf(s.drop_last());
    }
}

/// The value of a condition: a register set to 1, and reset to 0 when the condition is false.
pub open spec fn cx_value(op: RelOp, a: ir::Expr, b: ir::Expr, r: Temp, t: Label, f: Label) -> ir::Expr {
    ir::Expr::ESeq(
        Box::new(fold_spec(seq![
            ir::Stmt::Move(ir::Expr::Temp(r), ir::Expr::Const(1)),
            ir::Stmt::CJump(op, a, b, t, f),
            ir::Stmt::Label(f),
            ir::Stmt::Move(ir::Expr::Temp(r), ir::Expr::Const(0)),
            ir::Stmt::Label(t),
        ]).unwrap()),
        Box::new(ir::Expr::Temp(r)),
    )
}

/// A translated construct as a value.
pub enum TrV {
    Ex(ExprV),
    Nx(StmtV),
    Cx(RelOp, Box<TrV>, Box<TrV>),
}

/// A translated construct's value.
pub open spec fn tv(e: Expr) -> TrV
    decreases e,
{
    match e {
        Expr::Ex(x) => TrV::Ex(ev(x)),
        Expr::Nx(s) => TrV::Nx(sv(s)),
        Expr::Cx(op, a, b) => TrV::Cx(op, Box::new(tv(*a)), Box::new(tv(*b))),
    }
}

/// The values of a list of translated constructs.
pub open spec fn tvs(es: Seq<Expr>) -> Seq<TrV> {
    es.map_values(|e: Expr| tv(e))
}

/// The statements `s[0]; s[1]; ...` nested to the left, as a value (for a non-empty list).
pub open spec fn fold_v(s: Seq<StmtV>) -> StmtV
    decreases s.len(),
{
    if s.len() <= 1 {
        s[0]
    } else {
        StmtV::Sequence(Box::new(fold_v(s.drop_last())), Box::new(s.last()))
    }
}

/// The name of the fresh label numbered `n`.
pub open spec fn lname(n: usize) -> Seq<char> {
    fresh_label_text(n as nat)
}

/// The supply after one more temporary.
pub open spec fn next_temp_of(n: NameSupply) -> NameSupply {
    NameSupply { next_temp: bump(n.next_temp), next_label: n.next_label }
}

/// The value of a condition: register `r` set to 1, and reset to 0 at label `f` when the
/// condition is false (it jumps to `t` when true).
pub open spec fn cx_value_v(op: RelOp, a: ExprV, b: ExprV, r: Temp, t: Seq<char>, f: Seq<char>) -> ExprV {
    ExprV::ESeq(
        Box::new(fold_v(seq![
            StmtV::Move(ExprV::Temp(r), ExprV::Const(1)),
            StmtV::CJump(op, a, b, t, f),
            StmtV::Label(f),
            StmtV::Move(ExprV::Temp(r), ExprV::Const(0)),
            StmtV::Label(t),
        ])),
        Box::new(ExprV::Temp(r)),
    )
}

/// The value of a construct, made with fresh names from `n` on, and the supply after: a value
/// as it is; a statement followed by 0; a condition in a fresh register set to 1, and reset to
/// 0 at the second of two fresh labels when it is false (its operands made after those).
pub open spec fn value_v(e: TrV, n: NameSupply) -> (ExprV, NameSupply)
    decreases e,
{
    match e {
        TrV::Ex(x) => (x, n),
        TrV::Nx(s) => (ExprV::ESeq(Box::new(s), Box::new(ExprV::Const(0))), n),
        TrV::Cx(op, a, b) => {
            let n1 = NameSupply { next_temp: bump(n.next_temp), next_label: bump(bump(n.next_label)) };
            let (av, n2) = value_v(*a, n1);
            let (bv, n3) = value_v(*b, n2);
            (cx_value_v(op, av, bv, Temp(n.next_temp), lname(n.next_label), lname(bump(n.next_label))), n3)
        },
    }
}

/// A construct run for its effect, made with fresh names from `n` on: a value evaluated and
/// dropped; a statement as it is; a condition jumping to one fresh label either way (its
/// operands made after the label).
pub open spec fn effect_v(e: TrV, n: NameSupply) -> (StmtV, NameSupply) {
    match e {
        TrV::Ex(x) => (StmtV::Expr(x), n),
        TrV::Nx(s) => (s, n),
        TrV::Cx(op, a, b) => {
            let n1 = NameSupply { next_temp: n.next_temp, next_label: bump(n.next_label) };
            let (av, n2) = value_v(*a, n1);
            let (bv, n3) = value_v(*b, n2);
            (
                StmtV::Sequence(
                    Box::new(StmtV::CJump(op, av, bv, lname(n.next_label), lname(n.next_label))),
                    Box::new(StmtV::Label(lname(n.next_label))),
                ),
                n3,
            )
        },
    }
}

/// The values of constructs made one after the other, left to right.
pub open spec fn values_v(es: Seq<TrV>, n: NameSupply) -> (Seq<ExprV>, NameSupply)
    decreases es.len(),
{
    if es.len() == 0 {
        (Seq::empty(), n)
    } else {
        let (vs, n1) = values_v(es.drop_last(), n);
        let (v, n2) = value_v(es.last(), n1);
        (vs.push(v), n2)
    }
}

/// The comparison that decides a construct used as a condition, once its labels are there,
/// and the supply after: a value compared with 0; a condition's operands made as values.
pub open spec fn cond_v(e: TrV, n: NameSupply) -> (RelOp, ExprV, ExprV, NameSupply) {
    match e {
        TrV::Ex(x) => (RelOp::Ne, x, ExprV::Const(0), n),
        TrV::Cx(op, a, b) => {
            let (av, n1) = value_v(*a, n);
            let (bv, n2) = value_v(*b, n1);
            (op, av, bv, n2)
        },
        TrV::Nx(_) => (RelOp::Ne, ExprV::Const(0), ExprV::Const(0), n),
    }
}

/// `front` run for its effect, then the value of `back`.
pub open spec fn chain_v(front: TrV, back: TrV, n: NameSupply) -> (TrV, NameSupply) {
    let (s, n1) = effect_v(front, n);
    let (v, n2) = value_v(back, n1);
    (TrV::Ex(ExprV::ESeq(Box::new(s), Box::new(v))), n2)
}

/// `op` on the values of two constructs.
pub open spec fn binop_v(op: ir::BinOp, l: TrV, r: TrV, n: NameSupply) -> (TrV, NameSupply) {
    let (a, n1) = value_v(l, n);
    let (b, n2) = value_v(r, n1);
    (TrV::Ex(ExprV::BinOp(op, Box::new(a), Box::new(b))), n2)
}

/// A comparison of two constructs, as a condition; their values are made only when the
/// condition is used.
pub open spec fn relop_v(op: RelOp, l: TrV, r: TrV, n: NameSupply) -> (TrV, NameSupply) {
    (TrV::Cx(op, Box::new(l), Box::new(r)), n)
}

/// The supply after the three labels and the register of an `if`.
pub open spec fn if_names(n: NameSupply) -> NameSupply {
    NameSupply { next_temp: bump(n.next_temp), next_label: bump(bump(bump(n.next_label))) }
}

/// An `if` as a value in a fresh register `r`: jump on the condition (made after the names
/// of the `if`) to fresh labels `t` or `e`; at `t` move the then-value into `r` and jump to a
/// third fresh label `join`; at `e` move the else-value into `r`.
pub open spec fn if_v(c: TrV, then_b: TrV, else_b: TrV, n: NameSupply) -> (TrV, NameSupply) {
    let t = lname(n.next_label);
    let e = lname(bump(n.next_label));
    let join = lname(bump(bump(n.next_label)));
    let r = Temp(n.next_temp);
    let (op, a, b, n0) = cond_v(c, if_names(n));
    let (tv1, n1) = value_v(then_b, n0);
    let (ev1, n2) = value_v(else_b, n1);
    (
        TrV::Ex(ExprV::ESeq(
            Box::new(fold_v(seq![
                StmtV::CJump(op, a, b, t, e),
                StmtV::Label(t),
                StmtV::Move(ExprV::Temp(r), tv1),
                StmtV::Jump(ExprV::Name(join), seq![join]),
                StmtV::Label(e),
                StmtV::Move(ExprV::Temp(r), ev1),
                StmtV::Label(join),
            ])),
            Box::new(ExprV::Temp(r)),
        )),
        n2,
    )
}

/// A new local variable in a fresh register, and the move of `val` into it.
pub open spec fn assign_v(val: TrV, n: NameSupply) -> (TrV, NameSupply) {
    let (v, n1) = value_v(val, next_temp_of(n));
    (TrV::Nx(StmtV::Move(ExprV::Temp(Temp(n.next_temp)), v)), n1)
}

/// A call of the routine that prints an integer, with the value of `e`.
pub open spec fn print_v(e: TrV, n: NameSupply) -> (TrV, NameSupply) {
    let (v, n1) = value_v(e, n);
    (TrV::Ex(ExprV::Call(Box::new(ExprV::Name(print_routine())), seq![v])), n1)
}

/// A call: the argument values left to right, then the function's value.
pub open spec fn call_v(fun: TrV, args: Seq<TrV>, n: NameSupply) -> (TrV, NameSupply) {
    let (vs, n1) = values_v(args, n);
    let (f, n2) = value_v(fun, n1);
    (TrV::Ex(ExprV::Call(Box::new(f), vs)), n2)
}

/// The value of nested statements is the nesting of their values.
pub proof fn lemma_fold_view(s: Seq<ir::Stmt>)
    requires
        s.len() > 0,
    ensures
        fold_spec(s) is Some,
        sv(fold_spec(s).unwrap()) == fold_v(svs(s)),
    decreases s.len(),
{
    if s.len() > 1 {
        lemma_fold_view(s.drop_last());
        assert(svs(s).drop_last() =~= svs(s.drop_last()));
    }
}

pub proof fn lemma_cx_value_wf(op: RelOp, a: ir::Expr, b: ir::Expr, r: Temp, t: Label, f: Label)
    requires
        supported_relop(op),
        wf_expr(a),
        wf_expr(b),
    ensures
        wf_expr(cx_value(op, a, b, r, t, f)),
{
    let s = seq![
        ir::Stmt::Move(ir::Expr::Temp(r), ir::Expr::Const(1)),
        ir::Stmt::CJump(op, a, b, t, f),
        ir::Stmt::Label(f),
        ir::Stmt::Move(ir::Expr::Temp(r), ir::Expr::Const(0)),
        ir::Stmt::Label(t),
    ];
    reveal_with_fuel(wf_stmt, 2);
    assert forall|i: int| 0 <= i < s.len() implies wf_stmt(#[trigger] s[i]) by {}
    lemma_fold_wf(s);
    reveal_with_fuel(wf_expr, 2);
}

/// Nested statements, left to right.
fn fold_stmts(stmts: Vec<ir::Stmt>) -> (r: Option<ir::Stmt>)
    ensures
        r == fold_spec(stmts@),
{
    let mut v = stmts;
    if v.len() == 0 {
        return None;
    }
    let ghost all = v@;
    let mut acc = v.remove(0);
    let mut k: usize = 1;
    assert(all.take(1).drop_last() =~= Seq::<ir::Stmt>::empty());
    while v.len() > 0
        invariant
            1 <= k <= all.len(),
            all.len() <= usize::MAX,
            v@ == all.skip(k as int),
            Some(acc) == fold_spec(all.take(k as int)),
        decreases v.len(),
    {
        let s = v.remove(0);
        proof {
            assert(all.take(k + 1).drop_last() =~= all.take(k as int));
            assert(all.take(k + 1).last() == s);
        }
        acc = ir::Stmt::Sequence(Box::new(acc), Box::new(s));
        k = k + 1;
        assert(v@ =~= all.skip(k as int));
    }
    assert(all.take(k as int) =~= all);
    Some(acc)
}

/// The five statements that turn a condition into a value.
fn cx_stmts(op: RelOp, a: ir::Expr, b: ir::Expr, r: Temp, t: Label, f: Label) -> (s: ir::Stmt)
    ensures
        ir::Expr::ESeq(Box::new(s), Box::new(ir::Expr::Temp(r))) == cx_value(op, a, b, r, t, f),
        ev(ir::Expr::ESeq(Box::new(s), Box::new(ir::Expr::Temp(r)))) == cx_value_v(op, ev(a), ev(b), r, t.0@, f.0@),
{
    let ghost (ga, gb, gt, gf) = (a, b, t, f);
    let t2 = t.clone();
    let f2 = f.clone();
    let mut v: Vec<ir::Stmt> = Vec::new();
    v.push(ir::Stmt::Move(ir::Expr::Temp(r), ir::Expr::Const(1)));
    v.push(ir::Stmt::CJump(op, a, b, t, f));
    v.push(ir::Stmt::Label(f2));
    v.push(ir::Stmt::Move(ir::Expr::Temp(r), ir::Expr::Const(0)));
    v.push(ir::Stmt::Label(t2));
    let ghost expected = seq![
        ir::Stmt::Move(ir::Expr::Temp(r), ir::Expr::Const(1)),
        ir::Stmt::CJump(op, ga, gb, gt, gf),
        ir::Stmt::Label(gf),
        ir::Stmt::Move(ir::Expr::Temp(r), ir::Expr::Const(0)),
        ir::Stmt::Label(gt),
    ];
    assert(v@ =~= expected);
    proof {
        reveal_with_fuel(sv, 2);
        reveal_with_fuel(ev, 2);
        lemma_fold_view(expected);
        assert(svs(expected) =~= seq![
            StmtV::Move(ExprV::Temp(r), ExprV::Const(1)),
            StmtV::CJump(op, ev(ga), ev(gb), gt.0@, gf.0@),
            StmtV::Label(gf.0@),
            StmtV::Move(ExprV::Temp(r), ExprV::Const(0)),
            StmtV::Label(gt.0@),
        ]);
    }
    let s = fold_stmts(v);
    proof {
        reveal_with_fuel(fold_spec, 6);
    }
    s.unwrap()
}

/// The value of a translated construct.
pub fn un_ex(expr: Expr, names: &mut NameSupply) -> (r: ir::Expr)
    ensures
        wf(expr) ==> wf_expr(r),
        value_v(tv(expr), *old(names)) == (ev(r), *final(names)),
    decreases expr,
{
    proof {
        reveal_with_fuel(wf_expr, 2);
        reveal_with_fuel(ev, 2);
    }
    match expr {
        Expr::Ex(e) => e,
        Expr::Nx(s) => ir::Expr::ESeq(Box::new(s), Box::new(ir::Expr::Const(0))),
        Expr::Cx(op, a, b) => {
            let r = Temp::new(names);
            let t = Label::new(names);
            let f = Label::new(names);
            let ghost (gt, gf) = (t, f);
            let av = un_ex(*a, names);
            let bv = un_ex(*b, names);
            let ghost (ga, gb) = (av, bv);
            let s = cx_stmts(op, av, bv, r, t, f);
            proof {
                if supported_relop(op) && wf_expr(ga) && wf_expr(gb) {
                    lemma_cx_value_wf(op, ga, gb, r, gt, gf);
                }
            }
            ir::Expr::ESeq(Box::new(s), Box::new(ir::Expr::Temp(r)))
        },
    }
}

/// A translated construct run for its effect only.
pub fn un_nx(expr: Expr, names: &mut NameSupply) -> (r: ir::Stmt)
    ensures
        wf(expr) ==> wf_stmt(r),
        effect_v(tv(expr), *old(names)) == (sv(r), *final(names)),
{
    proof {
        reveal_with_fuel(wf_stmt, 2);
        reveal_with_fuel(sv, 2);
        reveal_with_fuel(ev, 2);
    }
    match expr {
        Expr::Ex(e) => ir::Stmt::Expr(e),
        Expr::Nx(s) => s,
        Expr::Cx(op, a, b) => {
            let join = Label::new(names);
            let j2 = join.clone();
            let j3 = join.clone();
            let av = un_ex(*a, names);
            let bv = un_ex(*b, names);
            ir::Stmt::Sequence(
                Box::new(ir::Stmt::CJump(op, av, bv, join, j2)),
                Box::new(ir::Stmt::Label(j3)),
            )
        },
    }
}

/// A translated construct used as a condition, once its labels are there: the comparison
/// that decides it.
pub fn un_cx(expr: Expr, names: &mut NameSupply) -> (r: (RelOp, ir::Expr, ir::Expr))
    requires
        !(expr is Nx),
    ensures
        wf(expr) ==> supported_relop(r.0) && wf_expr(r.1) && wf_expr(r.2),
        cond_v(tv(expr), *old(names)) == (r.0, ev(r.1), ev(r.2), *final(names)),
{
    proof {
        reveal_with_fuel(ev, 2);
    }
    match expr {
        Expr::Ex(e) => (RelOp::Ne, e, ir::Expr::Const(0)),
        Expr::Cx(op, a, b) => {
            let av = un_ex(*a, names);
            let bv = un_ex(*b, names);
            (op, av, bv)
        },
        Expr::Nx(_) => {
            proof {
                assert(false);
            }
            (RelOp::Ne, ir::Expr::Const(0), ir::Expr::Const(0))
        },
    }
}

/// Runs `front` for its effect, then gives the value of `back`.
pub fn chain_expr(front: Expr, back: Expr, names: &mut NameSupply) -> (r: Expr)
    ensures
        wf(front) && wf(back) ==> wf(r),
        chain_v(tv(front), tv(back), *old(names)) == (tv(r), *final(names)),
{
    let stmt = un_nx(front, names);
    let expr = un_ex(back, names);
    Expr::Ex(ir::Expr::ESeq(Box::new(stmt), Box::new(expr)))
}

/// `if cond { then_b } else { else_b }` as a value held in a fresh register.
pub fn if_else(cond: Expr, then_b: Expr, else_b: Expr, names: &mut NameSupply) -> (r: Expr)
    requires
        !(cond is Nx),
    ensures
        wf(cond) && wf(then_b) && wf(else_b) ==> wf(r),
        if_v(tv(cond), tv(then_b), tv(else_b), *old(names)) == (tv(r), *final(names)),
{
    let ghost n0 = *names;
    let t = Label::new(names);
    let e = Label::new(names);
    let join = Label::new(names);
    let ghost (gt, ge, gj) = (t, e, join);
    let r = Temp::new(names);
    let ghost n1 = *names;
    let (op, a, b) = un_cx(cond, names);
    let then_v = un_ex(then_b, names);
    let else_v = un_ex(else_b, names);
    let ghost (gtv, gev) = (then_v, else_v);
    let mut v: Vec<ir::Stmt> = Vec::new();
    let t2 = t.clone();
    let e2 = e.clone();
    let j2 = join.clone();
    let j3 = join.clone();
    let ghost (ga, gb) = (a, b);
    v.push(ir::Stmt::CJump(op, a, b, t, e));
    v.push(ir::Stmt::Label(t2));
    v.push(ir::Stmt::Move(ir::Expr::Temp(r), then_v));
    let mut targets: Vec<Label> = Vec::new();
    targets.push(j2);
    v.push(ir::Stmt::Jump(ir::Expr::Name(j3), targets));
    v.push(ir::Stmt::Label(e2));
    v.push(ir::Stmt::Move(ir::Expr::Temp(r), else_v));
    v.push(ir::Stmt::Label(join));
    let ghost vs = v@;
    proof {
        reveal_with_fuel(sv, 2);
        reveal_with_fuel(ev, 2);
        assert(vs[3] matches ir::Stmt::Jump(ir::Expr::Name(j), tg) && j == gj && tg@ == seq![gj]);
        assert(lvs(seq![gj]) =~= seq![gj.0@]);
        reveal_with_fuel(wf_stmt, 2);
        if wf(cond) && wf(then_b) && wf(else_b) {
            assert forall|i: int| 0 <= i < vs.len() implies wf_stmt(#[trigger] vs[i]) by {}
            lemma_fold_wf(vs);
        }
        assert(vs.len() > 0);
        lemma_fold_view(vs);
        assert(svs(vs) =~= seq![
            StmtV::CJump(op, ev(ga), ev(gb), gt.0@, ge.0@),
            StmtV::Label(gt.0@),
            StmtV::Move(ExprV::Temp(r), ev(gtv)),
            StmtV::Jump(ExprV::Name(gj.0@), seq![gj.0@]),
            StmtV::Label(ge.0@),
            StmtV::Move(ExprV::Temp(r), ev(gev)),
            StmtV::Label(gj.0@),
        ]);
    }
    let stmts = fold_stmts(v);
    proof {
        reveal_with_fuel(fold_spec, 2);
        reveal_with_fuel(wf_expr, 2);
    }
    let res = Expr::Ex(ir::Expr::ESeq(Box::new(stmts.unwrap()), Box::new(ir::Expr::Temp(r))));
    proof {
        assert(n1 == if_names(n0));
    }
    res
}

/// The unit value.
pub fn unit() -> (r: Expr)
    ensures
        r == Expr::Ex(ir::Expr::Const(0)),
        tv(r) == TrV::Ex(ExprV::Const(0)),
{
    proof {
        reveal_with_fuel(ev, 2);
    }
    Expr::Ex(ir::Expr::Const(0))
}

/// An integer constant.
pub fn integer(i: i64) -> (r: Expr)
    ensures
        r == Expr::Ex(ir::Expr::Const(i)),
        tv(r) == TrV::Ex(ExprV::Const(i)),
{
    proof {
        reveal_with_fuel(ev, 2);
    }
    Expr::Ex(ir::Expr::Const(i))
}

/// Where a variable's value is read and written.
pub open spec fn access_expr(access: Access) -> ir::Expr {
    match access {
        Access::InReg(t) => ir::Expr::Temp(t),
    }
}

fn mem(access: &Access) -> (r: ir::Expr)
    ensures
        r == access_expr(*access),
{
    match access {
        Access::InReg(temp) => ir::Expr::Temp(*temp),
    }
}

/// The value of a variable.
pub fn var(access: &Access) -> (r: Expr)
    ensures
        r == Expr::Ex(access_expr(*access)),
        tv(r) == TrV::Ex(match *access {
            Access::InReg(t) => ExprV::Temp(t),
        }),
{
    proof {
        reveal_with_fuel(ev, 2);
    }
    Expr::Ex(mem(access))
}

/// The address of a function.
pub fn fun(label: &Label) -> (r: Expr)
    ensures
        r == Expr::Ex(ir::Expr::Name(*label)),
        tv(r) == TrV::Ex(ExprV::Name(label.0@)),
{
    proof {
        reveal_with_fuel(ev, 2);
    }
    Expr::Ex(ir::Expr::Name(label.clone()))
}

/// `op(l, r)` on the values of two constructs.
fn arithmetic_op(op: ir::BinOp, l: Expr, r: Expr, names: &mut NameSupply) -> (res: Expr)
    ensures
        ir::supported_binop(op) && wf(l) && wf(r) ==> wf(res),
        binop_v(op, tv(l), tv(r), *old(names)) == (tv(res), *final(names)),
{
    let a = un_ex(l, names);
    let b = un_ex(r, names);
    Expr::Ex(ir::Expr::BinOp(op, Box::new(a), Box::new(b)))
}

pub fn op_add(l: Expr, r: Expr, names: &mut NameSupply) -> (res: Expr)
    ensures
        wf(l) && wf(r) ==> wf(res),
        binop_v(ir::BinOp::Add, tv(l), tv(r), *old(names)) == (tv(res), *final(names)),
{
    arithmetic_op(ir::BinOp::Add, l, r, names)
}

pub fn op_sub(l: Expr, r: Expr, names: &mut NameSupply) -> (res: Expr)
    ensures
        wf(l) && wf(r) ==> wf(res),
        binop_v(ir::BinOp::Sub, tv(l), tv(r), *old(names)) == (tv(res), *final(names)),
{
    arithmetic_op(ir::BinOp::Sub, l, r, names)
}

pub fn op_mul(l: Expr, r: Expr, names: &mut NameSupply) -> (res: Expr)
    ensures
        wf(l) && wf(r) ==> wf(res),
        binop_v(ir::BinOp::Mul, tv(l), tv(r), *old(names)) == (tv(res), *final(names)),
{
    arithmetic_op(ir::BinOp::Mul, l, r, names)
}

pub fn op_div(l: Expr, r: Expr, names: &mut NameSupply) -> (res: Expr)
    ensures
        wf(l) && wf(r) ==> wf(res),
        binop_v(ir::BinOp::Div, tv(l), tv(r), *old(names)) == (tv(res), *final(names)),
{
    arithmetic_op(ir::BinOp::Div, l, r, names)
}

/// A comparison of the values of two constructs, as a condition.
fn relational_op(op: RelOp, l: Expr, r: Expr, names: &mut NameSupply) -> (res: Expr)
    ensures
        supported_relop(op) && wf(l) && wf(r) ==> wf(res),
        relop_v(op, tv(l), tv(r), *old(names)) == (tv(res), *final(names)),
{
    Expr::Cx(op, Box::new(l), Box::new(r))
}

pub fn op_gt(l: Expr, r: Expr, names: &mut NameSupply) -> (res: Expr)
    ensures
        wf(l) && wf(r) ==> wf(res),
        relop_v(RelOp::Gt, tv(l), tv(r), *old(names)) == (tv(res), *final(names)),
{
    relational_op(RelOp::Gt, l, r, names)
}

pub fn op_ge(l: Expr, r: Expr, names: &mut NameSupply) -> (res: Expr)
    ensures
        wf(l) && wf(r) ==> wf(res),
        relop_v(RelOp::Ge, tv(l), tv(r), *old(names)) == (tv(res), *final(names)),
{
    relational_op(RelOp::Ge, l, r, names)
}

pub fn op_lt(l: Expr, r: Expr, names: &mut NameSupply) -> (res: Expr)
    ensures
        wf(l) && wf(r) ==> wf(res),
        relop_v(RelOp::Lt, tv(l), tv(r), *old(names)) == (tv(res), *final(names)),
{
    relational_op(RelOp::Lt, l, r, names)
}

pub fn op_le(l: Expr, r: Expr, names: &mut NameSupply) -> (res: Expr)
    ensures
        wf(l) && wf(r) ==> wf(res),
        relop_v(RelOp::Le, tv(l), tv(r), *old(names)) == (tv(res), *final(names)),
{
    relational_op(RelOp::Le, l, r, names)
}

pub fn op_eq(l: Expr, r: Expr, names: &mut NameSupply) -> (res: Expr)
    ensures
        wf(l) && wf(r) ==> wf(res),
        relop_v(RelOp::Eq, tv(l), tv(r), *old(names)) == (tv(res), *final(names)),
{
    relational_op(RelOp::Eq, l, r, names)
}

pub fn op_ne(l: Expr, r: Expr, names: &mut NameSupply) -> (res: Expr)
    ensures
        wf(l) && wf(r) ==> wf(res),
        relop_v(RelOp::Ne, tv(l), tv(r), *old(names)) == (tv(res), *final(names)),
{
    relational_op(RelOp::Ne, l, r, names)
}

/// A new local variable: a fresh slot in the frame and the move of `val` into it.
pub fn declare_var(val: Expr, cur_frame: &mut Frame, names: &mut NameSupply) -> (r: (Expr, Access))
    requires
        old(cur_frame).wf(),
        old(cur_frame).room() >= 8,
    ensures
        final(cur_frame).wf(),
        final(cur_frame).counter() == old(cur_frame).counter() - 8,
        final(cur_frame).slots() == old(cur_frame).slots().insert(old(names).next_temp, old(cur_frame).counter() as i32),
        final(cur_frame).name() == old(cur_frame).name(),
        r.1 == Access::InReg(Temp(old(names).next_temp)),
        assign_v(tv(val), *old(names)) == (tv(r.0), *final(names)),
        wf(val) ==> wf(r.0),
{
    proof {
        reveal_with_fuel(sv, 2);
        reveal_with_fuel(ev, 2);
    }
    let access = cur_frame.alloc_local(names);
    let v = un_ex(val, names);
    let assignment = ir::Stmt::Move(mem(&access), v);
    (Expr::Nx(assignment), access)
}

/// The label of a function: its name.
pub fn get_label(id: &str) -> (r: Label)
    ensures
        r.0@ == id@,
{
    Label::with_name(id)
}

/// The name of the runtime routine that prints an integer.
pub open spec fn print_routine() -> Seq<char> {
    "print_int64"@
}

/// A call of the runtime routine that prints an integer.
pub fn print_int(e: Expr, names: &mut NameSupply) -> (r: Expr)
    ensures
        wf(e) ==> wf(r),
        print_v(tv(e), *old(names)) == (tv(r), *final(names)),
{
    let print_label = Label::with_name("print_int64");
    let v = un_ex(e, names);
    let mut args: Vec<ir::Expr> = Vec::new();
    args.push(v);
    assert(args@[0] == v);
    proof {
        reveal_with_fuel(wf_expr, 2);
        reveal_with_fuel(ev, 2);
        assert(args@ =~= seq![v]);
        lemma_evs_small(v, v);
    }
    Expr::Ex(ir::Expr::Call(Box::new(ir::Expr::Name(print_label)), args))
}

/// A call of a function value with argument values.
pub fn fun_app(fun: Expr, args: Vec<Expr>, names: &mut NameSupply) -> (r: Expr)
    ensures
        wf(fun) && args@.len() <= ir::max_args() && (forall|i: int| 0 <= i < args@.len() ==> wf(#[trigger] args@[i])) ==> wf(r),
        call_v(tv(fun), tvs(args@), *old(names)) == (tv(r), *final(names)),
{
    let ghost orig = args@;
    let ghost n0 = *names;
    let mut rest = args;
    let mut ir_args: Vec<ir::Expr> = Vec::new();
    let ghost n = orig.len();
    proof {
        assert(orig.take(0) =~= Seq::<Expr>::empty());
        assert(tvs(orig.take(0)) =~= Seq::<TrV>::empty());
        assert(evs(ir_args@) =~= Seq::<ExprV>::empty());
    }
    while rest.len() > 0
        invariant
            n == orig.len(),
            ir_args@.len() + rest@.len() == n,
            rest@ == orig.skip(ir_args@.len() as int),
            forall|i: int| 0 <= i < ir_args@.len() ==> (wf(orig[i]) ==> wf_expr(#[trigger] ir_args@[i])),
            values_v(tvs(orig.take(ir_args@.len() as int)), n0) == (evs(ir_args@), *names),
        decreases rest@.len(),
    {
        let ghost k = ir_args@.len();
        let ghost old_rest = rest@;
        let ghost prev_args = ir_args@;
        let a = rest.remove(0);
        assert(rest@ =~= old_rest.drop_first());
        assert(old_rest =~= orig.skip(k as int));
        assert(a == orig[k as int]);
        let x = un_ex(a, names);
        ir_args.push(x);
        proof {
            let es = tvs(orig.take((k + 1) as int));
            assert(es.drop_last() =~= tvs(orig.take(k as int)));
            assert(es.last() == tv(a));
            lemma_evs_append(prev_args, seq![x]);
            lemma_evs_small(x, x);
            assert(ir_args@ =~= prev_args + seq![x]);
            assert(evs(ir_args@) =~= evs(prev_args).push(ev(x)));
        }
        assert(rest@ =~= orig.skip(ir_args@.len() as int));
    }
    let f = un_ex(fun, names);
    proof {
        reveal_with_fuel(wf_expr, 2);
        reveal_with_fuel(ev, 2);
        assert(orig.skip(ir_args@.len() as int).len() == 0);
        assert(orig.take(n as int) =~= orig);
    }
    Expr::Ex(ir::Expr::Call(Box::new(f), ir_args))
}

/// What a function's translation carries: its label, its frame, where its parameters live,
/// and the moves that copy the incoming argument registers into them.
#[derive(Debug)]
pub struct FunContext {
    pub label: Label,
    pub frame: Frame,
    pub params: Vec<(String, Access)>,
    pub prolog: Option<ir::Stmt>,
}

/// The moves at the start of a function: the `i`-th argument register into the place of the
/// `i`-th parameter.
pub open spec fn prolog_moves(params: Seq<(String, Access)>) -> Seq<ir::Stmt> {
    Seq::new(params.len(), |i: int| ir::Stmt::Move(access_expr(params[i].1), ir::Expr::Temp(Temp((3 + i) as usize))))
}

/// The moves at the start of a function with `n` parameters whose registers are numbered
/// from `t0` on, as values.
pub open spec fn prolog_v(t0: usize, n: nat) -> Seq<StmtV> {
    Seq::new(n, |i: int| StmtV::Move(ExprV::Temp(Temp(bumps(t0, i as nat))), ExprV::Temp(Temp((3 + i) as usize))))
}

/// An optional statement's value.
pub open spec fn opt_sv(s: Option<ir::Stmt>) -> Option<StmtV> {
    match s {
        Some(x) => Some(sv(x)),
        None => None,
    }
}

/// The body of a finished function, and the supply after: the body's value, after the prolog,
/// moved into the return-value register, then linearized.
pub open spec fn exit_v(prolog: Option<StmtV>, body: TrV, n: NameSupply) -> (Seq<StmtV>, NameSupply) {
    let (v, n1) = value_v(body, n);
    let full = match prolog {
        Some(p) => ExprV::ESeq(Box::new(p), Box::new(v)),
        None => v,
    };
    let (c, t) = canon_s_v(StmtV::Move(ExprV::Temp(Temp(2)), full), n1.next_temp);
    (flatten_v(c), NameSupply { next_temp: t, next_label: n1.next_label })
}

impl FunContext {
    /// The moves at the start of the function are well formed.
    pub open spec fn prolog_wf(&self) -> bool {
        self.prolog matches Some(p) ==> wf_stmt(p)
    }

    /// Sets up a function with the given parameters: a fresh frame with one slot per parameter,
    /// filled from the argument registers in order.
    pub fn entry(label: Label, param_names: Vec<String>, names: &mut NameSupply) -> (r: Self)
        requires
            param_names@.len() <= 8,
        ensures
            r.label == label,
            r.frame.wf(),
            r.frame.counter() == -24 - 8 * param_names@.len(),
            r.frame.slots() == param_slots(Map::empty(), old(names).next_temp, -24, param_names@.len() as nat),
            r.frame.name() == label.0@,
            r.params@.len() == param_names@.len(),
            forall|i: int| 0 <= i < r.params@.len() ==> (#[trigger] r.params@[i]).0@ == param_names@[i]@,
            r.prolog_wf(),
            r.prolog == fold_spec(prolog_moves(r.params@)),
            forall|i: int| 0 <= i < r.params@.len() ==> (#[trigger] r.params@[i]).1 == Access::InReg(Temp(bumps(old(names).next_temp, i as nat))),
            *final(names) == (NameSupply { next_temp: bumps(old(names).next_temp, param_names@.len() as nat), next_label: old(names).next_label }),
            r.prolog is Some <==> param_names@.len() > 0,
            opt_sv(r.prolog) matches Some(p) ==> p == fold_v(prolog_v(old(names).next_temp, param_names@.len() as nat)),
    {
        let ghost n0 = *names;
        let mut frame = Frame::new(label.0.clone());
        let n = param_names.len();
        let accesses = frame.alloc_params(n, names);
        let ghost n1 = *names;
        let mut prolog_stmts: Vec<ir::Stmt> = Vec::new();
        let mut i: usize = 0;
        while i < n
            invariant
                i <= n <= 8,
                accesses@.len() == n,
                prolog_stmts@.len() == i,
                forall|j: int| 0 <= j < i ==> wf_stmt(#[trigger] prolog_stmts@[j]),
                forall|j: int| 0 <= j < i ==> #[trigger] prolog_stmts@[j] == ir::Stmt::Move(access_expr(accesses@[j]), ir::Expr::Temp(Temp((3 + j) as usize))),
                *names == n1,
            decreases n - i,
        {
            let dst = mem(&accesses[i]);
            let src = frame.get_incoming_arg(i);
            let v = un_ex(src, names);
            prolog_stmts.push(ir::Stmt::Move(dst, v));
            proof {
                reveal_with_fuel(wf_stmt, 2);
                assert(wf_stmt(prolog_stmts@[i as int]));
            }
            i = i + 1;
        }
        let mut params: Vec<(String, Access)> = Vec::new();
        let mut k: usize = 0;
        let mut names_left = param_names;
        let ghost pn = names_left@;
        while k < n
            invariant
                k <= n,
                n == pn.len(),
                accesses@.len() == n,
                names_left@ == pn.skip(k as int),
                params@.len() == k,
                forall|j: int| 0 <= j < k ==> (#[trigger] params@[j]).0@ == pn[j]@,
                forall|j: int| 0 <= j < k ==> (#[trigger] params@[j]).1 == accesses@[j],
            decreases n - k,
        {
            let nm = names_left.remove(0);
            assert(names_left@ =~= pn.skip(k + 1));
            assert(nm == pn[k as int]);
            params.push((nm, accesses[k]));
            k = k + 1;
        }
        let ghost ps = prolog_stmts@;
        let prolog = fold_stmts(prolog_stmts);
        proof {
            lemma_fold_wf(ps);
            assert(ps =~= prolog_moves(params@));
            assert(*names == (NameSupply { next_temp: bumps(n0.next_temp, n as nat), next_label: n0.next_label }));
            if n > 0 {
                reveal_with_fuel(sv, 2);
                reveal_with_fuel(ev, 2);
                lemma_fold_view(ps);
                assert forall|j: int| 0 <= j < n implies #[trigger] svs(ps)[j] == prolog_v(n0.next_temp, n as nat)[j] by {
                    assert(accesses@[j] == Access::InReg(Temp(bumps(n0.next_temp, j as nat))));
                }
                assert(svs(ps) =~= prolog_v(n0.next_temp, n as nat));
            }
        }
        Self { label, frame, params, prolog }
    }

    /// Finishes a function: its body's value goes to the return-value register, after the
    /// prolog, and the whole is linearized into a fragment.
    pub fn exit(self, body_ir: Expr, names: &mut NameSupply) -> (r: Fragment)
        ensures
            r matches Fragment::Proc { label, body, frame } && label == self.label && frame == self.frame
                && (self.prolog_wf() && wf(body_ir) ==> forall|i: int| 0 <= i < body@.len()
                    ==> flat(#[trigger] body@[i]) && wf_stmt(body@[i]))
                && (svs(body@), *final(names)) == exit_v(opt_sv(self.prolog), tv(body_ir), *old(names)),
    {
        let body = un_ex(body_ir, names);
        let full_body = match self.prolog {
            Some(p) => ir::Expr::ESeq(Box::new(p), Box::new(body)),
            None => body,
        };
        proof {
            reveal_with_fuel(wf_expr, 2);
            reveal_with_fuel(wf_stmt, 2);
            reveal_with_fuel(sv, 2);
            reveal_with_fuel(ev, 2);
        }
        let exit_node = ir::Stmt::Move(ir::Expr::Temp(Temp::rv()), full_body);
        let linearized = linearize(exit_node, names);
        Fragment::Proc { label: self.label, body: linearized, frame: self.frame }
    }
}

} // verus!
