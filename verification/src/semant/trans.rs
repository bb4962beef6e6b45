//! What the checker builds: the intermediate representation of each construct and the
//! fragment of each function, as values, with the fresh names they use.
use vstd::prelude::*;

use super::env::place_v;
use super::spec::top_sig;
use crate::ast::{arith_value, cmp_holds, is_arith_op, is_comparison_op, BinOp, Expr, FunSignature, Tag, Top, Type};
use crate::ir::frame::{param_slots, Frame};
use crate::ir::symbols::{bumps, NameSupply};
use crate::ir::translate::{assign_v, binop_v, call_v, chain_v, exit_v, fold_v, if_v, print_v, prolog_v, relop_v, value_v, TrV};
use crate::ir::view::{svs, ExprV, StmtV};
use crate::ir::{self, rel_holds, Fragment, RelOp};

verus! {

/// A frame as a value: the name of its function, the offset of its next slot, and the
/// offset of the slot of each register.
pub struct FrameV {
    pub name: Seq<char>,
    pub counter: int,
    pub slots: Map<usize, i32>,
}

/// A frame's value.
pub open spec fn frame_v(f: Frame) -> FrameV {
    FrameV { name: f.name(), counter: f.counter(), slots: f.slots() }
}

/// A fragment as a value: the name of its entry label, its statements and its frame.
pub struct FragV {
    pub name: Seq<char>,
    pub body: Seq<StmtV>,
    pub frame: FrameV,
}

/// A fragment's value.
pub open spec fn frag_v(f: Fragment) -> FragV {
    match f {
        Fragment::Proc { label, body, frame } => FragV { name: label.0@, body: svs(body@), frame: frame_v(frame) },
    }
}

/// The values of a list of fragments.
pub open spec fn frags_v(fs: Seq<Fragment>) -> Seq<FragV> {
    fs.map_values(|f: Fragment| frag_v(f))
}

/// What translation carries from one construct to the next: the name supply, the fragments
/// of the functions finished so far, and the next slot and the slots of the frame of the
/// function being translated.
pub struct TrSt {
    pub names: NameSupply,
    pub frags: Seq<FragV>,
    pub counter: int,
    pub slots: Map<usize, i32>,
}

/// The state of a name supply, a frame and a list of fragments.
pub open spec fn st_of(names: NameSupply, frame: Frame, fs: Seq<Fragment>) -> TrSt {
    TrSt { names, frags: frags_v(fs), counter: frame.counter(), slots: frame.slots() }
}

/// A state with another name supply.
pub open spec fn with_names(st: TrSt, n: NameSupply) -> TrSt {
    TrSt { names: n, frags: st.frags, counter: st.counter, slots: st.slots }
}

/// An operator of the language applied to two translated operands: arithmetic is a value,
/// a comparison a condition.
pub open spec fn binop_tr(op: BinOp, l: TrV, r: TrV, n: NameSupply) -> (TrV, NameSupply) {
    match op {
        BinOp::Add => binop_v(ir::BinOp::Add, l, r, n),
        BinOp::Sub => binop_v(ir::BinOp::Sub, l, r, n),
        BinOp::Mul => binop_v(ir::BinOp::Mul, l, r, n),
        BinOp::Div => binop_v(ir::BinOp::Div, l, r, n),
        BinOp::Gt => relop_v(RelOp::Gt, l, r, n),
        BinOp::Gte => relop_v(RelOp::Ge, l, r, n),
        BinOp::Lt => relop_v(RelOp::Lt, l, r, n),
        BinOp::Lte => relop_v(RelOp::Le, l, r, n),
        BinOp::Eq => relop_v(RelOp::Eq, l, r, n),
        BinOp::Ne => relop_v(RelOp::Ne, l, r, n),
    }
}

/// A comparison of the language becomes a condition on its two operands with the same meaning:
/// for all values of the operands, the comparison of the intermediate representation holds
/// exactly when the source comparison does; it uses no fresh names.
pub proof fn lemma_comparisons_keep_their_meaning(op: BinOp, l: TrV, r: TrV, n: NameSupply, a: i64, b: i64)
    requires
        is_comparison_op(op),
    ensures
        binop_tr(op, l, r, n).0 matches TrV::Cx(rop, x, y) && *x == l && *y == r
            && rel_holds(rop, a, b) == cmp_holds(op, a, b),
        binop_tr(op, l, r, n).1 == n,
{
}

/// An arithmetic operator of the language becomes an operator of the intermediate
/// representation with the same meaning, applied to the values of its operands, the left one
/// made first: for all values of the operands (a nonzero divisor for `/`), both give the same.
pub proof fn lemma_arithmetic_keeps_its_meaning(op: BinOp, l: TrV, r: TrV, n: NameSupply, a: i64, b: i64)
    requires
        is_arith_op(op),
    ensures
        binop_tr(op, l, r, n).0 matches TrV::Ex(ExprV::BinOp(iop, x, y))
            && *x == value_v(l, n).0 && *y == value_v(r, value_v(l, n).1).0
            && (op != BinOp::Div || b != 0 ==> ir::op_value(iop, a, b) == arith_value(op, a, b)),
        binop_tr(op, l, r, n).1 == value_v(r, value_v(l, n).1).1,
{
}

/// The translation of an expression in a scope whose local variables live in `temps`, and
/// the state after it: operands and arguments left to right, a `let` in a fresh register with
/// the next slot of the frame, a nested function finished (its fragment added) before the
/// rest.
pub open spec fn tr_e(e: Tag<Expr>, temps: Map<Seq<char>, usize>, st: TrSt) -> (TrV, TrSt)
    decreases e,
{
    match *e.item {
        Expr::Unit => (TrV::Ex(ExprV::Const(0)), st),
        Expr::Bool(b) => (TrV::Ex(ExprV::Const(if b { 1 } else { 0 })), st),
        Expr::Int(i) => (TrV::Ex(ExprV::Const(i)), st),
        Expr::Ident(id) => (TrV::Ex(place_v(temps, id.item@)), st),
        Expr::BinOp(l, op, r) => {
            let (lv, s1) = tr_e(*l, temps, st);
            let (rv, s2) = tr_e(*r, temps, s1);
            let (v, n) = binop_tr(*op.item, lv, rv, s2.names);
            (v, with_names(s2, n))
        },
        Expr::Sequence(a, b) => {
            let (av, s1) = tr_e(*a, temps, st);
            let (bv, s2) = tr_e(*b, temps, s1);
            let (v, n) = chain_v(av, bv, s2.names);
            (v, with_names(s2, n))
        },
        Expr::If(c, t, f) => {
            let (cv, s1) = tr_e(*c, temps, st);
            let (tv, s2) = tr_e(*t, temps, s1);
            let (fv, s3) = tr_e(*f, temps, s2);
            let (v, n) = if_v(cv, tv, fv, s3.names);
            (v, with_names(s3, n))
        },
        Expr::FunApp(f, args) => {
            let (fv, s1) = tr_e(*f, temps, st);
            let (avs, s2) = tr_list(args.item@, temps, s1);
            let (v, n) = call_v(fv, avs, s2.names);
            (v, with_names(s2, n))
        },
        Expr::Let(id, _, rhs, rest) => {
            let (rv, s1) = tr_e(*rhs, temps, st);
            let (asg, n1) = assign_v(rv, s1.names);
            let t = s1.names.next_temp;
            let s1b = TrSt { names: n1, frags: s1.frags, counter: s1.counter - 8, slots: s1.slots.insert(t, s1.counter as i32) };
            let (bv, s2) = tr_e(*rest, temps.insert(id.item@, t), s1b);
            let (v, n2) = chain_v(asg, bv, s2.names);
            (v, with_names(s2, n2))
        },
        Expr::FunDec(sig, rest) => {
            let (fr, n1, fs1) = tr_fun(sig, st.names, st.frags);
            tr_e(*rest, temps, TrSt { names: n1, frags: fs1.push(fr), counter: st.counter, slots: st.slots })
        },
        Expr::Print(x) => {
            let (xv, s1) = tr_e(*x, temps, st);
            let (v, n) = print_v(xv, s1.names);
            (v, with_names(s1, n))
        },
        Expr::Block(x) => tr_e(*x, temps, st),
    }
}

/// The translations of a list of expressions, left to right.
pub open spec fn tr_list(args: Seq<Box<Tag<Expr>>>, temps: Map<Seq<char>, usize>, st: TrSt) -> (Seq<TrV>, TrSt)
    decreases args,
{
    if args.len() == 0 {
        (Seq::empty(), st)
    } else {
        let (v, s1) = tr_e(*args[0], temps, st);
        let (vs, s2) = tr_list(args.drop_first(), temps, s1);
        (seq![v] + vs, s2)
    }
}

/// The registers of the first `k` parameters of a function, numbered from `t0` on; a name
/// that occurs twice is in the register of its later occurrence.
pub open spec fn param_temps(ps: Seq<(Tag<String>, Tag<Type>)>, t0: usize, k: nat) -> Map<Seq<char>, usize>
    decreases k,
{
    if k == 0 || k > ps.len() {
        Map::empty()
    } else {
        param_temps(ps, t0, (k - 1) as nat).insert(ps[k - 1].0.item@, bumps(t0, (k - 1) as nat))
    }
}

/// The fragment of a function, and the name supply and fragments after it: a frame of its
/// own, with fresh registers and slots for its parameters, filled from the argument
/// registers; then its body, with its parameters in scope; its value goes to the return-value
/// register, and the whole is linearized.
pub open spec fn tr_fun(sig: FunSignature, names: NameSupply, frags: Seq<FragV>) -> (FragV, NameSupply, Seq<FragV>)
    decreases sig,
{
    let n = sig.params.item@.len();
    let t0 = names.next_temp;
    let n1 = NameSupply { next_temp: bumps(t0, n), next_label: names.next_label };
    let s1 = TrSt { names: n1, frags, counter: -24 - 8 * n, slots: param_slots(Map::empty(), t0, -24, n) };
    let (bv, s2) = tr_e(*sig.body, param_temps(sig.params.item@, t0, n), s1);
    let prolog = if n > 0 {
        Some(fold_v(prolog_v(t0, n)))
    } else {
        None
    };
    let (body, n3) = exit_v(prolog, bv, s2.names);
    let frame = FrameV { name: sig.name.item@, counter: s2.counter, slots: s2.slots };
    (FragV { name: sig.name.item@, body, frame }, n3, s2.frags)
}

/// The fragments of the first `n` top-level functions, each after those nested in it, and
/// the name supply after them.
pub open spec fn tr_program(tops: Seq<Tag<Top>>, n: nat, names: NameSupply) -> (NameSupply, Seq<FragV>)
    decreases n,
{
    if n == 0 || n > tops.len() {
        (names, Seq::empty())
    } else {
        let (n1, fs) = tr_program(tops, (n - 1) as nat, names);
        let (fr, n2, fs2) = tr_fun(top_sig(tops[n - 1]), n1, fs);
        (n2, fs2.push(fr))
    }
}

/// The values of a list with one more fragment.
pub proof fn lemma_frags_v_push(fs: Seq<Fragment>, f: Fragment)
    ensures
        frags_v(fs.push(f)) == frags_v(fs).push(frag_v(f)),
{
    assert(frags_v(fs.push(f)) =~= frags_v(fs).push(frag_v(f)));
}

} // verus!
