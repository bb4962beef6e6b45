//! Deciding whether a fragment can be handed to the instruction selector.
use vstd::prelude::*;

use super::lower::size_stmts;
use super::selectable_fragment;
use crate::semant::{frag_ok, frags_ok, frames_wf};
use crate::ir::canonical::{canonical, flat, no_eseq, size_e, size_list, size_s};
use crate::ir::{supported_binop, supported_relop, wf_expr, wf_stmt, BinOp, Expr, Fragment, RelOp, Stmt};

verus! {

/// Sizes are counted up to this cap; a body that large never fits a frame.
pub open spec fn cap() -> nat {
    0x1000_0000
}

/// `n`, or the cap where `n` is larger.
pub open spec fn capped(n: nat) -> nat {
    if n < cap() {
        n
    } else {
        cap()
    }
}

fn add_capped(a: u64, b: u64) -> (r: u64)
    requires
        a <= cap(),
        b <= cap(),
    ensures
        r == capped((a + b) as nat),
{
    if a + b < 0x1000_0000 {
        a + b
    } else {
        0x1000_0000
    }
}

fn is_supported_binop(op: BinOp) -> (r: bool)
    ensures
        r == supported_binop(op),
{
    match op {
        BinOp::Add | BinOp::Sub | BinOp::Mul | BinOp::Div | BinOp::And | BinOp::Xor => true,
        _ => false,
    }
}

fn is_supported_relop(op: RelOp) -> (r: bool)
    ensures
        r == supported_relop(op),
{
    match op {
        RelOp::Eq | RelOp::Ne | RelOp::Lt | RelOp::Ge | RelOp::Gt | RelOp::Le => true,
        _ => false,
    }
}

/// Whether an expression is free of `ESeq`, whether the back end handles it, and its size
/// (capped).
fn expr_facts(e: &Expr) -> (r: (bool, bool, u64))
    ensures
        r.0 == no_eseq(*e),
        r.1 == wf_expr(*e),
        r.2 == capped(size_e(*e)),
    decreases *e,
{
    match e {
        Expr::Const(_) | Expr::Name(_) | Expr::Temp(_) => (true, true, 1),
        Expr::BinOp(op, a, b) => {
            let x = expr_facts(a);
            let y = expr_facts(b);
            (x.0 && y.0, is_supported_binop(*op) && x.1 && y.1, add_capped(add_capped(1, x.2), y.2))
        },
        Expr::Mem(a) => {
            let x = expr_facts(a);
            (x.0, x.1, add_capped(1, x.2))
        },
        Expr::ESeq(s, v) => {
            let x = stmt_facts(s);
            let y = expr_facts(v);
            (false, x.1 && y.1, add_capped(add_capped(1, x.2), y.2))
        },
        Expr::Call(f, args) => {
            let x = expr_facts(f);
            let n = args.len();
            let mut clean = x.0;
            let mut good = x.1 && n <= 8;
            let mut size: u64 = 0;
            let mut i: usize = 0;
            let ghost all = args@;
            proof {
                assert(all.take(0) =~= Seq::<Expr>::empty());
            }
            while i < n
                invariant
                    n == all.len(),
                    all == args@,
                    *e == Expr::Call(*f, *args),
                    i <= n,
                    clean == (no_eseq(**f) && forall|j: int| 0 <= j < i ==> no_eseq(#[trigger] all[j])),
                    good == (wf_expr(**f) && n <= 8 && forall|j: int| 0 <= j < i ==> wf_expr(#[trigger] all[j])),
                    size == capped(size_list(all.take(i as int))),
                decreases n - i,
            {
                proof {
                    assert(decreases_to!(*e => e->Call_1));
                    assert(decreases_to!(e->Call_1 => e->Call_1@));
                    assert(decreases_to!(e->Call_1@ => e->Call_1@[i as int]));
                }
                let y = expr_facts(&args[i]);
                proof {
                    assert(all.take(i + 1).drop_last() =~= all.take(i as int));
                    assert(all.take(i + 1).last() == all[i as int]);
                }
                clean = clean && y.0;
                good = good && y.1;
                size = add_capped(size, y.2);
                i = i + 1;
            }
            proof {
                assert(all.take(n as int) =~= all);
            }
            (clean, good, add_capped(add_capped(1, x.2), size))
        },
    }
}

/// Whether a statement's expressions are free of `ESeq`, whether the back end handles it,
/// and its size (capped).
fn stmt_facts(s: &Stmt) -> (r: (bool, bool, u64))
    ensures
        r.0 == canonical(*s),
        r.1 == wf_stmt(*s),
        r.2 == capped(size_s(*s)),
    decreases *s,
{
    match s {
        Stmt::Move(d, v) => {
            let x = expr_facts(d);
            let y = expr_facts(v);
            let dst_ok = match d {
                Expr::Temp(_) => y.1,
                Expr::Mem(a) => {
                    let z = expr_facts(a);
                    z.1 && y.1
                },
                _ => false,
            };
            (x.0 && y.0, dst_ok, add_capped(add_capped(1, x.2), y.2))
        },
        Stmt::Expr(e) => {
            let x = expr_facts(e);
            (x.0, x.1, add_capped(1, x.2))
        },
        Stmt::Jump(e, _) => {
            let x = expr_facts(e);
            (x.0, matches!(e, Expr::Name(_)), add_capped(1, x.2))
        },
        Stmt::CJump(op, a, b, _, _) => {
            let x = expr_facts(a);
            let y = expr_facts(b);
            (x.0 && y.0, is_supported_relop(*op) && x.1 && y.1, add_capped(add_capped(1, x.2), y.2))
        },
        Stmt::Sequence(a, b) => {
            let x = stmt_facts(a);
            let y = stmt_facts(b);
            (x.0 && y.0, x.1 && y.1, add_capped(add_capped(1, x.2), y.2))
        },
        Stmt::Label(_) => (true, true, 1),
    }
}

/// Whether the instruction selector can lower a fragment whose frame is well formed: its
/// body is made of flat statements it handles, and the frame has room for their spills.
pub fn lowerable(f: &Fragment) -> (r: bool)
    ensures
        f->frame.wf() ==> (r == selectable_fragment(*f)),
{
    match f {
        Fragment::Proc { body, frame, .. } => {
            let n = body.len();
            let mut ok = true;
            let mut size: u64 = 0;
            let mut i: usize = 0;
            let ghost all = body@;
            proof {
                assert(all.take(0) =~= Seq::<Stmt>::empty());
            }
            while i < n
                invariant
                    n == all.len(),
                    all == body@,
                    i <= n,
                    ok == forall|j: int| 0 <= j < i ==> flat(#[trigger] all[j]) && wf_stmt(all[j]),
                    size == capped(size_stmts(all.take(i as int))),
                decreases n - i,
            {
                let x = stmt_facts(&body[i]);
                let is_flat = x.0 && !matches!(body[i], Stmt::Sequence(_, _)) && !matches!(body[i], Stmt::Expr(Expr::Const(0)));
                proof {
                    assert(all.take(i + 1).drop_last() =~= all.take(i as int));
                    assert(all.take(i + 1).last() == all[i as int]);
                }
                ok = ok && is_flat && x.1;
                size = add_capped(size, x.2);
                i = i + 1;
            }
            proof {
                assert(all.take(n as int) =~= all);
                if frame.wf() {
                    crate::ir::frame::lemma_room_bound(*frame);
                }
            }
            ok && frame.room_left() >= 16 * (size as i64)
        },
    }
}

/// What the checker produces can be handed to the instruction selector: a fragment of its
/// output with flat, well-formed statements and a well-formed frame is accepted as soon as the
/// frame has room for the spills of the body.
pub proof fn lemma_checked_is_selectable(frags: Seq<Fragment>, i: int)
    requires
        frags_ok(frags),
        frames_wf(frags),
        0 <= i < frags.len(),
        frags[i]->frame.room() >= 16 * size_stmts(frags[i]->body@),
    ensures
        selectable_fragment(frags[i]),
{
    assert(frag_ok(frags[i]));
}

} // verus!
