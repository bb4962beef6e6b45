//! Whether the functions of a program fit their stack frames.
use vstd::prelude::*;

use super::spec::{frame_limit, frame_need, frame_need_list, fun_fits, nested_fit, nested_fit_list, program_fits, top_sig};
use crate::ast::{self, Expr, Tag, Top, _Expr};

verus! {

/// `a + b`, or one past the limit where that is beyond it.
fn add_capped(a: u64, b: u64) -> (r: u64)
    requires
        a <= frame_limit() + 1,
        b <= frame_limit() + 1,
    ensures
        r == if a + b <= frame_limit() { a + b } else { frame_limit() + 1int },
{
    if a + b <= 0x400_0000 {
        a + b
    } else {
        0x400_0001
    }
}

/// The frame need of a construct, capped one past the limit, and whether every function
/// nested in it fits.
fn measure(e: &_Expr) -> (r: (u64, bool))
    ensures
        r.0 <= frame_limit() + 1,
        r.0 <= frame_limit() ==> r.0 == frame_need(**e),
        r.0 > frame_limit() ==> frame_need(**e) > frame_limit(),
        r.1 == nested_fit(**e),
    decreases **e,
{
    match &*e.item {
        Expr::Unit | Expr::Bool(_) | Expr::Int(_) | Expr::Ident(_) => (0, true),
        Expr::BinOp(lhs, _, rhs) => {
            let a = measure(lhs);
            let b = measure(rhs);
            (add_capped(a.0, b.0), a.1 && b.1)
        },
        Expr::Sequence(first, second) => {
            let a = measure(first);
            let b = measure(second);
            (add_capped(a.0, b.0), a.1 && b.1)
        },
        Expr::If(c, t, f) => {
            let a = measure(c);
            let b = measure(t);
            let d = measure(f);
            (add_capped(add_capped(a.0, b.0), d.0), a.1 && b.1 && d.1)
        },
        Expr::FunApp(f, args) => {
            let a = measure(f);
            let b = measure_list(args);
            (add_capped(a.0, b.0), a.1 && b.1)
        },
        Expr::Let(_, _, rhs, rest) => {
            let a = measure(rhs);
            let b = measure(rest);
            (add_capped(add_capped(1, a.0), b.0), a.1 && b.1)
        },
        Expr::FunDec(sig, rest) => {
            let a = measure(&sig.body);
            let b = measure(rest);
            proof {
                assert(nested_fit(**e) == (fun_fits(*sig) && nested_fit(**rest)));
                assert(fun_fits(*sig) == (frame_need(*sig.body) <= frame_limit() && nested_fit(*sig.body)));
            }
            (b.0, a.0 <= 0x400_0000 && a.1 && b.1)
        },
        Expr::Print(x) => measure(x),
        Expr::Block(x) => measure(x),
    }
}

/// The same for the arguments of a call.
fn measure_list(args: &ast::_Vec<_Expr>) -> (r: (u64, bool))
    ensures
        r.0 <= frame_limit() + 1,
        r.0 <= frame_limit() ==> r.0 == frame_need_list(args.item@),
        r.0 > frame_limit() ==> frame_need_list(args.item@) > frame_limit(),
        r.1 == nested_fit_list(args.item@),
    decreases args.item@,
{
    let ghost all = args.item@;
    let n = args.item.len();
    let mut total: u64 = 0;
    let mut ok = true;
    let mut i: usize = 0;
    proof {
        assert(all.skip(0) =~= all);
    }
    while i < n
        invariant
            n == all.len(),
            all == args.item@,
            i <= n,
            total <= frame_limit() + 1,
            total <= frame_limit() ==> total + frame_need_list(all.skip(i as int)) == frame_need_list(all),
            total > frame_limit() ==> frame_need_list(all) > frame_limit(),
            frame_need_list(all.skip(i as int)) <= frame_need_list(all),
            ok == (nested_fit_list(all) == nested_fit_list(all.skip(i as int))) || !nested_fit_list(all),
            ok ==> nested_fit_list(all) == nested_fit_list(all.skip(i as int)),
            !ok ==> !nested_fit_list(all),
        decreases n - i,
    {
        proof {
            let sk = all.skip(i as int);
            assert(sk[0] == all[i as int]);
            assert(sk.drop_first() =~= all.skip(i + 1));
            assert(decreases_to!(args.item@ => args.item@[i as int]));
        }
        let m = measure(&args.item[i]);
        total = add_capped(total, m.0);
        ok = ok && m.1;
        i = i + 1;
    }
    proof {
        assert(all.skip(n as int).len() == 0);
    }
    (total, ok)
}

/// Whether every function of the program, and every function nested in one, needs no more
/// frame slots than a frame can hold.
pub fn fits(program: &ast::Program) -> (r: bool)
    ensures
        r == program_fits(program@),
{
    let mut i: usize = 0;
    while i < program.len()
        invariant
            i <= program@.len(),
            forall|j: int| 0 <= j < i ==> fun_fits(#[trigger] top_sig(program@[j])),
        decreases program@.len() - i,
    {
        let Top::FunDec(sig) = &*program[i].item;
        let m = measure(&sig.body);
        if !(m.0 <= 0x400_0000 && m.1) {
            proof {
                assert(!fun_fits(top_sig(program@[i as int])));
            }
            return false;
        }
        i = i + 1;
    }
    true
}

} // verus!
