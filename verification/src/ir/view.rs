//! Trees as mathematical values: an expression or statement whose lists are sequences, so
//! that contracts can say exactly which tree a pass builds.
use vstd::prelude::*;

use super::symbols::{Label, Temp};
use super::{BinOp, Expr, RelOp, Stmt};

verus! {

/// An expression as a value; a label is its name.
pub enum ExprV {
    Const(i64),
    Name(Seq<char>),
    Temp(Temp),
    BinOp(BinOp, Box<ExprV>, Box<ExprV>),
    Mem(Box<ExprV>),
    Call(Box<ExprV>, Seq<ExprV>),
    ESeq(Box<StmtV>, Box<ExprV>),
}

/// A statement as a value.
pub enum StmtV {
    Move(ExprV, ExprV),
    Expr(ExprV),
    Jump(ExprV, Seq<Seq<char>>),
    CJump(RelOp, ExprV, ExprV, Seq<char>, Seq<char>),
    Sequence(Box<StmtV>, Box<StmtV>),
    Label(Seq<char>),
}

/// The names of a list of labels.
pub open spec fn lvs(ls: Seq<Label>) -> Seq<Seq<char>> {
    ls.map_values(|l: Label| l.0@)
}

/// The number of nodes of an expression.
pub open spec fn size_v(e: ExprV) -> nat
    decreases e,
{
    match e {
        ExprV::Const(_) | ExprV::Name(_) | ExprV::Temp(_) => 1,
        ExprV::BinOp(_, a, b) => 1 + size_v(*a) + size_v(*b),
        ExprV::Mem(a) => 1 + size_v(*a),
        ExprV::Call(f, args) => 1 + size_v(*f) + size_vs(args),
        ExprV::ESeq(s, v) => 1 + size_sv(*s) + size_v(*v),
    }
}

/// The number of nodes of a list of expressions.
pub open spec fn size_vs(es: Seq<ExprV>) -> nat
    decreases es,
{
    if es.len() == 0 {
        0
    } else {
        size_v(es[0]) + size_vs(es.drop_first())
    }
}

/// The number of nodes of a statement.
pub open spec fn size_sv(s: StmtV) -> nat
    decreases s,
{
    match s {
        StmtV::Move(d, v) => 1 + size_v(d) + size_v(v),
        StmtV::Expr(e) => 1 + size_v(e),
        StmtV::Jump(e, _) => 1 + size_v(e),
        StmtV::CJump(_, a, b, _, _) => 1 + size_v(a) + size_v(b),
        StmtV::Sequence(a, b) => 1 + size_sv(*a) + size_sv(*b),
        StmtV::Label(_) => 1,
    }
}

pub proof fn lemma_size_v_pos(e: ExprV)
    ensures
        size_v(e) >= 1,
{
}

/// The size of a list one element longer at the front.
pub proof fn lemma_size_vs_cons(x: ExprV, rest: Seq<ExprV>)
    ensures
        size_vs(seq![x] + rest) == size_v(x) + size_vs(rest),
{
    assert((seq![x] + rest).drop_first() =~= rest);
    assert((seq![x] + rest)[0] == x);
}

/// An expression's value.
pub open spec fn ev(e: Expr) -> ExprV
    decreases super::canonical::size_e(e), 0nat,
{
    proof {
        reveal_with_fuel(super::canonical::size_e, 2);
    }
    match e {
        Expr::Const(i) => ExprV::Const(i),
        Expr::Name(l) => ExprV::Name(l.0@),
        Expr::Temp(t) => ExprV::Temp(t),
        Expr::BinOp(op, a, b) => ExprV::BinOp(op, Box::new(ev(*a)), Box::new(ev(*b))),
        Expr::Mem(a) => ExprV::Mem(Box::new(ev(*a))),
        Expr::Call(f, args) => ExprV::Call(Box::new(ev(*f)), evs(args@)),
        Expr::ESeq(s, v) => ExprV::ESeq(Box::new(sv(*s)), Box::new(ev(*v))),
    }
}

/// The values of a list of expressions.
pub open spec fn evs(es: Seq<Expr>) -> Seq<ExprV>
    decreases super::canonical::size_list(es), 1nat,
{
    if es.len() == 0 {
        Seq::empty()
    } else {
        proof {
            super::canonical::lemma_size_list_first(es);
        }
        seq![ev(es[0])] + evs(es.drop_first())
    }
}

/// A statement's value.
pub open spec fn sv(s: Stmt) -> StmtV
    decreases super::canonical::size_s(s), 0nat,
{
    proof {
        reveal_with_fuel(super::canonical::size_s, 2);
    }
    match s {
        Stmt::Move(d, v) => StmtV::Move(ev(d), ev(v)),
        Stmt::Expr(e) => StmtV::Expr(ev(e)),
        Stmt::Jump(e, ls) => StmtV::Jump(ev(e), lvs(ls@)),
        Stmt::CJump(op, a, b, t, f) => StmtV::CJump(op, ev(a), ev(b), t.0@, f.0@),
        Stmt::Sequence(a, b) => StmtV::Sequence(Box::new(sv(*a)), Box::new(sv(*b))),
        Stmt::Label(l) => StmtV::Label(l.0@),
    }
}

/// The values of a list of statements.
pub open spec fn svs(ss: Seq<Stmt>) -> Seq<StmtV> {
    ss.map_values(|s: Stmt| sv(s))
}

/// The value of the `i`-th expression of a list is the `i`-th value.
pub proof fn lemma_evs_index(es: Seq<Expr>, i: int)
    requires
        0 <= i < es.len(),
    ensures
        evs(es).len() == es.len(),
        evs(es)[i] == ev(es[i]),
    decreases es.len(),
{
    if i > 0 {
        lemma_evs_index(es.drop_first(), i - 1);
    } else {
        lemma_evs_len(es.drop_first());
    }
}

pub proof fn lemma_evs_len(es: Seq<Expr>)
    ensures
        evs(es).len() == es.len(),
    decreases es.len(),
{
    if es.len() > 0 {
        lemma_evs_len(es.drop_first());
    }
}

/// The values of a list, element by element.
pub proof fn lemma_evs_all()
    ensures
        forall|c: Seq<Expr>| #[trigger] evs(c).len() == c.len(),
        forall|c: Seq<Expr>, i: int| 0 <= i < c.len() ==> #[trigger] evs(c)[i] == ev(c[i]),
        forall|c: Seq<Expr>| c.len() > 0 ==> #[trigger] evs(c).drop_first() == evs(c.drop_first()),
{
    assert forall|c: Seq<Expr>| #[trigger] evs(c).len() == c.len() by {
        lemma_evs_len(c);
    }
    assert forall|c: Seq<Expr>, i: int| 0 <= i < c.len() implies #[trigger] evs(c)[i] == ev(c[i]) by {
        lemma_evs_index(c, i);
    }
    assert forall|c: Seq<Expr>| c.len() > 0 implies #[trigger] evs(c).drop_first() == evs(c.drop_first()) by {
        assert(evs(c) == seq![ev(c[0])] + evs(c.drop_first()));
        assert(evs(c).drop_first() =~= evs(c.drop_first()));
    }
}

/// The values of a list one element longer at the front.
pub proof fn lemma_evs_cons(e: Expr, es: Seq<Expr>)
    ensures
        evs(seq![e] + es) == seq![ev(e)] + evs(es),
{
    assert((seq![e] + es).drop_first() =~= es);
    assert((seq![e] + es)[0] == e);
}

/// The values of one- and two-element lists.
pub proof fn lemma_evs_small(a: Expr, b: Expr)
    ensures
        evs(seq![a]) == seq![ev(a)],
        evs(seq![a, b]) == seq![ev(a), ev(b)],
{
    lemma_evs_cons(a, Seq::empty());
    assert(seq![a] =~= seq![a] + Seq::<Expr>::empty());
    assert(evs(Seq::<Expr>::empty()) =~= Seq::<ExprV>::empty());
    assert(seq![ev(a)] + Seq::<ExprV>::empty() =~= seq![ev(a)]);
    lemma_evs_cons(b, Seq::empty());
    assert(seq![b] =~= seq![b] + Seq::<Expr>::empty());
    assert(seq![ev(b)] + Seq::<ExprV>::empty() =~= seq![ev(b)]);
    lemma_evs_cons(a, seq![b]);
    assert(seq![a, b] =~= seq![a] + seq![b]);
    assert(seq![ev(a)] + seq![ev(b)] =~= seq![ev(a), ev(b)]);
}

/// The values of two lists one after the other.
pub proof fn lemma_evs_append(a: Seq<Expr>, b: Seq<Expr>)
    ensures
        evs(a + b) == evs(a) + evs(b),
    decreases a.len(),
{
    if a.len() == 0 {
        assert(a + b =~= b);
        assert(evs(a) =~= Seq::<ExprV>::empty());
        assert(evs(a) + evs(b) =~= evs(b));
    } else {
        lemma_evs_append(a.drop_first(), b);
        assert((a + b).drop_first() =~= a.drop_first() + b);
        assert((a + b)[0] == a[0]);
        assert(evs(a + b) =~= seq![ev(a[0])] + (evs(a.drop_first()) + evs(b)));
    }
}

} // verus!
