//! Temporaries and labels, and the supply that hands out fresh ones.
use vstd::prelude::*;

use crate::text::{decimal, push_decimal};

verus! {

/// The source of fresh names: the number of the next temporary and of the next label.
#[derive(Debug)]
pub struct NameSupply {
    pub next_temp: usize,
    pub next_label: usize,
}

/// The next value of a counter, wrapping around at the top of `usize`.
pub open spec fn bump(n: usize) -> usize {
    if n < usize::MAX { (n + 1) as usize } else { 0 }
}

/// A counter after `k` steps.
pub open spec fn bumps(n: usize, k: nat) -> usize
    decreases k,
{
    if k == 0 {
        n
    } else {
        bump(bumps(n, (k - 1) as nat))
    }
}

impl NameSupply {
    /// Temporaries are numbered from 11 on; 0 to 10 name the machine registers.
    pub fn new() -> (r: Self)
        ensures
            r.next_temp == 11,
            r.next_label == 0,
    {
        NameSupply { next_temp: 11, next_label: 0 }
    }
}

/// A name of the form `l<number>`, as handed out for a fresh label.
pub open spec fn fresh_label_text(n: nat) -> Seq<char> {
    seq!['l'] + decimal(n)
}

/// A symbolic code address.
#[derive(Debug)]
pub struct Label(pub String);

impl Clone for Label {
    fn clone(&self) -> (r: Self)
        ensures
            r == *self,
    {
        Label(self.0.clone())
    }
}

impl Label {
    /// A fresh label `l<n>`, where `n` is the supply's label counter, which then moves on.
    pub fn new(names: &mut NameSupply) -> (r: Label)
        ensures
            r.0@ == fresh_label_text(old(names).next_label as nat),
            final(names).next_label == bump(old(names).next_label),
            final(names).next_temp == old(names).next_temp,
    {
        let id = names.next_label;
        names.next_label = id.wrapping_add(1);
        let mut s = String::from_str("l");
        push_decimal(&mut s, id as u128);
        proof {
            reveal_strlit("l");
            assert(s@ =~= fresh_label_text(id as nat));
        }
        Label(s)
    }

    pub fn with_name(name: &str) -> (r: Label)
        ensures
            r.0@ == name@,
    {
        Label(String::from_str(name))
    }
}

/// A virtual register.
#[derive(Clone, Copy, Debug, PartialEq, Eq, Hash, Structural)]
pub struct Temp(pub usize);

impl Temp {
    /// A fresh temporary numbered by the supply's temp counter, which then moves on.
    pub fn new(names: &mut NameSupply) -> (r: Temp)
        ensures
            r.0 == old(names).next_temp,
            final(names).next_temp == bump(old(names).next_temp),
            final(names).next_label == old(names).next_label,
    {
        let id = names.next_temp;
        names.next_temp = id.wrapping_add(1);
        Temp(id)
    }

    /// The frame pointer.
    pub fn fp() -> (r: Temp)
        ensures
            r.0 == 0,
    {
        Temp(0)
    }

    /// The stack pointer.
    pub fn sp() -> (r: Temp)
        ensures
            r.0 == 1,
    {
        Temp(1)
    }

    /// The register that holds a function's return value.
    pub fn rv() -> (r: Temp)
        ensures
            r.0 == 2,
    {
        Temp(2)
    }

    /// The register of the `i`-th argument.
    pub fn arg_reg(i: usize) -> (r: Temp)
        requires
            i < 8,
        ensures
            r.0 == 3 + i,
    {
        Temp(3 + i)
    }
}

/// A counter that does not reach the top of `usize` in `k` steps has moved by `k`.
pub proof fn lemma_bumps_add(n: usize, k: nat)
    requires
        n + k <= usize::MAX,
    ensures
        bumps(n, k) == n + k,
    decreases k,
{
    if k > 0 {
        lemma_bumps_add(n, (k - 1) as nat);
    }
}

/// Every temporary and every label a supply hands out differs from all those it handed out
/// before, as long as its counters do not wrap around: the `i`-th and the `j`-th of a run of
/// fresh names from counter `n` differ.
pub proof fn lemma_fresh_names_distinct(n: usize, i: nat, j: nat)
    requires
        i < j,
        n + j <= usize::MAX,
    ensures
        bumps(n, i) != bumps(n, j),
        fresh_label_text(bumps(n, i) as nat) != fresh_label_text(bumps(n, j) as nat),
{
    lemma_bumps_add(n, i);
    lemma_bumps_add(n, j);
    crate::text::lemma_decimal_injective((n + j) as nat, (n + i) as nat);
    assert(fresh_label_text(bumps(n, i) as nat).drop_first() =~= decimal(bumps(n, i) as nat));
    assert(fresh_label_text(bumps(n, j) as nat).drop_first() =~= decimal(bumps(n, j) as nat));
}

/// From a new supply (temporaries counted from 11, labels from 0), the `i`-th temporary
/// handed out is numbered `11 + i`, so none is one of the fixed registers 0 to 10, and the
/// `i`-th label is `l` and the digits of `i`; no two temporaries and no two labels of the run
/// are the same, as long as the counters do not wrap around.
pub proof fn lemma_names_from_new(i: nat, j: nat)
    requires
        i < j,
        11 + j <= usize::MAX,
    ensures
        bumps(11, i) == 11 + i,
        bumps(11, j) == 11 + j,
        bumps(11, i) != bumps(11, j),
        fresh_label_text(bumps(0, i) as nat) == seq!['l'] + decimal(i),
        fresh_label_text(bumps(0, i) as nat) != fresh_label_text(bumps(0, j) as nat),
{
    lemma_bumps_add(11, i);
    lemma_bumps_add(11, j);
    lemma_bumps_add(0, i);
    lemma_fresh_names_distinct(11, i, j);
    lemma_fresh_names_distinct(0, i, j);
}

/// Two calls of the supply in a row give different temporaries, and different labels, unless
/// the counter wrapped around between them.
pub proof fn lemma_fresh_names_differ(n: usize)
    requires
        n < usize::MAX,
    ensures
        bump(n) != n,
        fresh_label_text(bump(n) as nat) != fresh_label_text(n as nat),
{
    crate::text::lemma_decimal_injective((n + 1) as nat, n as nat);
    assert(fresh_label_text(bump(n) as nat).drop_first() =~= decimal(bump(n) as nat));
    assert(fresh_label_text(n as nat).drop_first() =~= decimal(n as nat));
}

} // verus!
