//! Stack frames: where each temporary of a function lives.
use std::collections::HashMap;

use vstd::prelude::*;

use super::symbols::{NameSupply, Temp, bump, bumps};
use super::translate;
use crate::ir;

verus! {

broadcast use vstd::std_specs::hash::group_hash_axioms;

/// How a variable is reached: every variable lives in a virtual register.
#[derive(Clone, Copy, Debug)]
pub enum Access {
    InReg(Temp),
}

pub const WORD_SIZE: i32 = 8;

/// The lowest value the slot counter of a frame may reach.
pub open spec fn frame_floor() -> int {
    i32::MIN + 16
}

/// The stack layout of one function: the slot, at an offset from the frame pointer, of every
/// temporary placed so far, and the offset of the next free slot.
#[derive(Debug)]
pub struct Frame {
    name: String,
    offset_counter: i32,
    temp_map: HashMap<usize, i32>,
}

/// The slots of a frame after `k` parameters are added to `slots`, in registers numbered
/// from `t0` on, at offsets going down from `c0` one word at a time.
pub open spec fn param_slots(slots: Map<usize, i32>, t0: usize, c0: int, k: nat) -> Map<usize, i32>
    decreases k,
{
    if k == 0 {
        slots
    } else {
        param_slots(slots, t0, c0, (k - 1) as nat).insert(bumps(t0, (k - 1) as nat), (c0 - 8 * (k - 1)) as i32)
    }
}

impl Frame {
    /// The offset of the next free slot.
    pub closed spec fn counter(&self) -> int {
        self.offset_counter as int
    }

    /// The slot of each temporary placed so far, by number.
    pub closed spec fn slots(&self) -> Map<usize, i32> {
        self.temp_map@
    }

    /// The name of the function the frame belongs to.
    pub closed spec fn name(&self) -> Seq<char> {
        self.name@
    }

    /// How far the counter may still go down.
    pub open spec fn room(&self) -> int {
        self.counter() - frame_floor()
    }

    /// Slots are word-aligned offsets below the saved registers, above the next free slot, and
    /// no two temporaries share one.
    pub closed spec fn wf(&self) -> bool {
        &&& frame_floor() <= self.offset_counter <= -24
        &&& self.offset_counter % 8 == 0
        &&& forall|k: usize| #[trigger] self.temp_map@.contains_key(k) ==> {
            &&& self.offset_counter < self.temp_map@[k] <= -24
            &&& self.temp_map@[k] % 8 == 0
        }
        &&& forall|a: usize, b: usize| #[trigger] self.temp_map@.contains_key(a) && #[trigger] self.temp_map@.contains_key(b) && a != b
            ==> self.temp_map@[a] != self.temp_map@[b]
    }

    pub fn new(name: String) -> (r: Self)
        ensures
            r.wf(),
            r.counter() == -24,
            r.slots() == Map::<usize, i32>::empty(),
            r.name() == name@,
    {
        Self { name, offset_counter: -24, temp_map: HashMap::new() }
    }

    /// The bytes the frame takes: the used bytes rounded up to a multiple of 16.
    pub fn size(&self) -> (r: i32)
        requires
            self.wf(),
        ensures
            r == (-self.counter() + 15) / 16 * 16,
            -self.counter() <= r <= 0x7fff_fff0,
            24 <= r,
            r % 16 == 0,
    {
        let total_raw_size = abs_i32(self.offset_counter);
        let alignment: i32 = 16;
        let x = total_raw_size + (alignment - 1);
        assert(x & !15i32 == x / 16 * 16) by (bit_vector)
            requires
                0 <= x;
        assert(x - 15 <= x / 16 * 16 <= x && (x / 16 * 16) % 16 == 0) by (nonlinear_arith)
            requires
                0 <= x;
        x & !(alignment - 1)
    }

    /// How far the slot counter may still go down.
    pub fn room_left(&self) -> (r: i64)
        ensures
            r == self.room(),
    {
        self.offset_counter as i64 - (i32::MIN as i64 + 16)
    }

    /// Places a fresh temporary in the next free slot.
    pub fn alloc_local(&mut self, names: &mut NameSupply) -> (r: Access)
        requires
            old(self).wf(),
            old(self).room() >= 8,
        ensures
            final(self).wf(),
            r == Access::InReg(Temp(old(names).next_temp)),
            final(names).next_temp == bump(old(names).next_temp),
            final(names).next_label == old(names).next_label,
            final(self).slots() == old(self).slots().insert(old(names).next_temp, old(self).counter() as i32),
            final(self).counter() == old(self).counter() - 8,
            final(self).name() == old(self).name(),
    {
        let new_temp = Temp::new(names);
        let off = self.offset_counter;
        self.temp_map.insert(new_temp.0, off);
        self.offset_counter = self.offset_counter - WORD_SIZE;
        Access::InReg(new_temp)
    }

    /// Places `count` fresh temporaries, one per parameter.
    pub fn alloc_params(&mut self, count: usize, names: &mut NameSupply) -> (r: Vec<Access>)
        requires
            old(self).wf(),
            count <= 8,
            old(self).room() >= 64,
        ensures
            final(self).wf(),
            r@.len() == count,
            final(self).counter() == old(self).counter() - 8 * count,
            final(names).next_label == old(names).next_label,
            final(names).next_temp == bumps(old(names).next_temp, count as nat),
            forall|i: int| 0 <= i < count ==> #[trigger] r@[i] == Access::InReg(Temp(bumps(old(names).next_temp, i as nat))),
            final(self).slots() == param_slots(old(self).slots(), old(names).next_temp, old(self).counter(), count as nat),
            final(self).name() == old(self).name(),
    {
        let mut v: Vec<Access> = Vec::new();
        let mut i: usize = 0;
        while i < count
            invariant
                i <= count <= 8,
                self.wf(),
                v@.len() == i,
                self.counter() == old(self).counter() - 8 * i,
                old(self).room() >= 64,
                names.next_label == old(names).next_label,
                names.next_temp == bumps(old(names).next_temp, i as nat),
                forall|j: int| 0 <= j < i ==> #[trigger] v@[j] == Access::InReg(Temp(bumps(old(names).next_temp, j as nat))),
                self.slots() == param_slots(old(self).slots(), old(names).next_temp, old(self).counter(), i as nat),
                self.name() == old(self).name(),
            decreases count - i,
        {
            v.push(self.alloc_local(names));
            i = i + 1;
        }
        v
    }

    /// The register that holds the `i`-th incoming argument.
    pub fn get_incoming_arg(&self, i: usize) -> (r: translate::Expr)
        requires
            i < 8,
        ensures
            r == translate::Expr::Ex(ir::Expr::Temp(Temp((3 + i) as usize))),
    {
        translate::Expr::Ex(ir::Expr::Temp(Temp::arg_reg(i)))
    }

    /// The slot of a temporary, placing it in the next free slot the first time it is asked for.
    pub fn get_offset(&mut self, t: Temp) -> (r: i32)
        requires
            old(self).wf(),
            old(self).room() >= 8,
        ensures
            final(self).wf(),
            final(self).slots().contains_key(t.0),
            r == final(self).slots()[t.0],
            r <= -24 && r % 8 == 0,
            old(self).slots().contains_key(t.0) ==> final(self).slots() == old(self).slots()
                && final(self).counter() == old(self).counter(),
            !old(self).slots().contains_key(t.0) ==> final(self).slots() == old(self).slots().insert(t.0, old(self).counter() as i32)
                && final(self).counter() == old(self).counter() - 8,
            final(self).name() == old(self).name(),
    {
        match self.temp_map.get(&t.0) {
            Some(off) => *off,
            None => {
                let off = self.offset_counter;
                self.temp_map.insert(t.0, off);
                self.offset_counter = self.offset_counter - 8;
                off
            },
        }
    }
}

/// `i32::abs`: the magnitude of a number other than the least `i32`.
fn abs_i32(x: i32) -> (r: i32)
    requires
        x > i32::MIN,
    ensures
        r == (if x < 0 { -x } else { x as int }),
{
    if x < 0 {
        -x
    } else {
        x
    }
}

/// Two different temporaries never share a stack slot, however many have been placed.
pub proof fn lemma_slots_distinct(f: Frame, a: usize, b: usize)
    requires
        f.wf(),
        f.slots().contains_key(a),
        f.slots().contains_key(b),
        a != b,
    ensures
        f.slots()[a] != f.slots()[b],
{
}

/// Every slot of a well-formed frame lies between the next free slot and the saved
/// registers.
pub proof fn lemma_slot_in_frame(f: Frame, k: usize)
    requires
        f.wf(),
        f.slots().contains_key(k),
    ensures
        f.counter() < f.slots()[k] <= -24,
        f.slots()[k] % 8 == 0,
{
}

/// A frame whose next slot is `n` words below the saved registers (as after `n` slots were
/// handed out from a new frame) is `24 + 8 * n` bytes rounded up to a multiple of 16.
pub proof fn lemma_size_after_slots(f: Frame, n: nat)
    requires
        f.wf(),
        f.counter() == -24 - 8 * n,
    ensures
        (-f.counter() + 15) / 16 * 16 == (24 + 8 * n + 15) / 16 * 16,
        ((24 + 8 * n + 15) / 16 * 16) % 16 == 0,
        24 + 8 * n <= (24 + 8 * n + 15) / 16 * 16 < 24 + 8 * n + 16,
{
}

/// A well-formed frame has at most about 2^31 bytes of room left.
pub proof fn lemma_room_bound(f: Frame)
    requires
        f.wf(),
    ensures
        0 <= f.room() < 0x8000_0000,
{
}

/// The bytes a well-formed frame takes fit an `i32`, and are a positive multiple of 16.
pub proof fn lemma_size_bounds(f: Frame)
    requires
        f.wf(),
    ensures
        24 <= (-f.counter() + 15) / 16 * 16 <= 0x7fff_fff0,
        ((-f.counter() + 15) / 16 * 16) % 16 == 0,
        (-f.counter() + 15) / 16 * 16 >= -f.counter(),
{
    let x = -f.counter() + 15;
    assert(x - 15 <= x / 16 * 16 <= x && (x / 16 * 16) % 16 == 0) by (nonlinear_arith)
        requires
            0 <= x;
}

/// The size of a frame is a multiple of 16 that covers every used byte.
pub proof fn lemma_size_aligned(f: Frame, size: int)
    requires
        f.wf(),
        size == (-f.counter() + 15) / 16 * 16,
    ensures
        size % 16 == 0,
        -f.counter() <= size < -f.counter() + 16,
{
}

} // verus!
