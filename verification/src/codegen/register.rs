//! The machine registers of the target.
use vstd::prelude::*;

use crate::text::push_str;

verus! {

#[derive(Clone, Copy, Debug, PartialEq, Eq, Structural)]
pub enum Register {
    Zero,
    Ra,
    Sp,
    Fp,
    T0,
    T1,
    T2,
    A0,
    A1,
    A2,
    A3,
    A4,
    A5,
    A6,
    A7,
}

/// The assembler name of a register.
pub open spec fn reg_text(r: Register) -> Seq<char> {
    match r {
        Register::Zero => "zero"@,
        Register::Ra => "ra"@,
        Register::Sp => "sp"@,
        Register::Fp => "fp"@,
        Register::T0 => "t0"@,
        Register::T1 => "t1"@,
        Register::T2 => "t2"@,
        Register::A0 => "a0"@,
        Register::A1 => "a1"@,
        Register::A2 => "a2"@,
        Register::A3 => "a3"@,
        Register::A4 => "a4"@,
        Register::A5 => "a5"@,
        Register::A6 => "a6"@,
        Register::A7 => "a7"@,
    }
}

impl Register {
    /// Appends the assembler name of the register.
    pub fn write_into(&self, out: &mut String)
        ensures
            final(out)@ == old(out)@ + reg_text(*self),
    {
        match self {
            Register::Zero => push_str(out, "zero"),
            Register::Ra => push_str(out, "ra"),
            Register::Sp => push_str(out, "sp"),
            Register::Fp => push_str(out, "fp"),
            Register::T0 => push_str(out, "t0"),
            Register::T1 => push_str(out, "t1"),
            Register::T2 => push_str(out, "t2"),
            Register::A0 => push_str(out, "a0"),
            Register::A1 => push_str(out, "a1"),
            Register::A2 => push_str(out, "a2"),
            Register::A3 => push_str(out, "a3"),
            Register::A4 => push_str(out, "a4"),
            Register::A5 => push_str(out, "a5"),
            Register::A6 => push_str(out, "a6"),
            Register::A7 => push_str(out, "a7"),
        }
    }
}

} // verus!
