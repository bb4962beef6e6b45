//! The intermediate representation: expression and statement trees.
pub mod canonical;
pub mod fmt;
pub mod frame;
pub mod symbols;
pub mod translate;
pub mod view;

use vstd::prelude::*;

use frame::Frame;
use symbols::{Label, Temp};

verus! {

#[derive(Debug)]
pub enum Expr {
    /// Integer constant
    Const(i64),
    /// A symbolic address
    Name(Label),
    /// A virtual register
    Temp(Temp),
    /// `op(left, right)`
    BinOp(BinOp, Box<Expr>, Box<Expr>),
    /// The word in memory at the given address
    Mem(Box<Expr>),
    /// `fun(args...)`; the function is evaluated before the arguments
    Call(Box<Expr>, Vec<Expr>),
    /// Run the statement, then evaluate the expression
    ESeq(Box<Stmt>, Box<Expr>),
}

#[derive(Debug)]
pub enum Stmt {
    /// `Move(dst, src)`: store the value of `src` in a temporary or memory word
    Move(Expr, Expr),
    /// Evaluate and discard
    Expr(Expr),
    /// Jump to the address, one of the listed labels
    Jump(Expr, Vec<Label>),
    /// Compare, then jump to the first label if true, to the second if false
    CJump(RelOp, Expr, Expr, Label, Label),
    /// Run the first statement, then the second
    Sequence(Box<Stmt>, Box<Stmt>),
    /// Define the label at the current address
    Label(Label),
}

impl Stmt {
    /// The statement that does nothing.
    pub fn nop() -> (r: Stmt)
        ensures
            r == Stmt::Expr(Expr::Const(0)),
    {
        Stmt::Expr(Expr::Const(0))
    }
}

#[derive(Clone, Copy, Debug, PartialEq, Eq, Structural)]
pub enum BinOp {
    Add,
    Sub,
    Mul,
    Div,
    And,
    Or,
    Shl,
    Shr,
    Ashr,
    Xor,
}

#[derive(Clone, Copy, Debug, PartialEq, Eq, Structural)]
pub enum RelOp {
    Eq,
    Ne,
    Lt,
    Gt,
    Le,
    Ge,
    Ult,
    Ule,
    Ugt,
    Uge,
}

/// The arithmetic operators that the instruction selector lowers.
pub open spec fn supported_binop(op: BinOp) -> bool {
    op == BinOp::Add || op == BinOp::Sub || op == BinOp::Mul || op == BinOp::Div
        || op == BinOp::And || op == BinOp::Xor
}

/// The comparisons that the instruction selector lowers.
pub open spec fn supported_relop(op: RelOp) -> bool {
    op == RelOp::Eq || op == RelOp::Ne || op == RelOp::Lt || op == RelOp::Ge || op == RelOp::Gt
        || op == RelOp::Le
}

/// The most arguments a call passes (all in registers).
pub open spec fn max_args() -> nat {
    8
}

/// An expression the back end can handle: supported operators and calls with at most eight
/// arguments, throughout.
pub open spec fn wf_expr(e: Expr) -> bool
    decreases e,
{
    match e {
        Expr::Const(_) | Expr::Name(_) | Expr::Temp(_) => true,
        Expr::BinOp(op, a, b) => supported_binop(op) && wf_expr(*a) && wf_expr(*b),
        Expr::Mem(a) => wf_expr(*a),
        Expr::Call(f, args) => args@.len() <= max_args() && wf_expr(*f) && forall|i: int|
            0 <= i < args@.len() ==> wf_expr(#[trigger] args@[i]),
        Expr::ESeq(s, v) => wf_stmt(*s) && wf_expr(*v),
    }
}

/// A statement the back end can handle: moves into a temporary or memory, jumps to a label,
/// supported comparisons, and well-formed expressions throughout.
pub open spec fn wf_stmt(s: Stmt) -> bool
    decreases s,
{
    match s {
        Stmt::Move(dst, src) => match dst {
            Expr::Temp(_) => wf_expr(src),
            Expr::Mem(a) => wf_expr(*a) && wf_expr(src),
            _ => false,
        },
        Stmt::Expr(e) => wf_expr(e),
        Stmt::Jump(e, _) => e is Name,
        Stmt::CJump(op, a, b, _, _) => supported_relop(op) && wf_expr(a) && wf_expr(b),
        Stmt::Sequence(a, b) => wf_stmt(*a) && wf_stmt(*b),
        Stmt::Label(_) => true,
    }
}

#[derive(Debug)]
pub enum Fragment {
    Proc { label: Label, body: Vec<Stmt>, frame: Frame },
}

#[derive(Debug)]
pub struct Program {
    pub fragments: Vec<Fragment>,
}

/// The quotient of `x` by `y` rounded toward zero (as Rust's and RISC-V's division give it),
/// and -1 for a zero divisor (as RISC-V gives it).
pub open spec fn trunc_div(x: int, y: int) -> int {
    if y == 0 {
        -1
    } else {
        let q = (if x < 0 { -x } else { x }) / (if y < 0 { -y } else { y });
        if (x < 0) != (y < 0) { -q } else { q }
    }
}

/// The value of an operator of the intermediate representation applied to two 64-bit values,
/// before it is cut to 64 bits (shift amounts are taken modulo 64, `Shr` shifts in zeros and
/// `Ashr` copies of the sign bit).
pub open spec fn op_value(op: BinOp, x: i64, y: i64) -> int {
    match op {
        BinOp::Add => x + y,
        BinOp::Sub => x - y,
        BinOp::Mul => x * y,
        BinOp::Div => trunc_div(x as int, y as int),
        BinOp::And => (x & y) as int,
        BinOp::Or => (x | y) as int,
        BinOp::Shl => ((x as u64) << ((y as u64) & 63u64)) as int,
        BinOp::Shr => ((x as u64) >> ((y as u64) & 63u64)) as int,
        BinOp::Ashr => (x >> ((y as u64) & 63u64)) as int,
        BinOp::Xor => (x ^ y) as int,
    }
}

/// Whether a comparison holds between two 64-bit values (the unsigned comparisons read them
/// as unsigned numbers).
pub open spec fn rel_holds(op: RelOp, a: i64, b: i64) -> bool {
    match op {
        RelOp::Eq => a == b,
        RelOp::Ne => a != b,
        RelOp::Lt => a < b,
        RelOp::Gt => a > b,
        RelOp::Le => a <= b,
        RelOp::Ge => a >= b,
        RelOp::Ult => (a as u64) < (b as u64),
        RelOp::Ule => (a as u64) <= (b as u64),
        RelOp::Ugt => (a as u64) > (b as u64),
        RelOp::Uge => (a as u64) >= (b as u64),
    }
}

} // verus!
