//! Instruction selection: tiling canonical statements with RISC-V instructions.
use vstd::prelude::*;

use super::{BranchName, IInstr1Name, IInstr2Name, Instr, Label, Offset, RInstrName, Register};
use crate::ir::canonical::{flat, no_eseq, size_e, size_list, size_s, canonical, lemma_size_list_first};
use crate::ir::frame::Frame;
use crate::ir::symbols::{bump, NameSupply, Temp};
use crate::ir::{supported_binop, supported_relop, wf_expr, wf_stmt, BinOp, Expr, RelOp, Stmt};

verus! {

/// `new` starts with all of `old`.
pub open spec fn extends(new: Seq<Instr>, old: Seq<Instr>) -> bool {
    &&& old.len() <= new.len()
    &&& forall|i: int| 0 <= i < old.len() ==> new[i] == old[i]
}

/// The frame pointer or the stack pointer.
pub open spec fn frame_reg(r: Register) -> bool {
    r == Register::Fp || r == Register::Sp
}

/// An instruction of a function body that keeps to its frame: it writes neither the frame
/// pointer nor the stack pointer, addresses no memory through the stack pointer, and
/// addresses memory through the frame pointer only between `bottom` (exclusive) and the
/// saved registers.
pub open spec fn instr_in_frame(i: Instr, bottom: int) -> bool {
    match i {
        Instr::RInstr { rd, .. } => !frame_reg(rd),
        Instr::IInstr2 { rd, .. } => !frame_reg(rd),
        Instr::IInstr1 { rd, .. } => !frame_reg(rd),
        Instr::Load { dst, src } => !frame_reg(dst) && src.reg != Register::Sp && (src.reg == Register::Fp ==> bottom
            < src.offset <= -24),
        Instr::Store { dst, .. } => dst.reg != Register::Sp && (dst.reg == Register::Fp ==> bottom < dst.offset <= -24),
        Instr::LoadAddress { dst, .. } => !frame_reg(dst),
        _ => true,
    }
}

/// Every instruction keeps to the frame whose lowest slot lies above `bottom`.
pub open spec fn code_in_frame(code: Seq<Instr>, bottom: int) -> bool {
    forall|i: int| 0 <= i < code.len() ==> instr_in_frame(#[trigger] code[i], bottom)
}

/// An expression that names neither the frame pointer nor the stack pointer (temporaries 0
/// and 1).
pub open spec fn no_frame_temp(e: Expr) -> bool
    decreases e,
{
    match e {
        Expr::Const(_) | Expr::Name(_) => true,
        Expr::Temp(t) => t.0 >= 2,
        Expr::BinOp(_, a, b) => no_frame_temp(*a) && no_frame_temp(*b),
        Expr::Mem(a) => no_frame_temp(*a),
        Expr::Call(f, args) => no_frame_temp(*f) && forall|i: int| 0 <= i < args@.len() ==> no_frame_temp(#[trigger] args@[i]),
        Expr::ESeq(s, v) => stmt_no_frame_temp(*s) && no_frame_temp(*v),
    }
}

/// A statement that names neither the frame pointer nor the stack pointer.
pub open spec fn stmt_no_frame_temp(s: Stmt) -> bool
    decreases s,
{
    match s {
        Stmt::Move(d, v) => no_frame_temp(d) && no_frame_temp(v),
        Stmt::Expr(e) => no_frame_temp(e),
        Stmt::Jump(e, _) => no_frame_temp(e),
        Stmt::CJump(_, a, b, _, _) => no_frame_temp(a) && no_frame_temp(b),
        Stmt::Sequence(a, b) => stmt_no_frame_temp(*a) && stmt_no_frame_temp(*b),
        Stmt::Label(_) => true,
    }
}

/// The sum of the sizes of a list of statements.
pub open spec fn size_stmts(s: Seq<Stmt>) -> nat
    decreases s.len(),
{
    if s.len() == 0 {
        0
    } else {
        size_stmts(s.drop_last()) + size_s(s.last())
    }
}

/// The machine register that a virtual register below 11 stands for.
pub open spec fn abi_reg(n: usize) -> Option<Register> {
    if n == 0 {
        Some(Register::Fp)
    } else if n == 1 {
        Some(Register::Sp)
    } else if n == 2 || n == 3 {
        Some(Register::A0)
    } else if n == 4 {
        Some(Register::A1)
    } else if n == 5 {
        Some(Register::A2)
    } else if n == 6 {
        Some(Register::A3)
    } else if n == 7 {
        Some(Register::A4)
    } else if n == 8 {
        Some(Register::A5)
    } else if n == 9 {
        Some(Register::A6)
    } else if n == 10 {
        Some(Register::A7)
    } else {
        None
    }
}

/// The register in which the code for an expression leaves its value.
pub open spec fn result_reg(e: Expr) -> Register {
    match e {
        Expr::Call(_, _) => Register::A0,
        Expr::Temp(t) => match abi_reg(t.0) {
            Some(r) => r,
            None => Register::T0,
        },
        _ => Register::T0,
    }
}

/// The register of the `i`-th argument (`i < 8`).
pub open spec fn arg_register(i: int) -> Register {
    if i == 0 {
        Register::A0
    } else if i == 1 {
        Register::A1
    } else if i == 2 {
        Register::A2
    } else if i == 3 {
        Register::A3
    } else if i == 4 {
        Register::A4
    } else if i == 5 {
        Register::A5
    } else if i == 6 {
        Register::A6
    } else {
        Register::A7
    }
}

/// What instruction selection threads from one tile to the next: the slot of each spilled
/// temporary, the next free slot, and the number of the next fresh temporary.
pub struct Spill {
    pub slots: Map<usize, i32>,
    pub counter: int,
    pub next: usize,
}

/// The slot of a temporary: the one it has, else the next free one, which it then takes.
pub open spec fn slot_of(s: Spill, t: usize) -> (i32, Spill) {
    if s.slots.contains_key(t) {
        (s.slots[t], s)
    } else {
        (s.counter as i32, Spill { slots: s.slots.insert(t, s.counter as i32), counter: s.counter - 8, next: s.next })
    }
}

/// A fresh temporary.
pub open spec fn fresh(s: Spill) -> (usize, Spill) {
    (s.next, Spill { slots: s.slots, counter: s.counter, next: bump(s.next) })
}

/// Storing a register into the slot of a temporary.
pub open spec fn spill_store(s: Spill, r: Register, t: usize) -> (Instr, Spill) {
    (Instr::Store { src: r, dst: Offset { reg: Register::Fp, offset: slot_of(s, t).0 } }, slot_of(s, t).1)
}

/// Loading the slot of a temporary into a register.
pub open spec fn spill_load(s: Spill, t: usize, r: Register) -> (Instr, Spill) {
    (Instr::Load { dst: r, src: Offset { reg: Register::Fp, offset: slot_of(s, t).0 } }, slot_of(s, t).1)
}

/// The value of a constant (zero for anything else).
pub open spec fn const_val(e: Expr) -> i64 {
    match e {
        Expr::Const(i) => i,
        _ => 0,
    }
}

/// An addition with a constant operand, which fits an immediate.
pub open spec fn add_const(op: BinOp, a: Expr, b: Expr) -> bool {
    op == BinOp::Add && (b is Const || a is Const)
}

/// The register-register instruction for an operator.
pub open spec fn rname(op: BinOp) -> RInstrName {
    match op {
        BinOp::Sub => RInstrName::Sub,
        BinOp::Mul => RInstrName::Mul,
        BinOp::Div => RInstrName::Div,
        BinOp::And => RInstrName::And,
        BinOp::Xor => RInstrName::Xor,
        _ => RInstrName::Add,
    }
}

/// A load into `t0` from `offset` past the register a tile left its value in.
pub open spec fn load_at(t: (Seq<Instr>, Register, Spill), offset: i64) -> (Seq<Instr>, Register, Spill) {
    (t.0.push(Instr::Load { dst: Register::T0, src: Offset { reg: t.1, offset: offset as i32 } }), Register::T0, t.2)
}

/// `t0` set to the register a tile left its value in, plus a constant.
pub open spec fn add_imm(t: (Seq<Instr>, Register, Spill), imm: i64) -> (Seq<Instr>, Register, Spill) {
    (t.0.push(Instr::IInstr2 { name: IInstr2Name::Addi, rd: Register::T0, rs: t.1, imm: imm as i32 }), Register::T0, t.2)
}

/// The tile of an expression: its instructions, the register that holds its value after
/// them, and the state after them.
pub open spec fn tile_e(e: Expr, s: Spill) -> (Seq<Instr>, Register, Spill)
    decreases size_e(e), 1nat,
{
    proof {
        reveal_with_fuel(size_e, 3);
    }
    match e {
        Expr::Mem(a) => match *a {
            Expr::BinOp(op, x, y) => if add_const(op, *x, *y) {
                if *y is Const {
                    load_at(tile_e(*x, s), const_val(*y))
                } else {
                    load_at(tile_e(*y, s), const_val(*x))
                }
            } else {
                load_at(tile_e(*a, s), 0)
            },
            Expr::Const(i) => (
                seq![Instr::Load { dst: Register::T0, src: Offset { reg: Register::Zero, offset: i as i32 } }],
                Register::T0,
                s,
            ),
            _ => load_at(tile_e(*a, s), 0),
        },
        Expr::BinOp(op, x, y) => if add_const(op, *x, *y) {
            if *y is Const {
                add_imm(tile_e(*x, s), const_val(*y))
            } else {
                add_imm(tile_e(*y, s), const_val(*x))
            }
        } else {
            tile_binop(rname(op), *x, *y, s)
        },
        Expr::Const(i) => (seq![Instr::IInstr1 { name: IInstr1Name::Li, rd: Register::T0, imm: i as i32 }], Register::T0, s),
        Expr::Temp(t) => match abi_reg(t.0) {
            Some(r) => (Seq::empty(), r, s),
            None => (seq![spill_load(s, t.0, Register::T0).0], Register::T0, spill_load(s, t.0, Register::T0).1),
        },
        Expr::Call(f, args) => tile_call(*f, args@, s),
        Expr::Name(l) => (seq![Instr::LoadAddress { dst: Register::T0, src: Label(l.0) }], Register::T0, s),
        Expr::ESeq(_, _) => (Seq::empty(), Register::T0, s),
    }
}

/// An operator applied to two operands: the left one is spilled while the right one is
/// computed, then reloaded into `t1`; the result is in `t0`.
pub open spec fn tile_binop(name: RInstrName, x: Expr, y: Expr, s: Spill) -> (Seq<Instr>, Register, Spill)
    decreases size_e(x) + size_e(y) + 1, 0nat,
{
    let (c1, r1, s1) = tile_e(x, s);
    let (tmp, s2) = fresh(s1);
    let (st, s3) = spill_store(s2, r1, tmp);
    let (c2, r2, s4) = tile_e(y, s3);
    let (ld, s5) = spill_load(s4, tmp, Register::T1);
    (c1.push(st) + c2.push(ld).push(Instr::RInstr { name, rd: Register::T0, rs1: Register::T1, rs2: r2 }), Register::T0, s5)
}

/// A call: each argument computed and spilled in order, then reloaded into its argument
/// register; then a direct call of a label, or an indirect one through the register the
/// function's tile leaves its value in. The result is in `a0`.
pub open spec fn tile_call(f: Expr, args: Seq<Expr>, s: Spill) -> (Seq<Instr>, Register, Spill)
    decreases size_e(f) + size_list(args) + 1, 0nat,
{
    let (c1, ts, s1) = tile_args(args, s);
    let (c2, s2) = tile_loads(ts, 0, s1);
    match f {
        Expr::Name(l) => (c1 + c2.push(Instr::Call { target: Label(l.0) }), Register::A0, s2),
        _ => {
            let (c3, r, s3) = tile_e(f, s2);
            (c1 + c2 + c3.push(Instr::CallIndirect { target: r }), Register::A0, s3)
        },
    }
}

/// Call arguments, each computed and spilled into a fresh temporary: the instructions, the
/// temporaries in order, and the state after them.
pub open spec fn tile_args(args: Seq<Expr>, s: Spill) -> (Seq<Instr>, Seq<usize>, Spill)
    decreases size_list(args), 2nat,
{
    if args.len() == 0 {
        (Seq::empty(), Seq::empty(), s)
    } else {
        proof {
            lemma_size_list_first(args);
        }
        let (c, r, s1) = tile_e(args[0], s);
        let (t, s2) = fresh(s1);
        let (st, s3) = spill_store(s2, r, t);
        let (rest, ts, s4) = tile_args(args.drop_first(), s3);
        (c.push(st) + rest, seq![t] + ts, s4)
    }
}

/// The spilled arguments from the `i`-th on, each reloaded into its argument register.
pub open spec fn tile_loads(ts: Seq<usize>, i: int, s: Spill) -> (Seq<Instr>, Spill)
    decreases ts.len() - i,
{
    if i < 0 || i >= ts.len() {
        (Seq::empty(), s)
    } else {
        let (ld, s1) = spill_load(s, ts[i], arg_register(i));
        let (rest, s2) = tile_loads(ts, i + 1, s1);
        (seq![ld] + rest, s2)
    }
}

/// The branch for a comparison, and the registers it compares (`t1` holds the left operand,
/// `t2` the right one).
pub open spec fn branch_of(op: RelOp) -> (BranchName, Register, Register) {
    match op {
        RelOp::Eq => (BranchName::Beq, Register::T1, Register::T2),
        RelOp::Ne => (BranchName::Bne, Register::T1, Register::T2),
        RelOp::Lt => (BranchName::Blt, Register::T1, Register::T2),
        RelOp::Ge => (BranchName::Bge, Register::T1, Register::T2),
        RelOp::Gt => (BranchName::Blt, Register::T2, Register::T1),
        _ => (BranchName::Bge, Register::T2, Register::T1),
    }
}

/// What a branch tests of the values of its two registers (signed, as RISC-V does).
pub open spec fn branch_holds(cc: BranchName, x: i64, y: i64) -> bool {
    match cc {
        BranchName::Beq => x == y,
        BranchName::Bne => x != y,
        BranchName::Blt => x < y,
        BranchName::Bge => x >= y,
    }
}

/// The value of a register while `t1` holds `v1` and `t2` holds `v2` (0 for any other).
pub open spec fn value_in(r: Register, v1: i64, v2: i64) -> i64 {
    if r == Register::T1 {
        v1
    } else if r == Register::T2 {
        v2
    } else {
        0
    }
}

/// The end of the code of a conditional jump: `t1` loaded (with the left operand), `t2` loaded
/// (with the right one), a branch to the true label taken exactly when the comparison holds
/// between the values in `t1` and `t2`, whatever they are, and a jump to the false label.
pub open spec fn branches_on(code: Seq<Instr>, op: RelOp, tl: Label, fl: Label) -> bool {
    &&& code.len() >= 4
    &&& code[code.len() - 4] matches Instr::Load { dst, .. } && dst == Register::T1
    &&& code[code.len() - 3] matches Instr::Load { dst, .. } && dst == Register::T2
    &&& code[code.len() - 2] matches Instr::Branch { cc, rs1, rs2, target } && target == tl
        && (rs1 == Register::T1 || rs1 == Register::T2) && (rs2 == Register::T1 || rs2 == Register::T2)
        && forall|v1: i64, v2: i64| #[trigger] branch_holds(cc, value_in(rs1, v1, v2), value_in(rs2, v1, v2)) == crate::ir::rel_holds(op, v1, v2)
    &&& code[code.len() - 1] == Instr::Jump { label: fl }
}

/// A store of `t1` at `offset` past the register a tile left an address in.
pub open spec fn store_t1(c: Seq<Instr>, base: Register, offset: i64) -> Seq<Instr> {
    c.push(Instr::Store { src: Register::T1, dst: Offset { reg: base, offset: offset as i32 } })
}

/// A store into memory: the value is computed and spilled, the address computed, the value
/// reloaded into `t1` and stored at the address.
pub open spec fn tile_store(src: Expr, addr: Expr, offset: i64, s: Spill) -> (Seq<Instr>, Spill) {
    let (c1, r1, s1) = tile_e(src, s);
    let (t, s2) = fresh(s1);
    let (st, s3) = spill_store(s2, r1, t);
    let (c2, rb, s4) = tile_e(addr, s3);
    let (ld, s5) = spill_load(s4, t, Register::T1);
    (c1.push(st) + store_t1(c2.push(ld), rb, offset), s5)
}

/// The tile of a statement: its instructions and the state after them.
pub open spec fn tile_s(stmt: Stmt, s: Spill) -> (Seq<Instr>, Spill) {
    match stmt {
        Stmt::Move(Expr::Mem(a), src) => match *a {
            Expr::BinOp(op, x, y) => if add_const(op, *x, *y) {
                if *y is Const {
                    tile_store(src, *x, const_val(*y), s)
                } else {
                    tile_store(src, *y, const_val(*x), s)
                }
            } else {
                tile_store(src, *a, 0, s)
            },
            Expr::Const(i) => {
                let (c, r, s1) = tile_e(src, s);
                (c.push(Instr::Store { src: r, dst: Offset { reg: Register::Zero, offset: i as i32 } }), s1)
            },
            _ => tile_store(src, *a, 0, s),
        },
        Stmt::Move(Expr::Temp(t), src) => {
            let (c, r, s1) = tile_e(src, s);
            match abi_reg(t.0) {
                Some(ar) => (c.push(Instr::IInstr2 { name: IInstr2Name::Addi, rd: ar, rs: r, imm: 0 }), s1),
                None => (c.push(spill_store(s1, r, t.0).0), spill_store(s1, r, t.0).1),
            }
        },
        Stmt::CJump(op, e1, e2, tl, fl) => {
            let (c1, r1, s1) = tile_e(e1, s);
            let (t1, s2) = fresh(s1);
            let (st1, s3) = spill_store(s2, r1, t1);
            let (c2, r2, s4) = tile_e(e2, s3);
            let (t2, s5) = fresh(s4);
            let (st2, s6) = spill_store(s5, r2, t2);
            let (ld1, s7) = spill_load(s6, t1, Register::T1);
            let (ld2, s8) = spill_load(s7, t2, Register::T2);
            let (cc, left, right) = branch_of(op);
            (
                c1.push(st1) + c2.push(st2).push(ld1).push(ld2).push(
                    Instr::Branch { cc, rs1: left, rs2: right, target: Label(tl.0) },
                ).push(Instr::Jump { label: Label(fl.0) }),
                s8,
            )
        },
        Stmt::Jump(Expr::Name(l), _) => (seq![Instr::Jump { label: Label(l.0) }], s),
        Stmt::Label(l) => (seq![Instr::Label(Label(l.0))], s),
        Stmt::Expr(e) => (tile_e(e, s).0, tile_e(e, s).2),
        _ => (Seq::empty(), s),
    }
}

/// A conditional jump is lowered to a branch that goes to its true label exactly when its
/// comparison holds between its left operand (loaded into `t1`) and its right one (loaded into
/// `t2`), for all values of the two, and to a jump to its false label otherwise.
pub proof fn lemma_cjump_branches_on_its_comparison(op: RelOp, e1: Expr, e2: Expr, tl: crate::ir::symbols::Label, fl: crate::ir::symbols::Label, s: Spill)
    requires
        supported_relop(op),
    ensures
        branches_on(tile_s(Stmt::CJump(op, e1, e2, tl, fl), s).0, op, Label(tl.0), Label(fl.0)),
{
    let code = tile_s(Stmt::CJump(op, e1, e2, tl, fl), s).0;
    let (cc, left, right) = branch_of(op);
    assert(code[code.len() - 2] == Instr::Branch { cc, rs1: left, rs2: right, target: Label(tl.0) });
    assert forall|v1: i64, v2: i64| #[trigger] branch_holds(cc, value_in(left, v1, v2), value_in(right, v1, v2)) == crate::ir::rel_holds(op, v1, v2) by {}
}

/// Each operator the selector lowers is computed by the register instruction chosen for it:
/// for all values of its operands, the instruction gives what the operator gives.
pub proof fn lemma_operators_select_their_instruction(op: BinOp, x: i64, y: i64)
    requires
        supported_binop(op),
    ensures
        super::rinstr_value(rname(op), x, y) == crate::ir::op_value(op, x, y),
{
}

/// An operator applied to two operands (but an addition of a constant) ends in a register
/// instruction into `t0` whose first source is `t1` (the left operand, reloaded), and that
/// instruction computes the operator for all values of its sources.
pub proof fn lemma_operator_tile_computes_it(op: BinOp, a: Expr, b: Expr, s: Spill, x: i64, y: i64)
    requires
        supported_binop(op),
        !add_const(op, a, b),
    ensures
        ({
            let code = tile_e(Expr::BinOp(op, Box::new(a), Box::new(b)), s).0;
            &&& code.len() > 0
            &&& code.last() matches Instr::RInstr { name, rd, rs1, rs2 } && rd == Register::T0
                && rs1 == Register::T1
                && super::rinstr_value(name, x, y) == crate::ir::op_value(op, x, y)
        }),
        tile_e(Expr::BinOp(op, Box::new(a), Box::new(b)), s).1 == Register::T0,
{
    let code = tile_e(Expr::BinOp(op, Box::new(a), Box::new(b)), s).0;
    assert(code == tile_binop(rname(op), a, b, s).0);
}

/// The tiles of statements in order.
pub open spec fn tile_stmts(ss: Seq<Stmt>, s: Spill) -> (Seq<Instr>, Spill)
    decreases ss.len(),
{
    if ss.len() == 0 {
        (Seq::empty(), s)
    } else {
        let (c, s1) = tile_s(ss[0], s);
        let (rest, s2) = tile_stmts(ss.drop_first(), s1);
        (c + rest, s2)
    }
}

/// Selecting instructions for two lists of statements one after the other is selecting for
/// the first, then for the second from the state the first left.
pub proof fn lemma_tile_stmts_append(a: Seq<Stmt>, b: Seq<Stmt>, s: Spill)
    ensures
        tile_stmts(a + b, s) == (tile_stmts(a, s).0 + tile_stmts(b, tile_stmts(a, s).1).0, tile_stmts(b, tile_stmts(a, s).1).1),
    decreases a.len(),
{
    if a.len() == 0 {
        assert(a + b =~= b);
        assert(Seq::<Instr>::empty() + tile_stmts(b, s).0 =~= tile_stmts(b, s).0);
    } else {
        let (c, s1) = tile_s(a[0], s);
        lemma_tile_stmts_append(a.drop_first(), b, s1);
        assert((a + b).drop_first() =~= a.drop_first() + b);
        assert((a + b)[0] == a[0]);
        let t = tile_stmts(a.drop_first(), s1);
        assert(c + (t.0 + tile_stmts(b, t.1).0) =~= (c + t.0) + tile_stmts(b, t.1).0);
    }
}

/// The numbers of temporaries.
pub open spec fn temps_of(v: Seq<Temp>) -> Seq<usize> {
    v.map_values(|t: Temp| t.0)
}

/// The instruction selector's state: the frame, which gets a slot for every spilled value,
/// and the instructions chosen so far.
pub struct Muncher {
    frame: Frame,
    names: NameSupply,
    instrs: Vec<Instr>,
}

impl Muncher {
    pub closed spec fn frame(&self) -> Frame {
        self.frame
    }

    pub closed spec fn instrs(&self) -> Seq<Instr> {
        self.instrs@
    }

    /// The spill state: the frame's slots and next free slot, and the next fresh temporary.
    pub closed spec fn spill(&self) -> Spill {
        Spill { slots: self.frame.slots(), counter: self.frame.counter(), next: self.names.next_temp }
    }

    /// The instructions so far keep to the frame.
    pub open spec fn safe(&self) -> bool {
        code_in_frame(self.instrs(), self.frame().counter())
    }

    fn new(frame: Frame, names: NameSupply) -> (r: Self)
        ensures
            r.frame() == frame,
            r.instrs() == Seq::<Instr>::empty(),
            r.spill() == (Spill { slots: frame.slots(), counter: frame.counter(), next: names.next_temp }),
    {
        Self { frame, names, instrs: Vec::new() }
    }

    fn finish(self) -> (r: (Frame, NameSupply, Vec<Instr>))
        ensures
            r.0 == self.frame(),
            r.2@ == self.instrs(),
            r.1.next_temp == self.spill().next,
    {
        (self.frame, self.names, self.instrs)
    }

    fn emit(&mut self, instr: Instr)
        ensures
            final(self).instrs() == old(self).instrs().push(instr),
            final(self).frame() == old(self).frame(),
            final(self).names == old(self).names,
            final(self).spill() == old(self).spill(),
    {
        self.instrs.push(instr);
    }

    /// Selects instructions for each statement in order.
    pub fn munch_all(&mut self, stmts: Vec<Stmt>)
        requires
            old(self).frame().wf(),
            old(self).frame().room() >= 16 * size_stmts(stmts@),
            forall|i: int| 0 <= i < stmts@.len() ==> flat(#[trigger] stmts@[i]) && wf_stmt(stmts@[i]),
        ensures
            final(self).frame().wf(),
            final(self).frame().counter() >= old(self).frame().counter() - 16 * size_stmts(stmts@),
            forall|k: usize| old(self).frame().slots().contains_key(k) ==> final(self).frame().slots().contains_key(k),
            extends(final(self).instrs(), old(self).instrs()),
            old(self).safe() && (forall|i: int| 0 <= i < stmts@.len() ==> stmt_no_frame_temp(#[trigger] stmts@[i]))
                ==> final(self).safe(),
            final(self).instrs() == old(self).instrs() + tile_stmts(stmts@, old(self).spill()).0,
            final(self).spill() == tile_stmts(stmts@, old(self).spill()).1,
    {
        let ghost all = stmts@;
        let ghost sp0 = self.spill();
        let ghost goal = tile_stmts(stmts@, sp0);
        let ghost c0 = self.frame().counter();
        let ghost s0 = self.frame().slots();
        let ghost i0 = self.instrs();
        let mut rest = stmts;
        let mut k: usize = 0;
        let count = rest.len();
        assert(all.take(0) =~= Seq::<Stmt>::empty());
        assert(all.skip(0) =~= all);
        while rest.len() > 0
            invariant
                k <= all.len(),
                all.len() == count,
                rest@ == all.skip(k as int),
                self.frame().wf(),
                self.frame().counter() >= c0 - 16 * size_stmts(all.take(k as int)),
                c0 - frame_floor_int() >= 16 * size_stmts(all),
                forall|kk: usize| s0.contains_key(kk) ==> self.frame().slots().contains_key(kk),
                forall|i: int| 0 <= i < all.len() ==> flat(#[trigger] all[i]) && wf_stmt(all[i]),
                extends(self.instrs(), i0),
                old(self).safe() && (forall|i: int| 0 <= i < all.len() ==> stmt_no_frame_temp(#[trigger] all[i]))
                    ==> self.safe(),
                goal == tile_stmts(all, sp0),
                self.instrs() + tile_stmts(all.skip(k as int), self.spill()).0 == i0 + goal.0,
                tile_stmts(all.skip(k as int), self.spill()).1 == goal.1,
            decreases rest@.len(),
        {
            let ghost before = self.instrs();
            let ghost sk = self.spill();
            let s = rest.remove(0);
            proof {
                assert(s == all[k as int]);
                lemma_size_stmts_split(all, k as int);
                lemma_size_stmts_prefix(all, k + 1);
                assert(all.take(k + 1).drop_last() =~= all.take(k as int));
            }
            self.munch_stmt(s);
            k = k + 1;
            proof {
                assert(rest@ =~= all.skip(k as int));
                assert(all.skip(k - 1)[0] == all[k - 1]);
                assert(all.skip(k - 1).drop_first() =~= all.skip(k as int));
                assert(self.instrs() + tile_stmts(all.skip(k as int), self.spill()).0 =~= before + tile_stmts(all.skip(k - 1), sk).0);
            }
        }
        assert(all.take(k as int) =~= all);
        assert(all.skip(k as int) =~= Seq::<Stmt>::empty());
        assert(self.instrs() =~= i0 + goal.0);
    }

    fn store_temp(&mut self, src: Register, temp: Temp)
        requires
            old(self).frame().wf(),
            old(self).frame().room() >= 8,
        ensures
            final(self).frame().wf(),
            final(self).frame().slots().contains_key(temp.0),
            forall|k: usize| old(self).frame().slots().contains_key(k) ==> final(self).frame().slots().contains_key(k),
            final(self).frame().counter() >= old(self).frame().counter() - 8,
            old(self).frame().slots().contains_key(temp.0) ==> final(self).frame().counter() == old(self).frame().counter(),
            final(self).instrs() == old(self).instrs().push(Instr::Store {
                src,
                dst: Offset { reg: Register::Fp, offset: final(self).frame().slots()[temp.0] },
            }),
            old(self).safe() ==> final(self).safe(),
            final(self).instrs() == old(self).instrs().push(spill_store(old(self).spill(), src, temp.0).0),
            final(self).spill() == spill_store(old(self).spill(), src, temp.0).1,
    {
        let offset = self.frame.get_offset(temp);
        self.emit(Instr::Store { src, dst: Offset { reg: Register::Fp, offset } });
        proof {
            crate::ir::frame::lemma_slot_in_frame(self.frame(), temp.0);
        }
    }

    fn load_temp(&mut self, temp: Temp, dst: Register)
        requires
            old(self).frame().wf(),
            old(self).frame().room() >= 8,
            !frame_reg(dst),
        ensures
            final(self).frame().wf(),
            final(self).frame().slots().contains_key(temp.0),
            forall|k: usize| old(self).frame().slots().contains_key(k) ==> final(self).frame().slots().contains_key(k),
            final(self).frame().counter() >= old(self).frame().counter() - 8,
            old(self).frame().slots().contains_key(temp.0) ==> final(self).frame().counter() == old(self).frame().counter(),
            final(self).instrs() == old(self).instrs().push(Instr::Load {
                dst,
                src: Offset { reg: Register::Fp, offset: final(self).frame().slots()[temp.0] },
            }),
            old(self).safe() ==> final(self).safe(),
            final(self).instrs() == old(self).instrs().push(spill_load(old(self).spill(), temp.0, dst).0),
            final(self).spill() == spill_load(old(self).spill(), temp.0, dst).1,
    {
        let offset = self.frame.get_offset(temp);
        self.emit(Instr::Load { dst, src: Offset { reg: Register::Fp, offset } });
        proof {
            crate::ir::frame::lemma_slot_in_frame(self.frame(), temp.0);
        }
    }
}

impl Muncher {
    #[verifier::spinoff_prover]
    #[verifier::rlimit(60)]
    fn munch_stmt(&mut self, stmt: Stmt)
        requires
            old(self).frame().wf(),
            old(self).frame().room() >= 16 * size_s(stmt),
            flat(stmt),
            wf_stmt(stmt),
        ensures
            final(self).frame().wf(),
            final(self).frame().counter() >= old(self).frame().counter() - 16 * size_s(stmt),
            forall|k: usize| old(self).frame().slots().contains_key(k) ==> final(self).frame().slots().contains_key(k),
            extends(final(self).instrs(), old(self).instrs()),
            old(self).safe() && stmt_no_frame_temp(stmt) ==> final(self).safe(),
            final(self).instrs() == old(self).instrs() + tile_s(stmt, old(self).spill()).0,
            final(self).spill() == tile_s(stmt, old(self).spill()).1,
    {
        let ghost i0 = self.instrs();
        let ghost sp0 = self.spill();
        let ghost gstmt = stmt;
        proof {
            reveal_with_fuel(wf_stmt, 2);
            reveal_with_fuel(size_s, 2);
            reveal_with_fuel(size_e, 3);
            reveal_with_fuel(no_eseq, 3);
            reveal_with_fuel(wf_expr, 3);
            reveal_with_fuel(stmt_no_frame_temp, 2);
            reveal_with_fuel(no_frame_temp, 3);
        }
        match stmt {
            Stmt::Move(Expr::Mem(addr), src) => {
                let a = *addr;
                let ghost ga = a;
                let ghost gs = src;
                match a {
                    Expr::BinOp(op, e1, e2) if op == BinOp::Add && (matches!(*e2, Expr::Const(_)) || matches!(*e1, Expr::Const(_))) => {
                        let (base, i) = if let Expr::Const(i) = *e2 {
                            (*e1, i)
                        } else if let Expr::Const(i) = *e1 {
                            (*e2, i)
                        } else {
                            proof { assert(false); }
                            (Expr::Const(0), 0)
                        };
                        proof {
                            assert(size_e(base) + 1 < size_e(ga));
                            assert(stmt_no_frame_temp(stmt) ==> no_frame_temp(gs) && no_frame_temp(ga));
                            assert(no_frame_temp(ga) ==> no_frame_temp(base));
                        }
                        let r_src = self.munch_exp(src);
                        let tmp_src = Temp::new(&mut self.names);
                        self.store_temp(r_src, tmp_src);
                        let r_base = self.munch_exp(base);
                        self.load_temp(tmp_src, Register::T1);
                        let ghost before = self.instrs();
                        self.emit(Instr::Store { src: Register::T1, dst: Offset { reg: r_base, offset: i as i32 } });
                        proof {
                            if old(self).safe() && stmt_no_frame_temp(stmt) {
                                assert(!frame_reg(r_base));
                                assert(code_in_frame(before, self.frame().counter()));
                                assert(self.instrs() == before.push(Instr::Store { src: Register::T1, dst: Offset { reg: r_base, offset: i as i32 } }));
                            }
                        }
                    },
                    Expr::Const(i) => {
                        proof {
                            assert(stmt_no_frame_temp(stmt) ==> no_frame_temp(gs));
                        }
                        let r_val = self.munch_exp(src);
                        let ghost before = self.instrs();
                        self.emit(Instr::Store { src: r_val, dst: Offset { reg: Register::Zero, offset: i as i32 } });
                        proof {
                            if old(self).safe() && stmt_no_frame_temp(stmt) {
                                assert(code_in_frame(before, self.frame().counter()));
                            }
                        }
                    },
                    e1 => {
                        let r_val = self.munch_exp(src);
                        let tmp_val = Temp::new(&mut self.names);
                        self.store_temp(r_val, tmp_val);
                        let r_addr = self.munch_exp(e1);
                        self.load_temp(tmp_val, Register::T1);
                        self.emit(Instr::Store { src: Register::T1, dst: Offset { reg: r_addr, offset: 0 } });
                    },
                }
            },
            Stmt::Move(Expr::Temp(t), e2) => {
                let r_src = self.munch_exp(e2);
                match get_abi_reg(t) {
                    Some(abi_reg) => {
                        self.emit(Instr::IInstr2 { name: IInstr2Name::Addi, rd: abi_reg, rs: r_src, imm: 0 });
                    },
                    None => {
                        self.store_temp(r_src, t);
                    },
                }
            },
            Stmt::CJump(op, e1, e2, t_lab, f_lab) => {
                let r1 = self.munch_exp(e1);
                let tmp1 = Temp::new(&mut self.names);
                self.store_temp(r1, tmp1);
                let r2 = self.munch_exp(e2);
                let tmp2 = Temp::new(&mut self.names);
                self.store_temp(r2, tmp2);
                self.load_temp(tmp1, Register::T1);
                self.load_temp(tmp2, Register::T2);
                let (cc, left, right) = match op {
                    RelOp::Eq => (BranchName::Beq, Register::T1, Register::T2),
                    RelOp::Ne => (BranchName::Bne, Register::T1, Register::T2),
                    RelOp::Lt => (BranchName::Blt, Register::T1, Register::T2),
                    RelOp::Ge => (BranchName::Bge, Register::T1, Register::T2),
                    RelOp::Gt => (BranchName::Blt, Register::T2, Register::T1),
                    _ => (BranchName::Bge, Register::T2, Register::T1),
                };
                self.emit(Instr::Branch { cc, rs1: left, rs2: right, target: Label(t_lab.0) });
                self.emit(Instr::Jump { label: Label(f_lab.0) });
            },
            Stmt::Jump(Expr::Name(l), _) => self.emit(Instr::Jump { label: Label(l.0) }),
            Stmt::Label(l) => self.emit(Instr::Label(Label(l.0))),
            Stmt::Expr(e) => {
                self.munch_exp(e);
            },
            _ => {
                proof { assert(false); }
            },
        }
        proof {
            assert(self.instrs() =~= i0 + tile_s(gstmt, sp0).0);
        }
    }
}

impl Muncher {
    fn munch_exp(&mut self, expr: Expr) -> (r: Register)
        requires
            old(self).frame().wf(),
            old(self).frame().room() >= 16 * size_e(expr),
            no_eseq(expr),
            wf_expr(expr),
        ensures
            r == result_reg(expr),
            final(self).frame().wf(),
            final(self).frame().counter() >= old(self).frame().counter() - 16 * size_e(expr) + 8,
            forall|k: usize| old(self).frame().slots().contains_key(k) ==> final(self).frame().slots().contains_key(k),
            extends(final(self).instrs(), old(self).instrs()),
            no_frame_temp(expr) ==> !frame_reg(r),
            old(self).safe() && no_frame_temp(expr) ==> final(self).safe(),
            final(self).instrs() == old(self).instrs() + tile_e(expr, old(self).spill()).0,
            r == tile_e(expr, old(self).spill()).1,
            final(self).spill() == tile_e(expr, old(self).spill()).2,
        decreases size_e(expr), 1nat,
    {
        let ghost i0 = self.instrs();
        let ghost s0 = self.spill();
        let ghost ge = expr;
        proof {
            reveal_with_fuel(size_e, 3);
            reveal_with_fuel(no_eseq, 3);
            reveal_with_fuel(wf_expr, 3);
            reveal_with_fuel(no_frame_temp, 3);
        }
        let r = match expr {
            Expr::Mem(inner) => {
                let a = *inner;
                let ghost ga = a;
                match a {
                    Expr::BinOp(op, e1, e2) if op == BinOp::Add && (matches!(*e2, Expr::Const(_)) || matches!(*e1, Expr::Const(_))) => {
                        let (base, i) = if let Expr::Const(i) = *e2 {
                            (*e1, i)
                        } else if let Expr::Const(i) = *e1 {
                            (*e2, i)
                        } else {
                            proof { assert(false); }
                            (Expr::Const(0), 0)
                        };
                        proof {
                            assert(size_e(base) + 1 < size_e(ga));
                        }
                        let r1 = self.munch_exp(base);
                        self.emit(Instr::Load { dst: Register::T0, src: Offset { reg: r1, offset: i as i32 } });
                        Register::T0
                    },
                    Expr::Const(i) => {
                        self.emit(Instr::Load { dst: Register::T0, src: Offset { reg: Register::Zero, offset: i as i32 } });
                        Register::T0
                    },
                    e1 => {
                        let r_addr = self.munch_exp(e1);
                        self.emit(Instr::Load { dst: Register::T0, src: Offset { reg: r_addr, offset: 0 } });
                        Register::T0
                    },
                }
            },
            Expr::BinOp(op, e1, e2) if op == BinOp::Add && (matches!(*e2, Expr::Const(_)) || matches!(*e1, Expr::Const(_))) => {
                let (base, i) = if let Expr::Const(i) = *e2 {
                    (*e1, i)
                } else if let Expr::Const(i) = *e1 {
                    (*e2, i)
                } else {
                    proof { assert(false); }
                    (Expr::Const(0), 0)
                };
                let r1 = self.munch_exp(base);
                self.emit(Instr::IInstr2 { name: IInstr2Name::Addi, rd: Register::T0, rs: r1, imm: i as i32 });
                Register::T0
            },
            Expr::Const(i) => {
                self.emit(Instr::IInstr1 { name: IInstr1Name::Li, rd: Register::T0, imm: i as i32 });
                Register::T0
            },
            Expr::BinOp(op, e1, e2) => {
                let name = match op {
                    BinOp::Sub => RInstrName::Sub,
                    BinOp::Mul => RInstrName::Mul,
                    BinOp::Div => RInstrName::Div,
                    BinOp::And => RInstrName::And,
                    BinOp::Xor => RInstrName::Xor,
                    _ => RInstrName::Add,
                };
                self.munch_binop(name, *e1, *e2)
            },
            Expr::Temp(t) => {
                match get_abi_reg(t) {
                    Some(abi_reg) => abi_reg,
                    None => {
                        self.load_temp(t, Register::T0);
                        Register::T0
                    },
                }
            },
            Expr::Call(func_expr, args) => {
                self.munch_call(*func_expr, args)
            },
            Expr::Name(l) => {
                self.emit(Instr::LoadAddress { dst: Register::T0, src: Label(l.0) });
                Register::T0
            },
            Expr::ESeq(_, _) => {
                proof { assert(false); }
                Register::T0
            },
        };
        proof {
            assert(self.instrs() =~= i0 + tile_e(ge, s0).0);
        }
        r
    }

    fn munch_binop(&mut self, name: RInstrName, e1: Expr, e2: Expr) -> (r: Register)
        requires
            old(self).frame().wf(),
            old(self).frame().room() >= 16 * (size_e(e1) + size_e(e2)) + 8,
            no_eseq(e1),
            wf_expr(e1),
            no_eseq(e2),
            wf_expr(e2),
        ensures
            r == Register::T0,
            final(self).frame().wf(),
            final(self).frame().counter() >= old(self).frame().counter() - 16 * (size_e(e1) + size_e(e2)) + 8,
            forall|k: usize| old(self).frame().slots().contains_key(k) ==> final(self).frame().slots().contains_key(k),
            extends(final(self).instrs(), old(self).instrs()),
            old(self).safe() && no_frame_temp(e1) && no_frame_temp(e2) ==> final(self).safe(),
            final(self).instrs() == old(self).instrs() + tile_binop(name, e1, e2, old(self).spill()).0,
            final(self).spill() == tile_binop(name, e1, e2, old(self).spill()).2,
        decreases size_e(e1) + size_e(e2) + 1, 0nat,
    {
        let ghost i0 = self.instrs();
        let ghost s0 = self.spill();
        let ghost (g1, g2) = (e1, e2);
        let r1 = self.munch_exp(e1);
        let tmp = Temp::new(&mut self.names);
        self.store_temp(r1, tmp);
        let r2 = self.munch_exp(e2);
        self.load_temp(tmp, Register::T1);
        self.emit(Instr::RInstr { name, rd: Register::T0, rs1: Register::T1, rs2: r2 });
        proof {
            assert(self.instrs() =~= i0 + tile_binop(name, g1, g2, s0).0);
        }
        Register::T0
    }

    fn munch_call(&mut self, func_expr: Expr, args: Vec<Expr>) -> (r: Register)
        requires
            old(self).frame().wf(),
            old(self).frame().room() >= 16 * (size_e(func_expr) + size_list(args@)) + 8,
            no_eseq(func_expr),
            wf_expr(func_expr),
            args@.len() <= 8,
            forall|i: int| 0 <= i < args@.len() ==> no_eseq(#[trigger] args@[i]) && wf_expr(args@[i]),
        ensures
            r == Register::A0,
            final(self).frame().wf(),
            final(self).frame().counter() >= old(self).frame().counter() - 16 * (size_e(func_expr) + size_list(args@)) + 8,
            forall|k: usize| old(self).frame().slots().contains_key(k) ==> final(self).frame().slots().contains_key(k),
            extends(final(self).instrs(), old(self).instrs()),
            old(self).safe() && no_frame_temp(func_expr) && (forall|i: int| 0 <= i < args@.len() ==> no_frame_temp(#[trigger] args@[i]))
                ==> final(self).safe(),
            final(self).instrs() == old(self).instrs() + tile_call(func_expr, args@, old(self).spill()).0,
            final(self).spill() == tile_call(func_expr, args@, old(self).spill()).2,
        decreases size_e(func_expr) + size_list(args@) + 1, 0nat,
    {
        let ghost i0 = self.instrs();
        let ghost all = args@;
        let ghost sp0 = self.spill();
        let ghost ta = tile_args(args@, sp0);
        let ghost c0 = self.frame().counter();
        let ghost s0 = self.frame().slots();
        let n = args.len();
        let mut arg_temps: Vec<Temp> = Vec::new();
        let mut rest = args;
        let mut k: usize = 0;
        proof {
            assert(all.take(0) =~= Seq::<Expr>::empty());
            lemma_size_list_prefix(all, 0);
            assert(all.skip(0) =~= all);
            assert(temps_of(arg_temps@) + ta.1 =~= ta.1);
        }
        while rest.len() > 0
            invariant
                k <= n,
                n == all.len(),
                all == args@,
                n <= 8,
                rest@ == all.skip(k as int),
                arg_temps@.len() == k,
                self.instrs() + tile_args(all.skip(k as int), self.spill()).0 == i0 + ta.0,
                temps_of(arg_temps@) + tile_args(all.skip(k as int), self.spill()).1 == ta.1,
                tile_args(all.skip(k as int), self.spill()).2 == ta.2,
                ta == tile_args(all, sp0),
                self.frame().wf(),
                self.frame().counter() >= c0 - 16 * size_list(all.take(k as int)),
                c0 - frame_floor_int() >= 16 * (size_e(func_expr) + size_list(all)) + 8,
                size_e(func_expr) >= 1,
                forall|j: int| 0 <= j < k ==> self.frame().slots().contains_key(#[trigger] arg_temps@[j].0),
                forall|kk: usize| s0.contains_key(kk) ==> self.frame().slots().contains_key(kk),
                forall|i: int| 0 <= i < all.len() ==> no_eseq(#[trigger] all[i]) && wf_expr(all[i]),
                extends(self.instrs(), i0),
                old(self).safe() && no_frame_temp(func_expr) && (forall|i: int| 0 <= i < all.len() ==> no_frame_temp(#[trigger] all[i]))
                    ==> self.safe(),
            decreases rest@.len(),
        {
            let ghost before = self.instrs();
            let ghost sk = self.spill();
            let ghost ts0 = temps_of(arg_temps@);
            let arg = rest.remove(0);
            proof {
                assert(arg == all[k as int]);
                assert(all.skip(k as int)[0] == all[k as int]);
                assert(all.skip(k as int).drop_first() =~= all.skip(k + 1));
                lemma_size_list_take(all, k as int);
                lemma_size_list_prefix(all, k + 1);
            }
            let r_arg = self.munch_exp(arg);
            let t_arg = Temp::new(&mut self.names);
            self.store_temp(r_arg, t_arg);
            arg_temps.push(t_arg);
            k = k + 1;
            proof {
                assert(rest@ =~= all.skip(k as int));
                assert(temps_of(arg_temps@) =~= ts0.push(t_arg.0));
                assert(self.instrs() + tile_args(all.skip(k as int), self.spill()).0 =~= before
                    + tile_args(all.skip(k - 1), sk).0);
                assert(temps_of(arg_temps@) + tile_args(all.skip(k as int), self.spill()).1 =~= ts0
                    + tile_args(all.skip(k - 1), sk).1);
            }
        }
        proof {
            assert(all.take(n as int) =~= all);
        }
        let ghost c1 = self.frame().counter();
        proof {
            assert(all.skip(n as int) =~= Seq::<Expr>::empty());
            assert(self.instrs() =~= i0 + ta.0);
            assert(temps_of(arg_temps@) =~= ta.1);
        }
        let ghost i1 = self.instrs();
        let ghost tl = tile_loads(ta.1, 0, ta.2);
        let mut i: usize = 0;
        while i < arg_temps.len()
            invariant
                i <= arg_temps@.len(),
                arg_temps@.len() == n,
                n <= 8,
                self.frame().wf(),
                self.frame().counter() == c1,
                c1 >= c0 - 16 * size_list(all),
                c0 - frame_floor_int() >= 16 * (size_e(func_expr) + size_list(all)) + 8,
                forall|j: int| 0 <= j < n ==> self.frame().slots().contains_key(#[trigger] arg_temps@[j].0),
                forall|kk: usize| s0.contains_key(kk) ==> self.frame().slots().contains_key(kk),
                extends(self.instrs(), i0),
                old(self).safe() && no_frame_temp(func_expr) && (forall|i: int| 0 <= i < all.len() ==> no_frame_temp(#[trigger] all[i]))
                    ==> self.safe(),
                temps_of(arg_temps@) == ta.1,
                i1 == i0 + ta.0,
                tl == tile_loads(ta.1, 0, ta.2),
                self.instrs() + tile_loads(ta.1, i as int, self.spill()).0 == i1 + tl.0,
                tile_loads(ta.1, i as int, self.spill()).1 == tl.1,
            decreases arg_temps@.len() - i,
        {
            let ghost before = self.instrs();
            let ghost si = self.spill();
            let target_reg = arg_reg_for(i);
            proof {
                assert(temps_of(arg_temps@)[i as int] == arg_temps@[i as int].0);
            }
            self.load_temp(arg_temps[i], target_reg);
            i = i + 1;
            proof {
                assert(self.instrs() + tile_loads(ta.1, i as int, self.spill()).0 =~= before + tile_loads(ta.1, i - 1, si).0);
            }
        }
        proof {
            assert(self.instrs() =~= i1 + tl.0);
        }
        let ghost before = self.instrs();
        let ghost gf = func_expr;
        match func_expr {
            Expr::Name(l) => self.emit(Instr::Call { target: Label(l.0) }),
            other => {
                let r_func = self.munch_exp(other);
                self.emit(Instr::CallIndirect { target: r_func });
            },
        }
        proof {
            assert(self.instrs() =~= i0 + tile_call(gf, all, sp0).0);
        }
        Register::A0
    }
}

/// Selects instructions for a function body, spilling into `frame`.
pub fn stmts(body: Vec<Stmt>, frame: &mut Frame, names: &mut NameSupply) -> (r: Vec<Instr>)
    requires
        old(frame).wf(),
        old(frame).room() >= 16 * size_stmts(body@),
        forall|i: int| 0 <= i < body@.len() ==> flat(#[trigger] body@[i]) && wf_stmt(body@[i]),
    ensures
        final(frame).wf(),
        final(frame).counter() >= old(frame).counter() - 16 * size_stmts(body@),
        forall|k: usize| old(frame).slots().contains_key(k) ==> final(frame).slots().contains_key(k),
        (forall|i: int| 0 <= i < body@.len() ==> stmt_no_frame_temp(#[trigger] body@[i])) ==> code_in_frame(
            r@,
            final(frame).counter(),
        ),
        r@ == tile_stmts(body@, Spill { slots: old(frame).slots(), counter: old(frame).counter(), next: old(names).next_temp }).0,
        tile_stmts(body@, Spill { slots: old(frame).slots(), counter: old(frame).counter(), next: old(names).next_temp }).1
            == (Spill { slots: final(frame).slots(), counter: final(frame).counter(), next: final(names).next_temp }),
{
    let mut f = Frame::new(String::new());
    std::mem::swap(&mut f, frame);
    let mut n2 = NameSupply::new();
    std::mem::swap(&mut n2, names);
    let mut muncher = Muncher::new(f, n2);
    muncher.munch_all(body);
    let (fr, nm, instrs) = muncher.finish();
    *frame = fr;
    *names = nm;
    instrs
}

/// The argument register for the `i`-th argument.
fn arg_reg_for(i: usize) -> (r: Register)
    requires
        i < 8,
    ensures
        r == arg_register(i as int),
{
    if i == 0 {
        Register::A0
    } else if i == 1 {
        Register::A1
    } else if i == 2 {
        Register::A2
    } else if i == 3 {
        Register::A3
    } else if i == 4 {
        Register::A4
    } else if i == 5 {
        Register::A5
    } else if i == 6 {
        Register::A6
    } else {
        Register::A7
    }
}

/// The machine register of a virtual register below 11, if any.
fn get_abi_reg(t: Temp) -> (r: Option<Register>)
    ensures
        r == abi_reg(t.0),
{
    if t.0 == 0 {
        Some(Register::Fp)
    } else if t.0 == 1 {
        Some(Register::Sp)
    } else if t.0 == 2 || t.0 == 3 {
        Some(Register::A0)
    } else if t.0 >= 4 && t.0 <= 10 {
        Some(if t.0 == 4 {
            Register::A1
        } else if t.0 == 5 {
            Register::A2
        } else if t.0 == 6 {
            Register::A3
        } else if t.0 == 7 {
            Register::A4
        } else if t.0 == 8 {
            Register::A5
        } else if t.0 == 9 {
            Register::A6
        } else {
            Register::A7
        })
    } else {
        None
    }
}

pub proof fn lemma_size_list_take(all: Seq<Expr>, k: int)
    requires
        0 <= k < all.len(),
    ensures
        size_list(all.take(k + 1)) == size_list(all.take(k)) + size_e(all[k]),
{
    assert(all.take(k + 1).drop_last() =~= all.take(k));
}

pub proof fn lemma_size_list_prefix(all: Seq<Expr>, k: int)
    requires
        0 <= k <= all.len(),
    ensures
        size_list(all.take(k)) <= size_list(all),
    decreases all.len(),
{
    if k < all.len() {
        lemma_size_list_prefix(all.drop_last(), k);
        assert(all.drop_last().take(k) =~= all.take(k));
    } else {
        assert(all.take(k) =~= all);
    }
}

/// The lowest counter a frame may reach, as an integer.
pub open spec fn frame_floor_int() -> int {
    crate::ir::frame::frame_floor()
}

pub proof fn lemma_size_stmts_prefix(all: Seq<Stmt>, k: int)
    requires
        0 <= k <= all.len(),
    ensures
        size_stmts(all.take(k)) <= size_stmts(all),
    decreases all.len(),
{
    if k < all.len() {
        lemma_size_stmts_prefix(all.drop_last(), k);
        assert(all.drop_last().take(k) =~= all.take(k));
    } else {
        assert(all.take(k) =~= all);
    }
}

pub proof fn lemma_size_stmts_split(all: Seq<Stmt>, k: int)
    requires
        0 <= k < all.len(),
    ensures
        size_stmts(all.take(k + 1)) == size_stmts(all.take(k)) + size_s(all[k]),
{
    assert(all.take(k + 1).drop_last() =~= all.take(k));
}

} // verus!
