//! RISC-V instructions, their assembler text, and the lowering of fragments to them.
pub mod lower;
pub mod ready;
pub mod register;

use vstd::prelude::*;

pub use register::{reg_text, Register};

use crate::ir::canonical::{flat, size_s};
use crate::ir::frame::{Frame, WORD_SIZE};
use crate::ir::{self, wf_stmt, Fragment};
use crate::ir::symbols::NameSupply;
use crate::text::{decimal, push_char, push_decimal, push_signed, push_str, signed_decimal};

verus! {

/// An assembler label.
#[derive(Debug)]
pub struct Label(pub String);

impl Clone for Label {
    fn clone(&self) -> (r: Self)
        ensures
            r == *self,
    {
        Label(self.0.clone())
    }
}

/// A memory operand: a register plus a byte offset.
#[derive(Debug, Clone, Copy, PartialEq, Eq, Structural)]
pub struct Offset {
    pub reg: Register,
    pub offset: i32,
}

#[derive(Debug)]
#[allow(inconsistent_fields)]
pub enum Instr {
    DGlobal { label: Label },
    DAlign { num_bits: u8 },
    Label(Label),
    RInstr { name: RInstrName, rd: Register, rs1: Register, rs2: Register },
    IInstr2 { name: IInstr2Name, rd: Register, rs: Register, imm: i32 },
    IInstr1 { name: IInstr1Name, rd: Register, imm: i32 },
    Load { dst: Register, src: Offset },
    Store { src: Register, dst: Offset },
    LoadAddress { dst: Register, src: Label },
    Call { target: Label },
    CallIndirect { target: Register },
    Jump { label: Label },
    JumpIndirect { label: Register, offset: i32 },
    Branch { cc: BranchName, rs1: Register, rs2: Register, target: Label },
    Return,
}

#[derive(Debug, Clone, Copy, PartialEq, Eq, Structural)]
pub enum RInstrName {
    Add,
    Sub,
    Mul,
    Div,
    And,
    Xor,
    Sltu,
    Slt,
    Sll,
    Srl,
}

#[derive(Debug, Clone, Copy, PartialEq, Eq, Structural)]
pub enum IInstr2Name {
    Addi,
    Xori,
    Slti,
    Slli,
    Srli,
}

#[derive(Debug, Clone, Copy, PartialEq, Eq, Structural)]
pub enum IInstr1Name {
    Li,
}

#[derive(Debug, Clone, Copy, PartialEq, Eq, Structural)]
pub enum BranchName {
    Beq,
    Bne,
    Blt,
    Bge,
}

/// What a register instruction computes from the values of its two source registers.
pub open spec fn rinstr_value(n: RInstrName, x: i64, y: i64) -> int {
    match n {
        RInstrName::Add => x + y,
        RInstrName::Sub => x - y,
        RInstrName::Mul => x * y,
        RInstrName::Div => crate::ir::trunc_div(x as int, y as int),
        RInstrName::And => (x & y) as int,
        RInstrName::Xor => (x ^ y) as int,
        RInstrName::Sltu => if (x as u64) < (y as u64) { 1 } else { 0 },
        RInstrName::Slt => if x < y { 1 } else { 0 },
        RInstrName::Sll => ((x as u64) << ((y as u64) & 63u64)) as int,
        RInstrName::Srl => ((x as u64) >> ((y as u64) & 63u64)) as int,
    }
}

/// What the RISC-V register instruction named by a mnemonic computes from the values of its
/// two source registers (0 for a text that names none of them).
pub open spec fn mnemonic_value(t: Seq<char>, x: i64, y: i64) -> int {
    if t == "add"@ {
        x + y
    } else if t == "sub"@ {
        x - y
    } else if t == "mul"@ {
        x * y
    } else if t == "div"@ {
        crate::ir::trunc_div(x as int, y as int)
    } else if t == "and"@ {
        (x & y) as int
    } else if t == "xor"@ {
        (x ^ y) as int
    } else if t == "sltu"@ {
        if (x as u64) < (y as u64) { 1 } else { 0 }
    } else if t == "slt"@ {
        if x < y { 1 } else { 0 }
    } else if t == "sll"@ {
        ((x as u64) << ((y as u64) & 63u64)) as int
    } else if t == "srl"@ {
        ((x as u64) >> ((y as u64) & 63u64)) as int
    } else {
        0
    }
}

/// What an instruction with an immediate computes from the value of its source register and
/// the immediate.
pub open spec fn iinstr2_value(n: IInstr2Name, x: i64, imm: i64) -> int {
    match n {
        IInstr2Name::Addi => x + imm,
        IInstr2Name::Xori => (x ^ imm) as int,
        IInstr2Name::Slti => if x < imm { 1 } else { 0 },
        IInstr2Name::Slli => ((x as u64) << ((imm as u64) & 63u64)) as int,
        IInstr2Name::Srli => ((x as u64) >> ((imm as u64) & 63u64)) as int,
    }
}

/// What the RISC-V instruction with an immediate named by a mnemonic computes (0 for a text
/// that names none of them).
pub open spec fn imm_mnemonic_value(t: Seq<char>, x: i64, imm: i64) -> int {
    if t == "addi"@ {
        x + imm
    } else if t == "xori"@ {
        (x ^ imm) as int
    } else if t == "slti"@ {
        if x < imm { 1 } else { 0 }
    } else if t == "slli"@ {
        ((x as u64) << ((imm as u64) & 63u64)) as int
    } else if t == "srli"@ {
        ((x as u64) >> ((imm as u64) & 63u64)) as int
    } else {
        0
    }
}

/// Whether the RISC-V branch named by a mnemonic is taken on the values of its two registers
/// (false for a text that names none of them).
pub open spec fn branch_mnemonic_holds(t: Seq<char>, x: i64, y: i64) -> bool {
    if t == "beq"@ {
        x == y
    } else if t == "bne"@ {
        x != y
    } else if t == "blt"@ {
        x < y
    } else if t == "bge"@ {
        x >= y
    } else {
        false
    }
}

pub open spec fn rinstr_text(n: RInstrName) -> Seq<char> {
    match n {
        RInstrName::Add => "add"@,
        RInstrName::Sub => "sub"@,
        RInstrName::Mul => "mul"@,
        RInstrName::Div => "div"@,
        RInstrName::And => "and"@,
        RInstrName::Xor => "xor"@,
        RInstrName::Sltu => "sltu"@,
        RInstrName::Slt => "slt"@,
        RInstrName::Sll => "sll"@,
        RInstrName::Srl => "srl"@,
    }
}

pub open spec fn iinstr2_text(n: IInstr2Name) -> Seq<char> {
    match n {
        IInstr2Name::Addi => "addi"@,
        IInstr2Name::Xori => "xori"@,
        IInstr2Name::Slti => "slti"@,
        IInstr2Name::Slli => "slli"@,
        IInstr2Name::Srli => "srli"@,
    }
}

pub open spec fn branch_text(n: BranchName) -> Seq<char> {
    match n {
        BranchName::Beq => "beq"@,
        BranchName::Bne => "bne"@,
        BranchName::Blt => "blt"@,
        BranchName::Bge => "bge"@,
    }
}

/// `offset(reg)`.
pub open spec fn offset_text(o: Offset) -> Seq<char> {
    signed_decimal(o.offset as int) + "("@ + reg_text(o.reg) + ")"@
}

/// The assembler line of an instruction (without the line break).
pub open spec fn instr_text(i: Instr) -> Seq<char> {
    match i {
        Instr::DGlobal { label } => "\t.globl\t"@ + label.0@,
        Instr::DAlign { num_bits } => "\t.align\t"@ + decimal(num_bits as nat),
        Instr::Label(label) => label.0@ + ":"@,
        Instr::RInstr { name, rd, rs1, rs2 } => "\t"@ + rinstr_text(name) + "\t"@ + reg_text(rd) + ", "@
            + reg_text(rs1) + ", "@ + reg_text(rs2),
        Instr::IInstr2 { name, rd, rs, imm } => "\t"@ + iinstr2_text(name) + "\t"@ + reg_text(rd) + ", "@
            + reg_text(rs) + ", "@ + signed_decimal(imm as int),
        Instr::IInstr1 { name, rd, imm } => "\t"@ + "li"@ + "\t"@ + reg_text(rd) + ", "@ + signed_decimal(imm as int),
        Instr::Load { dst, src } => "\tld\t"@ + reg_text(dst) + ", "@ + offset_text(src),
        Instr::Store { src, dst } => "\tsd\t"@ + reg_text(src) + ", "@ + offset_text(dst),
        Instr::LoadAddress { dst, src } => "\tla\t"@ + reg_text(dst) + ", "@ + src.0@,
        Instr::Call { target } => "\tcall\t"@ + target.0@,
        Instr::CallIndirect { target } => "\tjalr\t"@ + reg_text(target),
        Instr::Jump { label } => "\tj\t"@ + label.0@,
        Instr::JumpIndirect { label, offset } => "\tjalr\t"@ + reg_text(Register::Zero) + ", "@
            + signed_decimal(offset as int) + "("@ + reg_text(label) + ")"@,
        Instr::Branch { cc, rs1, rs2, target } => "\t"@ + branch_text(cc) + "\t"@ + reg_text(rs1) + ", "@
            + reg_text(rs2) + ", "@ + target.0@,
        Instr::Return => "\tret"@,
    }
}

fn write_offset(o: &Offset, out: &mut String)
    ensures
        final(out)@ == old(out)@ + offset_text(*o),
{
    push_signed(out, o.offset as i128);
    push_str(out, "(");
    o.reg.write_into(out);
    push_str(out, ")");
    assert(out@ =~= old(out)@ + offset_text(*o));
}

fn write_rname(n: RInstrName, out: &mut String)
    ensures
        final(out)@ == old(out)@ + rinstr_text(n),
{
    match n {
        RInstrName::Add => push_str(out, "add"),
        RInstrName::Sub => push_str(out, "sub"),
        RInstrName::Mul => push_str(out, "mul"),
        RInstrName::Div => push_str(out, "div"),
        RInstrName::And => push_str(out, "and"),
        RInstrName::Xor => push_str(out, "xor"),
        RInstrName::Sltu => push_str(out, "sltu"),
        RInstrName::Slt => push_str(out, "slt"),
        RInstrName::Sll => push_str(out, "sll"),
        RInstrName::Srl => push_str(out, "srl"),
    }
}

fn write_i2name(n: IInstr2Name, out: &mut String)
    ensures
        final(out)@ == old(out)@ + iinstr2_text(n),
{
    match n {
        IInstr2Name::Addi => push_str(out, "addi"),
        IInstr2Name::Xori => push_str(out, "xori"),
        IInstr2Name::Slti => push_str(out, "slti"),
        IInstr2Name::Slli => push_str(out, "slli"),
        IInstr2Name::Srli => push_str(out, "srli"),
    }
}

fn write_branch(n: BranchName, out: &mut String)
    ensures
        final(out)@ == old(out)@ + branch_text(n),
{
    match n {
        BranchName::Beq => push_str(out, "beq"),
        BranchName::Bne => push_str(out, "bne"),
        BranchName::Blt => push_str(out, "blt"),
        BranchName::Bge => push_str(out, "bge"),
    }
}

impl Instr {
    #[verifier::rlimit(40)]
    fn write_group_a(&self, out: &mut String)
        requires
            self is DGlobal || self is DAlign || self is Label || self is LoadAddress || self is Call || self is CallIndirect || self is Jump || self is Return,
        ensures
            final(out)@ == old(out)@ + instr_text(*self),
    {
        match self {
            Instr::DGlobal { label } => {
                push_str(out, "\t.globl\t");
                push_str(out, label.0.as_str());
                assert(out@ =~= old(out)@ + instr_text(*self));
            },
            Instr::DAlign { num_bits } => {
                push_str(out, "\t.align\t");
                push_decimal(out, *num_bits as u128);
                assert(out@ =~= old(out)@ + instr_text(*self));
            },
            Instr::Label(label) => {
                push_str(out, label.0.as_str());
                push_str(out, ":");
                assert(out@ =~= old(out)@ + instr_text(*self));
            },
            Instr::LoadAddress { dst, src } => {
                push_str(out, "\tla\t");
                dst.write_into(out);
                push_str(out, ", ");
                push_str(out, src.0.as_str());
                assert(out@ =~= old(out)@ + instr_text(*self));
            },
            Instr::Call { target } => {
                push_str(out, "\tcall\t");
                push_str(out, target.0.as_str());
                assert(out@ =~= old(out)@ + instr_text(*self));
            },
            Instr::CallIndirect { target } => {
                push_str(out, "\tjalr\t");
                target.write_into(out);
                assert(out@ =~= old(out)@ + instr_text(*self));
            },
            Instr::Jump { label } => {
                push_str(out, "\tj\t");
                push_str(out, label.0.as_str());
                assert(out@ =~= old(out)@ + instr_text(*self));
            },
            Instr::Return => push_str(out, "\tret"),
            _ => {
                proof {
                    assert(false);
                }
            },
        }
    }

    #[verifier::rlimit(40)]
    fn write_group_b(&self, out: &mut String)
        requires
            self is RInstr || self is IInstr2 || self is IInstr1,
        ensures
            final(out)@ == old(out)@ + instr_text(*self),
    {
        match self {
            Instr::RInstr { name, rd, rs1, rs2 } => {
                push_str(out, "\t");
                write_rname(*name, out);
                push_str(out, "\t");
                rd.write_into(out);
                push_str(out, ", ");
                rs1.write_into(out);
                push_str(out, ", ");
                rs2.write_into(out);
                assert(out@ =~= old(out)@ + instr_text(*self));
            },
            Instr::IInstr2 { name, rd, rs, imm } => {
                push_str(out, "\t");
                write_i2name(*name, out);
                push_str(out, "\t");
                rd.write_into(out);
                push_str(out, ", ");
                rs.write_into(out);
                push_str(out, ", ");
                push_signed(out, *imm as i128);
                assert(out@ =~= old(out)@ + instr_text(*self));
            },
            Instr::IInstr1 { name, rd, imm } => {
                push_str(out, "\t");
                push_str(out, "li");
                push_str(out, "\t");
                rd.write_into(out);
                push_str(out, ", ");
                push_signed(out, *imm as i128);
                assert(out@ =~= old(out)@ + instr_text(*self));
            },
            _ => {
                proof {
                    assert(false);
                }
            },
        }
    }

    #[verifier::rlimit(40)]
    fn write_group_c(&self, out: &mut String)
        requires
            self is Load || self is Store || self is JumpIndirect || self is Branch,
        ensures
            final(out)@ == old(out)@ + instr_text(*self),
    {
        match self {
            Instr::Load { dst, src } => {
                push_str(out, "\tld\t");
                dst.write_into(out);
                push_str(out, ", ");
                write_offset(src, out);
                assert(out@ =~= old(out)@ + instr_text(*self));
            },
            Instr::Store { src, dst } => {
                push_str(out, "\tsd\t");
                src.write_into(out);
                push_str(out, ", ");
                write_offset(dst, out);
                assert(out@ =~= old(out)@ + instr_text(*self));
            },
            Instr::JumpIndirect { label, offset } => {
                push_str(out, "\tjalr\t");
                Register::Zero.write_into(out);
                push_str(out, ", ");
                push_signed(out, *offset as i128);
                push_str(out, "(");
                label.write_into(out);
                push_str(out, ")");
                assert(out@ =~= old(out)@ + instr_text(*self));
            },
            Instr::Branch { cc, rs1, rs2, target } => {
                push_str(out, "\t");
                write_branch(*cc, out);
                push_str(out, "\t");
                rs1.write_into(out);
                push_str(out, ", ");
                rs2.write_into(out);
                push_str(out, ", ");
                push_str(out, target.0.as_str());
                assert(out@ =~= old(out)@ + instr_text(*self));
            },
            _ => {
                proof {
                    assert(false);
                }
            },
        }
    }

    /// Appends the assembler line of the instruction.
    pub fn write_into(&self, out: &mut String)
        ensures
            final(out)@ == old(out)@ + instr_text(*self),
    {
        match self {
            Instr::RInstr { .. } | Instr::IInstr2 { .. } | Instr::IInstr1 { .. } => self.write_group_b(out),
            Instr::Load { .. } | Instr::Store { .. } | Instr::JumpIndirect { .. } | Instr::Branch { .. } => self.write_group_c(out),
            _ => self.write_group_a(out),
        }
    }

    /// The assembler line of the instruction.
    pub fn display(&self) -> (r: String)
        ensures
            r@ == instr_text(*self),
    {
        let mut s = String::new();
        self.write_into(&mut s);
        assert(s@ =~= instr_text(*self));
        s
    }
}

pub type Program = Vec<Instr>;

/// The lines of a program, each followed by a line break.
pub open spec fn lines_text(p: Seq<Instr>) -> Seq<char>
    decreases p.len(),
{
    if p.len() == 0 {
        Seq::empty()
    } else {
        lines_text(p.drop_last()) + instr_text(p.last()) + "\n"@
    }
}

/// The header every assembly file starts with.
pub open spec fn asm_header() -> Seq<char> {
    ".text\n.globl main\n\n"@
}

/// The assembly text of a program: the header, then one line per instruction.
pub fn emit(program: &Program) -> (r: String)
    ensures
        r@ == asm_header() + lines_text(program@),
{
    let mut out = String::new();
    push_str(&mut out, ".text\n");
    push_str(&mut out, ".globl main\n\n");
    proof {
        reveal_strlit(".text\n");
        reveal_strlit(".globl main\n\n");
        reveal_strlit(".text\n.globl main\n\n");
        assert(out@ =~= asm_header());
        assert(program@.take(0) =~= Seq::<Instr>::empty());
    }
    let mut i: usize = 0;
    while i < program.len()
        invariant
            i <= program@.len(),
            out@ == asm_header() + lines_text(program@.take(i as int)),
        decreases program@.len() - i,
    {
        program[i].write_into(&mut out);
        push_str(&mut out, "\n");
        proof {
            assert(program@.take(i + 1).drop_last() =~= program@.take(i as int));
            assert(out@ =~= asm_header() + lines_text(program@.take(i + 1)));
        }
        i = i + 1;
    }
    assert(program@.take(program@.len() as int) =~= program@);
    out
}

fn lower_label(l: ir::symbols::Label) -> (r: Label)
    ensures
        r.0 == l.0,
{
    Label(l.0)
}

/// The entry sequence of a function with a frame of `size` bytes: make room on the stack,
/// save the return address and the caller's frame pointer at its top, and set the frame
/// pointer to the caller's stack pointer.
pub open spec fn prologue_spec(size: i32) -> Seq<Instr> {
    seq![
        Instr::IInstr2 { name: IInstr2Name::Addi, rd: Register::Sp, rs: Register::Sp, imm: (-size) as i32 },
        Instr::Store { src: Register::Ra, dst: Offset { reg: Register::Sp, offset: (size - 8) as i32 } },
        Instr::Store { src: Register::Fp, dst: Offset { reg: Register::Sp, offset: (size - 16) as i32 } },
        Instr::IInstr2 { name: IInstr2Name::Addi, rd: Register::Fp, rs: Register::Sp, imm: size },
    ]
}

/// The exit sequence of a function with a frame of `size` bytes: restore the frame pointer and
/// the return address, release the stack and return.
pub open spec fn epilogue_spec(size: i32) -> Seq<Instr> {
    seq![
        Instr::Load { dst: Register::Fp, src: Offset { reg: Register::Sp, offset: (size - 16) as i32 } },
        Instr::Load { dst: Register::Ra, src: Offset { reg: Register::Sp, offset: (size - 8) as i32 } },
        Instr::IInstr2 { name: IInstr2Name::Addi, rd: Register::Sp, rs: Register::Sp, imm: size },
        Instr::Return,
    ]
}

/// The exit sequence undoes the entry sequence: it reloads the frame pointer and the return
/// address from the very stack slots the entry stores them to, and adds back to the stack
/// pointer what the entry subtracts.
pub proof fn lemma_epilogue_undoes_prologue(size: i32)
    requires
        0 <= size,
    ensures
        prologue_spec(size)[1] == (Instr::Store { src: Register::Ra, dst: Offset { reg: Register::Sp, offset: (size - 8) as i32 } }),
        prologue_spec(size)[2] == (Instr::Store { src: Register::Fp, dst: Offset { reg: Register::Sp, offset: (size - 16) as i32 } }),
        epilogue_spec(size)[0] == (Instr::Load { dst: Register::Fp, src: Offset { reg: Register::Sp, offset: (size - 16) as i32 } }),
        epilogue_spec(size)[1] == (Instr::Load { dst: Register::Ra, src: Offset { reg: Register::Sp, offset: (size - 8) as i32 } }),
        prologue_spec(size)[0] matches Instr::IInstr2 { name: IInstr2Name::Addi, rd: Register::Sp, rs: Register::Sp, imm: d }
            && epilogue_spec(size)[2] matches Instr::IInstr2 { name: IInstr2Name::Addi, rd: Register::Sp, rs: Register::Sp, imm: u }
            && d == -u,
{
}

/// The frame size the prologue and epilogue of a frame use.
pub open spec fn frame_bytes(f: Frame) -> i32 {
    ((-f.counter() + 15) / 16 * 16) as i32
}

fn prologue(frame: &Frame) -> (r: Vec<Instr>)
    requires
        frame.wf(),
    ensures
        r@ == prologue_spec(frame_bytes(*frame)),
{
    let mut instrs: Vec<Instr> = Vec::new();
    let frame_size = frame.size();
    assert(frame_size == frame_bytes(*frame));
    instrs.push(Instr::IInstr2 { name: IInstr2Name::Addi, rd: Register::Sp, rs: Register::Sp, imm: -frame_size });
    instrs.push(Instr::Store { src: Register::Ra, dst: Offset { reg: Register::Sp, offset: frame_size - WORD_SIZE } });
    instrs.push(Instr::Store { src: Register::Fp, dst: Offset { reg: Register::Sp, offset: frame_size - WORD_SIZE * 2 } });
    instrs.push(Instr::IInstr2 { name: IInstr2Name::Addi, rd: Register::Fp, rs: Register::Sp, imm: frame_size });
    assert(instrs@ =~= prologue_spec(frame_size));
    instrs
}

fn epilogue(frame: &Frame) -> (r: Vec<Instr>)
    requires
        frame.wf(),
    ensures
        r@ == epilogue_spec(frame_bytes(*frame)),
{
    let mut instrs: Vec<Instr> = Vec::new();
    let frame_size = frame.size();
    assert(frame_size == frame_bytes(*frame));
    instrs.push(Instr::Load { dst: Register::Fp, src: Offset { reg: Register::Sp, offset: frame_size - WORD_SIZE * 2 } });
    instrs.push(Instr::Load { dst: Register::Ra, src: Offset { reg: Register::Sp, offset: frame_size - WORD_SIZE } });
    instrs.push(Instr::IInstr2 { name: IInstr2Name::Addi, rd: Register::Sp, rs: Register::Sp, imm: frame_size });
    instrs.push(Instr::Return);
    assert(instrs@ =~= epilogue_spec(frame_size));
    instrs
}

/// A fragment the instruction selector can lower: a well-formed frame with room for the
/// spills of its body, and a body of flat, well-formed statements.
pub open spec fn selectable_fragment(f: Fragment) -> bool {
    match f {
        Fragment::Proc { label, body, frame } => {
            &&& frame.wf()
            &&& frame.room() >= 16 * lower::size_stmts(body@)
            &&& forall|i: int| 0 <= i < body@.len() ==> flat(#[trigger] body@[i]) && wf_stmt(body@[i])
        },
    }
}

/// The shape of the code of a function: its label, the prologue of a frame whose size is a
/// multiple of 16, the body, and the epilogue of the same frame.
pub open spec fn proc_code(f: Fragment, code: Seq<Instr>) -> bool {
    exists|size: i32, body: Seq<Instr>| {
        &&& size % 16 == 0
        &&& code == seq![Instr::Label(Label(f->label.0))] + prologue_spec(size) + body + epilogue_spec(size)
        &&& body_no_frame_temp(f->body@) ==> lower::code_in_frame(body, -size)
    }
}

/// The code of a function, given the next fresh temporary: its label, the prologue of the
/// frame that its body spills into, the tiles of the body, and the epilogue; and the next
/// fresh temporary after it.
pub open spec fn proc_tiles(f: Fragment, next: usize) -> (Seq<Instr>, usize) {
    let t = lower::tile_stmts(f->body@, lower::Spill { slots: f->frame.slots(), counter: f->frame.counter(), next });
    let size = ((-t.1.counter + 15) / 16 * 16) as i32;
    (seq![Instr::Label(Label(f->label.0))] + prologue_spec(size) + t.0 + epilogue_spec(size), t.1.next)
}

/// The code of fragments in order, the fresh temporaries running on from one to the next;
/// and the next fresh temporary after them.
pub open spec fn program_tiles(fs: Seq<Fragment>, next: usize) -> (Seq<Instr>, usize)
    decreases fs.len(),
{
    if fs.len() == 0 {
        (Seq::empty(), next)
    } else {
        let (c, n1) = proc_tiles(fs[0], next);
        let (rest, n2) = program_tiles(fs.drop_first(), n1);
        (c + rest, n2)
    }
}

/// Statements none of which names the frame pointer or the stack pointer.
pub open spec fn body_no_frame_temp(ss: Seq<ir::Stmt>) -> bool {
    forall|i: int| 0 <= i < ss.len() ==> lower::stmt_no_frame_temp(#[trigger] ss[i])
}

/// Pieces of code one after the other.
pub open spec fn concat(codes: Seq<Seq<Instr>>) -> Seq<Instr>
    decreases codes.len(),
{
    if codes.len() == 0 {
        Seq::empty()
    } else {
        concat(codes.drop_last()) + codes.last()
    }
}

/// The code of one function: its label, the prologue, the body, and the epilogue, with a frame
/// size that covers every slot the body spills to.
fn lower_proc(proc: Fragment, names: &mut NameSupply) -> (r: Vec<Instr>)
    requires
        selectable_fragment(proc),
    ensures
        proc_code(proc, r@),
        r@ == proc_tiles(proc, old(names).next_temp).0,
        final(names).next_temp == proc_tiles(proc, old(names).next_temp).1,
{
    match proc {
        Fragment::Proc { label, body, frame } => {
            let mut frame = frame;
            let body_instrs = lower::stmts(body, &mut frame, names);
            let mut final_instrs: Vec<Instr> = Vec::new();
            final_instrs.push(Instr::Label(lower_label(label)));
            let mut pro = prologue(&frame);
            let mut bi = body_instrs;
            let mut epi = epilogue(&frame);
            let ghost (gp, gb, ge) = (pro@, bi@, epi@);
            let ghost head = final_instrs@;
            final_instrs.append(&mut pro);
            final_instrs.append(&mut bi);
            final_instrs.append(&mut epi);
            proof {
                crate::ir::frame::lemma_size_bounds(frame);
                let sz = frame_bytes(frame);
                assert(final_instrs@ =~= seq![Instr::Label(Label(label.0))] + prologue_spec(sz) + gb + epilogue_spec(sz));
                assert(final_instrs@ == proc_tiles(proc, old(names).next_temp).0);
                assert(sz % 16 == 0);
                if body_no_frame_temp(proc->body@) {
                    assert(lower::code_in_frame(gb, frame.counter()));
                    assert(-sz <= frame.counter());
                    assert forall|i: int| 0 <= i < gb.len() implies lower::instr_in_frame(#[trigger] gb[i], -sz) by {
                        assert(lower::instr_in_frame(gb[i], frame.counter()));
                    }
                }
            }
            final_instrs
        },
    }
}

/// The code of every fragment, in order: for each, its label, prologue, body and epilogue.
pub fn select(frags: Vec<Fragment>, names: &mut NameSupply) -> (r: Program)
    requires
        forall|i: int| 0 <= i < frags@.len() ==> selectable_fragment(#[trigger] frags@[i]),
    ensures
        exists|codes: Seq<Seq<Instr>>|
            #![trigger concat(codes)]
            codes.len() == frags@.len() && r@ == concat(codes) && forall|i: int|
                0 <= i < codes.len() ==> proc_code(frags@[i], #[trigger] codes[i]),
        r@ == program_tiles(frags@, old(names).next_temp).0,
        final(names).next_temp == program_tiles(frags@, old(names).next_temp).1,
{
    let ghost goal = program_tiles(frags@, names.next_temp);
    let ghost all = frags@;
    let mut rest = frags;
    let mut out: Vec<Instr> = Vec::new();
    assert(all.skip(0) =~= all);
    let ghost mut codes: Seq<Seq<Instr>> = Seq::empty();
    let mut k: usize = 0;
    let count = rest.len();
    while rest.len() > 0
        invariant
            k <= all.len(),
            all.len() == count,
            rest@ == all.skip(k as int),
            forall|i: int| 0 <= i < all.len() ==> selectable_fragment(#[trigger] all[i]),
            codes.len() == k,
            out@ == concat(codes),
            forall|i: int| 0 <= i < codes.len() ==> proc_code(all[i], #[trigger] codes[i]),
            goal == program_tiles(all, old(names).next_temp),
            out@ + program_tiles(all.skip(k as int), names.next_temp).0 == goal.0,
            program_tiles(all.skip(k as int), names.next_temp).1 == goal.1,
        decreases rest@.len(),
    {
        let ghost nk = names.next_temp;
        let ghost out0 = out@;
        let f = rest.remove(0);
        assert(f == all[k as int]);
        let mut code = lower_proc(f, names);
        let ghost piece = code@;
        let ghost before = codes;
        out.append(&mut code);
        proof {
            codes = codes.push(piece);
            assert(codes.drop_last() =~= before);
            assert(codes.last() == piece);
            assert(out@ =~= concat(codes));
            assert forall|i: int| 0 <= i < codes.len() implies proc_code(all[i], #[trigger] codes[i]) by {
                if i < k {
                    assert(codes[i] == before[i]);
                }
            }
        }
        k = k + 1;
        assert(rest@ =~= all.skip(k as int));
        proof {
            assert(all.skip(k - 1)[0] == all[k - 1]);
            assert(all.skip(k - 1).drop_first() =~= all.skip(k as int));
            assert(out@ + program_tiles(all.skip(k as int), names.next_temp).0 =~= out0 + program_tiles(all.skip(k - 1), nk).0);
        }
    }
    assert(k == all.len());
    assert(all.skip(k as int) =~= Seq::<Fragment>::empty());
    assert(out@ =~= goal.0);
    out
}

/// Each register instruction is written with the RISC-V mnemonic of what it computes: for all
/// values of its source registers, the instruction the mnemonic names computes the same; and
/// two different instructions are written differently.
pub proof fn lemma_mnemonics_name_their_instruction(n: RInstrName, m: RInstrName, x: i64, y: i64)
    ensures
        mnemonic_value(rinstr_text(n), x, y) == rinstr_value(n, x, y),
        n != m ==> rinstr_text(n) != rinstr_text(m),
{
    reveal_strlit("add");
    reveal_strlit("sub");
    reveal_strlit("mul");
    reveal_strlit("div");
    reveal_strlit("and");
    reveal_strlit("xor");
    reveal_strlit("sltu");
    reveal_strlit("slt");
    reveal_strlit("sll");
    reveal_strlit("srl");
    assert("add"@.len() == 3 && "add"@[0] == 'a' && "add"@[1] == 'd' && "add"@[2] == 'd');
    assert("sub"@.len() == 3 && "sub"@[0] == 's' && "sub"@[1] == 'u' && "sub"@[2] == 'b');
    assert("mul"@.len() == 3 && "mul"@[0] == 'm' && "mul"@[1] == 'u' && "mul"@[2] == 'l');
    assert("div"@.len() == 3 && "div"@[0] == 'd' && "div"@[1] == 'i' && "div"@[2] == 'v');
    assert("and"@.len() == 3 && "and"@[0] == 'a' && "and"@[1] == 'n' && "and"@[2] == 'd');
    assert("xor"@.len() == 3 && "xor"@[0] == 'x' && "xor"@[1] == 'o' && "xor"@[2] == 'r');
    assert("sltu"@.len() == 4 && "sltu"@[0] == 's' && "sltu"@[1] == 'l' && "sltu"@[2] == 't' && "sltu"@[3] == 'u');
    assert("slt"@.len() == 3 && "slt"@[0] == 's' && "slt"@[1] == 'l' && "slt"@[2] == 't');
    assert("sll"@.len() == 3 && "sll"@[0] == 's' && "sll"@[1] == 'l' && "sll"@[2] == 'l');
    assert("srl"@.len() == 3 && "srl"@[0] == 's' && "srl"@[1] == 'r' && "srl"@[2] == 'l');
}

/// Each instruction with an immediate is written with the RISC-V mnemonic of what it computes,
/// for all values of its source register and immediate; two different ones are written
/// differently.
pub proof fn lemma_immediate_mnemonics(n: IInstr2Name, m: IInstr2Name, x: i64, imm: i64)
    ensures
        imm_mnemonic_value(iinstr2_text(n), x, imm) == iinstr2_value(n, x, imm),
        n != m ==> iinstr2_text(n) != iinstr2_text(m),
{
    reveal_strlit("addi");
    reveal_strlit("xori");
    reveal_strlit("slti");
    reveal_strlit("slli");
    reveal_strlit("srli");
    assert("addi"@.len() == 4 && "addi"@[0] == 'a');
    assert("xori"@.len() == 4 && "xori"@[0] == 'x');
    assert("slti"@.len() == 4 && "slti"@[0] == 's' && "slti"@[1] == 'l' && "slti"@[2] == 't');
    assert("slli"@.len() == 4 && "slli"@[0] == 's' && "slli"@[1] == 'l' && "slli"@[2] == 'l');
    assert("srli"@.len() == 4 && "srli"@[0] == 's' && "srli"@[1] == 'r');
}

/// Each branch is written with the RISC-V mnemonic of the test it makes: for all values of its
/// two registers, the branch the mnemonic names is taken exactly when this one is; two
/// different branches are written differently.
pub proof fn lemma_branch_mnemonics(n: BranchName, m: BranchName, x: i64, y: i64)
    ensures
        branch_mnemonic_holds(branch_text(n), x, y) == lower::branch_holds(n, x, y),
        n != m ==> branch_text(n) != branch_text(m),
{
    reveal_strlit("beq");
    reveal_strlit("bne");
    reveal_strlit("blt");
    reveal_strlit("bge");
    assert("beq"@.len() == 3 && "beq"@[0] == 'b' && "beq"@[1] == 'e' && "beq"@[2] == 'q');
    assert("bne"@.len() == 3 && "bne"@[0] == 'b' && "bne"@[1] == 'n' && "bne"@[2] == 'e');
    assert("blt"@.len() == 3 && "blt"@[0] == 'b' && "blt"@[1] == 'l' && "blt"@[2] == 't');
    assert("bge"@.len() == 3 && "bge"@[0] == 'b' && "bge"@[1] == 'g' && "bge"@[2] == 'e');
}

} // verus!
