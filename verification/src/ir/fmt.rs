//! Indented text forms of the intermediate representation.
use vstd::prelude::*;

use super::frame::Frame;
use super::symbols::{Label, Temp};
use super::{BinOp, Expr, Fragment, Program, RelOp, Stmt};
use crate::pretty::{deeper, next_level, Pretty};
use crate::text::{decimal, indentation, push_decimal, push_indent, push_signed, push_str, signed_decimal};

verus! {

/// A label in a tree: a colon and its name.
pub open spec fn label_debug(l: Label) -> Seq<char> {
    ":"@ + l.0@
}

/// A temporary in a tree: `t` and its number.
pub open spec fn temp_debug(t: Temp) -> Seq<char> {
    "t"@ + decimal(t.0 as nat)
}

/// The name of an operator as `Debug` writes it.
pub open spec fn binop_name(op: BinOp) -> Seq<char> {
    match op {
        BinOp::Add => "Add"@,
        BinOp::Sub => "Sub"@,
        BinOp::Mul => "Mul"@,
        BinOp::Div => "Div"@,
        BinOp::And => "And"@,
        BinOp::Or => "Or"@,
        BinOp::Shl => "Shl"@,
        BinOp::Shr => "Shr"@,
        BinOp::Ashr => "Ashr"@,
        BinOp::Xor => "Xor"@,
    }
}

/// The name of a comparison as `Debug` writes it.
pub open spec fn relop_name(op: RelOp) -> Seq<char> {
    match op {
        RelOp::Eq => "Eq"@,
        RelOp::Ne => "Ne"@,
        RelOp::Lt => "Lt"@,
        RelOp::Gt => "Gt"@,
        RelOp::Le => "Le"@,
        RelOp::Ge => "Ge"@,
        RelOp::Ult => "Ult"@,
        RelOp::Ule => "Ule"@,
        RelOp::Ugt => "Ugt"@,
        RelOp::Uge => "Uge"@,
    }
}

/// An expression shown as an indented tree.
pub open spec fn expr_shown(e: Expr, indent: usize) -> Seq<char>
    decreases e,
{
    let next = deeper(indent);
    match e {
        Expr::Const(n) => "Const("@ + signed_decimal(n as int) + ")"@,
        Expr::Name(l) => "Name("@ + label_debug(l) + ")"@,
        Expr::Temp(t) => temp_debug(t),
        Expr::BinOp(op, l, r) => "BinOp("@ + binop_name(op) + ",\n"@ + indentation(next as nat) + expr_shown(*l, next)
            + ",\n"@ + indentation(next as nat) + expr_shown(*r, next) + ")"@,
        Expr::Mem(a) => "Mem("@ + expr_shown(*a, indent) + ")"@,
        Expr::Call(f, args) => "Call("@ + expr_shown(*f, next) + ",\n"@ + args_shown(args@, next) + ")"@,
        Expr::ESeq(s, v) => "ESeq(\n"@ + stmt_shown(*s, next) + ",\n"@ + indentation(next as nat) + expr_shown(*v, next)
            + ")"@,
    }
}

/// Call arguments, each indented on its own line, separated by `,` and a newline.
pub open spec fn args_shown(args: Seq<Expr>, level: usize) -> Seq<char>
    decreases args,
{
    if args.len() == 0 {
        Seq::empty()
    } else if args.len() == 1 {
        indentation(level as nat) + expr_shown(args[0], level)
    } else {
        args_shown(args.drop_last(), level) + ",\n"@ + indentation(level as nat) + expr_shown(args.last(), level)
    }
}

/// A statement shown as an indented tree; a sequence shows its parts on separate lines.
pub open spec fn stmt_shown(s: Stmt, indent: usize) -> Seq<char>
    decreases s,
{
    let next = deeper(indent);
    let sp = indentation(indent as nat);
    match s {
        Stmt::Move(d, v) => sp + "Move(\n"@ + indentation(next as nat) + expr_shown(d, next) + ",\n"@ + indentation(
            next as nat,
        ) + expr_shown(v, next) + "\n"@ + sp + ")"@,
        Stmt::Expr(e) => sp + "Expr("@ + expr_shown(e, indent) + ")"@,
        Stmt::Jump(e, _) => sp + "Jump("@ + expr_shown(e, indent) + ")"@,
        Stmt::CJump(op, a, b, t, f) => sp + "CJump("@ + relop_name(op) + ", "@ + expr_shown(a, 0) + ", "@ + expr_shown(
            b,
            0,
        ) + ", "@ + label_debug(t) + ", "@ + label_debug(f) + ")"@,
        Stmt::Sequence(a, b) => stmt_shown(*a, indent) + "\n"@ + stmt_shown(*b, indent),
        Stmt::Label(l) => sp + label_debug(l),
    }
}

/// Statements on separate lines.
pub open spec fn stmts_shown(ss: Seq<Stmt>, indent: usize) -> Seq<char>
    decreases ss.len(),
{
    if ss.len() == 0 {
        Seq::empty()
    } else if ss.len() == 1 {
        stmt_shown(ss[0], indent)
    } else {
        stmts_shown(ss.drop_last(), indent) + "\n"@ + stmt_shown(ss.last(), indent)
    }
}

/// A fragment shown with `frame` as the text of its frame.
pub open spec fn fragment_shown(f: Fragment, indent: usize, frame: Seq<char>) -> Seq<char> {
    let sp = indentation(indent as nat);
    match f {
        Fragment::Proc { label, body, .. } => sp + "Proc("@ + label_debug(label) + ") {\n"@ + sp + "  Frame: "@ + frame
            + "\n"@ + stmts_shown(body@, deeper(indent)) + "\n"@ + sp + "}"@,
    }
}

/// The fragments shown in order, each with the text of its frame from `frames` and followed
/// by an empty line.
pub open spec fn frags_joined(frags: Seq<Fragment>, frames: Seq<Seq<char>>) -> Seq<char>
    decreases frags.len(),
{
    if frags.len() == 0 || frames.len() == 0 {
        Seq::empty()
    } else {
        frags_joined(frags.drop_last(), frames.drop_last()) + fragment_shown(frags.last(), 1, frames.last()) + "\n\n"@
    }
}

/// The `Debug` text of a frame (`format!("{:?}", frame)`). Its slots are kept in a
/// `HashMap`, which lists them in an order that varies from one process to the next, so
/// nothing is stated of the text.
#[verifier::external_body]
fn frame_debug(frame: &Frame) -> String {
    format!("{:?}", frame)
}

impl Label {
    fn write_debug(&self, out: &mut String)
        ensures
            final(out)@ == old(out)@ + label_debug(*self),
    {
        push_str(out, ":");
        push_str(out, self.0.as_str());
        assert(out@ =~= old(out)@ + label_debug(*self));
    }
}

impl BinOp {
    fn write_name(&self, out: &mut String)
        ensures
            final(out)@ == old(out)@ + binop_name(*self),
    {
        match self {
            BinOp::Add => push_str(out, "Add"),
            BinOp::Sub => push_str(out, "Sub"),
            BinOp::Mul => push_str(out, "Mul"),
            BinOp::Div => push_str(out, "Div"),
            BinOp::And => push_str(out, "And"),
            BinOp::Or => push_str(out, "Or"),
            BinOp::Shl => push_str(out, "Shl"),
            BinOp::Shr => push_str(out, "Shr"),
            BinOp::Ashr => push_str(out, "Ashr"),
            BinOp::Xor => push_str(out, "Xor"),
        }
    }
}

impl RelOp {
    fn write_name(&self, out: &mut String)
        ensures
            final(out)@ == old(out)@ + relop_name(*self),
    {
        match self {
            RelOp::Eq => push_str(out, "Eq"),
            RelOp::Ne => push_str(out, "Ne"),
            RelOp::Lt => push_str(out, "Lt"),
            RelOp::Gt => push_str(out, "Gt"),
            RelOp::Le => push_str(out, "Le"),
            RelOp::Ge => push_str(out, "Ge"),
            RelOp::Ult => push_str(out, "Ult"),
            RelOp::Ule => push_str(out, "Ule"),
            RelOp::Ugt => push_str(out, "Ugt"),
            RelOp::Uge => push_str(out, "Uge"),
        }
    }
}

/// Appends an expression shown as an indented tree.
#[verifier::rlimit(40)]
fn write_expr(e: &Expr, indent: usize, out: &mut String)
    ensures
        final(out)@ == old(out)@ + expr_shown(*e, indent),
    decreases *e,
{
    let next = next_level(indent);
    let ghost o = old(out)@;
    match e {
        Expr::Const(n) => {
            push_str(out, "Const(");
            push_signed(out, *n as i128);
            push_str(out, ")");
            assert(out@ =~= o + expr_shown(*e, indent));
        },
        Expr::Name(l) => {
            push_str(out, "Name(");
            l.write_debug(out);
            push_str(out, ")");
            assert(out@ =~= o + expr_shown(*e, indent));
        },
        Expr::Temp(t) => {
            push_str(out, "t");
            push_decimal(out, t.0 as u128);
            assert(out@ =~= o + expr_shown(*e, indent));
        },
        Expr::BinOp(op, l, r) => {
            push_str(out, "BinOp(");
            op.write_name(out);
            push_str(out, ",\n");
            push_indent(out, next);
            write_expr(l, next, out);
            push_str(out, ",\n");
            push_indent(out, next);
            write_expr(r, next, out);
            push_str(out, ")");
            assert(out@ =~= o + expr_shown(*e, indent));
        },
        Expr::Mem(a) => {
            push_str(out, "Mem(");
            write_expr(a, indent, out);
            push_str(out, ")");
            assert(out@ =~= o + expr_shown(*e, indent));
        },
        Expr::Call(f, args) => {
            push_str(out, "Call(");
            write_expr(f, next, out);
            push_str(out, ",\n");
            let ghost start = out@;
            let n = args.len();
            let mut i: usize = 0;
            proof {
                assert(args@.take(0) =~= Seq::<Expr>::empty());
                assert(out@ =~= start + args_shown(args@.take(0), next));
            }
            while i < n
                invariant
                    n == args@.len(),
                    *e == Expr::Call(*f, *args),
                    next == deeper(indent),
                    i <= n,
                    out@ == start + args_shown(args@.take(i as int), next),
                decreases n - i,
            {
                proof {
                    assert(decreases_to!(*e => e->Call_1));
                    assert(decreases_to!(e->Call_1 => e->Call_1@));
                    assert(decreases_to!(e->Call_1@ => e->Call_1@[i as int]));
                }
                if i > 0 {
                    push_str(out, ",\n");
                }
                push_indent(out, next);
                write_expr(&args[i], next, out);
                proof {
                    let pre = args@.take(i as int);
                    let post = args@.take(i + 1);
                    assert(post.drop_last() =~= pre);
                    assert(post.last() == args@[i as int]);
                    assert(out@ =~= start + args_shown(post, next));
                }
                i = i + 1;
            }
            proof {
                assert(args@.take(n as int) =~= args@);
            }
            push_str(out, ")");
            assert(out@ =~= o + expr_shown(*e, indent));
        },
        Expr::ESeq(s, v) => {
            push_str(out, "ESeq(\n");
            write_stmt(s, next, out);
            push_str(out, ",\n");
            push_indent(out, next);
            write_expr(v, next, out);
            push_str(out, ")");
            assert(out@ =~= o + expr_shown(*e, indent));
        },
    }
}

/// Appends a statement shown as an indented tree.
#[verifier::rlimit(40)]
fn write_stmt(s: &Stmt, indent: usize, out: &mut String)
    ensures
        final(out)@ == old(out)@ + stmt_shown(*s, indent),
    decreases *s,
{
    let next = next_level(indent);
    let ghost o = old(out)@;
    match s {
        Stmt::Move(d, v) => {
            push_indent(out, indent);
            push_str(out, "Move(\n");
            push_indent(out, next);
            write_expr(d, next, out);
            push_str(out, ",\n");
            push_indent(out, next);
            write_expr(v, next, out);
            push_str(out, "\n");
            push_indent(out, indent);
            push_str(out, ")");
            assert(out@ =~= o + stmt_shown(*s, indent));
        },
        Stmt::Expr(e) => {
            push_indent(out, indent);
            push_str(out, "Expr(");
            write_expr(e, indent, out);
            push_str(out, ")");
            assert(out@ =~= o + stmt_shown(*s, indent));
        },
        Stmt::Jump(e, _) => {
            push_indent(out, indent);
            push_str(out, "Jump(");
            write_expr(e, indent, out);
            push_str(out, ")");
            assert(out@ =~= o + stmt_shown(*s, indent));
        },
        Stmt::CJump(op, a, b, t, f) => {
            push_indent(out, indent);
            push_str(out, "CJump(");
            op.write_name(out);
            push_str(out, ", ");
            write_expr(a, 0, out);
            push_str(out, ", ");
            write_expr(b, 0, out);
            push_str(out, ", ");
            t.write_debug(out);
            push_str(out, ", ");
            f.write_debug(out);
            push_str(out, ")");
            assert(out@ =~= o + stmt_shown(*s, indent));
        },
        Stmt::Sequence(a, b) => {
            write_stmt(a, indent, out);
            push_str(out, "\n");
            write_stmt(b, indent, out);
            assert(out@ =~= o + stmt_shown(*s, indent));
        },
        Stmt::Label(l) => {
            push_indent(out, indent);
            l.write_debug(out);
            assert(out@ =~= o + stmt_shown(*s, indent));
        },
    }
}

/// Appends statements on separate lines.
fn write_stmts(ss: &Vec<Stmt>, indent: usize, out: &mut String)
    ensures
        final(out)@ == old(out)@ + stmts_shown(ss@, indent),
{
    let ghost start = out@;
    let n = ss.len();
    let mut i: usize = 0;
    proof {
        assert(ss@.take(0) =~= Seq::<Stmt>::empty());
        assert(out@ =~= start + stmts_shown(ss@.take(0), indent));
    }
    while i < n
        invariant
            n == ss@.len(),
            i <= n,
            out@ == start + stmts_shown(ss@.take(i as int), indent),
        decreases n - i,
    {
        if i > 0 {
            push_str(out, "\n");
        }
        write_stmt(&ss[i], indent, out);
        proof {
            let pre = ss@.take(i as int);
            let post = ss@.take(i + 1);
            assert(post.drop_last() =~= pre);
            assert(post.last() == ss@[i as int]);
            assert(out@ =~= start + stmts_shown(post, indent));
        }
        i = i + 1;
    }
    proof {
        assert(ss@.take(n as int) =~= ss@);
    }
}

impl Pretty for Expr {
    open spec fn shown_as(&self, indent: usize, text: Seq<char>) -> bool {
        text == expr_shown(*self, indent)
    }

    fn pretty(&self, indent: usize) -> (r: String) {
        let mut out = String::new();
        write_expr(self, indent, &mut out);
        assert(out@ =~= expr_shown(*self, indent));
        out
    }
}

impl Pretty for Stmt {
    open spec fn shown_as(&self, indent: usize, text: Seq<char>) -> bool {
        text == stmt_shown(*self, indent)
    }

    fn pretty(&self, indent: usize) -> (r: String) {
        let mut out = String::new();
        write_stmt(self, indent, &mut out);
        assert(out@ =~= stmt_shown(*self, indent));
        out
    }
}

impl Pretty for Vec<Stmt> {
    open spec fn shown_as(&self, indent: usize, text: Seq<char>) -> bool {
        text == stmts_shown(self@, indent)
    }

    fn pretty(&self, indent: usize) -> (r: String) {
        let mut out = String::new();
        write_stmts(self, indent, &mut out);
        assert(out@ =~= stmts_shown(self@, indent));
        out
    }
}

impl Pretty for Fragment {
    open spec fn shown_as(&self, indent: usize, text: Seq<char>) -> bool {
        exists|frame: Seq<char>| text == #[trigger] fragment_shown(*self, indent, frame)
    }

    fn pretty(&self, indent: usize) -> (r: String) {
        let mut out = String::new();
        let ft = write_fragment(self, indent, &mut out);
        assert(out@ =~= fragment_shown(*self, indent, ft@));
        out
    }
}

/// Appends a fragment; the text its frame was shown as.
fn write_fragment(f: &Fragment, indent: usize, out: &mut String) -> (ft: Ghost<Seq<char>>)
    ensures
        final(out)@ == old(out)@ + fragment_shown(*f, indent, ft@),
{
    let ghost o = old(out)@;
    match f {
        Fragment::Proc { label, body, frame } => {
            push_indent(out, indent);
            push_str(out, "Proc(");
            label.write_debug(out);
            push_str(out, ") {\n");
            push_indent(out, indent);
            push_str(out, "  Frame: ");
            let fd = frame_debug(frame);
            push_str(out, fd.as_str());
            push_str(out, "\n");
            write_stmts(body, next_level(indent), out);
            push_str(out, "\n");
            push_indent(out, indent);
            push_str(out, "}");
            assert(out@ =~= o + fragment_shown(*f, indent, fd@));
            Ghost(fd@)
        },
    }
}

impl Pretty for Program {
    open spec fn shown_as(&self, indent: usize, text: Seq<char>) -> bool {
        exists|frames: Seq<Seq<char>>|
            frames.len() == self.fragments@.len() && text == "Program {\n"@ + #[trigger] frags_joined(self.fragments@, frames)
                + "}"@
    }

    fn pretty(&self, indent: usize) -> (r: String) {
        let mut out = String::from_str("Program {\n");
        let ghost start = out@;
        let ghost mut frames: Seq<Seq<char>> = Seq::empty();
        let n = self.fragments.len();
        let mut i: usize = 0;
        proof {
            assert(self.fragments@.take(0) =~= Seq::<Fragment>::empty());
            assert(out@ =~= start + frags_joined(self.fragments@.take(0), frames));
        }
        while i < n
            invariant
                n == self.fragments@.len(),
                i <= n,
                frames.len() == i,
                out@ == start + frags_joined(self.fragments@.take(i as int), frames),
            decreases n - i,
        {
            let ghost before = frames;
            let ft = write_fragment(&self.fragments[i], 1, &mut out);
            push_str(&mut out, "\n\n");
            proof {
                frames = frames.push(ft@);
                let post = self.fragments@.take(i + 1);
                assert(post.drop_last() =~= self.fragments@.take(i as int));
                assert(frames.drop_last() =~= before);
                assert(post.last() == self.fragments@[i as int]);
                assert(out@ =~= start + frags_joined(post, frames));
            }
            i = i + 1;
        }
        proof {
            assert(self.fragments@.take(n as int) =~= self.fragments@);
        }
        push_str(&mut out, "}");
        assert(out@ =~= "Program {\n"@ + frags_joined(self.fragments@, frames) + "}"@);
        out
    }
}

} // verus!
