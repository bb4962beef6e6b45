//! Text forms of types.
use vstd::prelude::*;

use super::{erase, erase_all, lemma_erase_all_index, lemma_erase_all_len, lemma_tyvs_index, lemma_tyvs_len, respan, tyv, tyvs, BinOp, Expr, FunSignature, Tag, Top, Ty, Type};
use crate::pretty::{deeper, next_level, Pretty};
use crate::text::{indentation, push_indent, push_signed, push_str, signed_decimal};

verus! {

/// How a type is written in source and in messages: `()`, `bool`, `i64`, `fn(a, b) -> r`.
pub open spec fn type_text(t: Ty) -> Seq<char>
    decreases t,
{
    match t {
        Ty::Unit => "()"@,
        Ty::Bool => "bool"@,
        Ty::I64 => "i64"@,
        Ty::Fun(args, ret) => "fn("@ + types_text(args) + ") -> "@ + type_text(*ret),
    }
}

/// The texts of a list of types, separated by `, `.
pub open spec fn types_text(ts: Seq<Ty>) -> Seq<char>
    decreases ts,
{
    if ts.len() == 0 {
        Seq::empty()
    } else if ts.len() == 1 {
        type_text(ts[0])
    } else {
        types_text(ts.drop_last()) + ", "@ + type_text(ts.last())
    }
}

impl Type {
    /// Appends the text of this type.
    pub fn write_into(&self, out: &mut String)
        ensures
            final(out)@ == old(out)@ + type_text(erase(*self)),
        decreases *self,
    {
        match self {
            Type::Unit => push_str(out, "()"),
            Type::Bool => push_str(out, "bool"),
            Type::I64 => push_str(out, "i64"),
            Type::Fun(args, ret) => {
                push_str(out, "fn(");
                let ghost start = out@;
                let n = args.item.len();
                let mut i: usize = 0;
                proof {
                    lemma_erase_all_len(args.item@);
                    assert(erase_all(args.item@.take(0)) =~= Seq::<Ty>::empty());
                    assert(start =~= start + types_text(erase_all(args.item@.take(0))));
                }
                while i < n
                    invariant
                        n == args.item@.len(),
                        *self == Type::Fun(*args, *ret),
                        i <= n,
                        out@ == start + types_text(erase_all(args.item@.take(i as int))),
                    decreases n - i,
                {
                    let a = &args.item[i];
                    proof {
                        assert(decreases_to!(*self => self->Fun_0));
                        assert(decreases_to!(*args => args.item));
                        assert(decreases_to!(args.item => args.item@));
                        assert(decreases_to!(args.item@ => args.item@[i as int]));
                    }
                    if i > 0 {
                        push_str(out, ", ");
                    }
                    a.item.write_into(out);
                    proof {
                        let pre = args.item@.take(i as int);
                        let post = args.item@.take(i + 1);
                        assert(post.drop_last() =~= pre);
                        assert(erase_all(post) == erase_all(pre).push(erase(*a.item)));
                        lemma_erase_all_len(pre);
                        assert(erase_all(post).drop_last() =~= erase_all(pre));
                        if i == 0 {
                            assert(erase_all(pre) =~= Seq::<Ty>::empty());
                            assert(types_text(erase_all(pre)) =~= Seq::<char>::empty());
                            assert(out@ =~= start + types_text(erase_all(post)));
                        } else {
                            assert(out@ =~= start + types_text(erase_all(post)));
                        }
                    }
                    i = i + 1;
                }
                proof {
                    assert(args.item@.take(n as int) =~= args.item@);
                }
                push_str(out, ") -> ");
                ret.item.write_into(out);
                assert(out@ =~= old(out)@ + type_text(erase(*self)));
            },
        }
    }

    /// The text of this type, as it is written in source and in messages.
    pub fn display(&self) -> (r: String)
        ensures
            r@ == type_text(erase(*self)),
    {
        let mut s = String::new();
        self.write_into(&mut s);
        assert(s@ =~= type_text(erase(*self)));
        s
    }
}

impl Tag<Type> {
    /// A copy of this type, placed at the span of `other`.
    pub fn at<U>(&self, other: &Tag<U>) -> (r: Tag<Type>)
        ensures
            erase(*r.item) == erase(*self.item),
            r.span == other.span,
            tyv(r) == respan(tyv(*self), other.span),
    {
        let c = self.copy();
        Tag { item: c.item, span: other.span }
    }

    /// A copy of this type and its span; the copy has the same shape.
    pub fn copy(&self) -> (r: Tag<Type>)
        ensures
            erase(*r.item) == erase(*self.item),
            r.span == self.span,
            tyv(r) == tyv(*self),
        decreases *self.item,
    {
        let t = match &*self.item {
            Type::Unit => Type::Unit,
            Type::Bool => Type::Bool,
            Type::I64 => Type::I64,
            Type::Fun(args, ret) => {
                let n = args.item.len();
                let mut v: Vec<Tag<Type>> = Vec::new();
                let mut i: usize = 0;
                while i < n
                    invariant
                        n == args.item@.len(),
                        *self.item == Type::Fun(*args, *ret),
                        i <= n,
                        v@.len() == i,
                        forall|j: int| 0 <= j < i ==> erase(*#[trigger] v@[j].item) == erase(*args.item@[j].item),
                        forall|j: int| 0 <= j < i ==> tyv(#[trigger] v@[j]) == tyv(args.item@[j]),
                    decreases n - i,
                {
                    proof {
                        assert(decreases_to!(*self.item => self.item->Fun_0));
                        assert(decreases_to!(*args => args.item));
                        assert(decreases_to!(args.item => args.item@));
                        assert(decreases_to!(args.item@ => args.item@[i as int]));
                    }
                    v.push(args.item[i].copy());
                    i = i + 1;
                }
                let r2 = ret.copy();
                proof {
                    assert forall|j: int| 0 <= j < n implies erase_all(v@)[j] == erase_all(args.item@)[j] by {
                        lemma_erase_all_index(v@, j);
                        lemma_erase_all_index(args.item@, j);
                    }
                    lemma_erase_all_len(v@);
                    lemma_erase_all_len(args.item@);
                    assert(erase_all(v@) =~= erase_all(args.item@));
                    assert forall|j: int| 0 <= j < n implies tyvs(v@)[j] == tyvs(args.item@)[j] by {
                        lemma_tyvs_index(v@, j);
                        lemma_tyvs_index(args.item@, j);
                    }
                    lemma_tyvs_len(v@);
                    lemma_tyvs_len(args.item@);
                    assert(tyvs(v@) =~= tyvs(args.item@));
                }
                Type::Fun(Tag::new(v, args.span), Box::new(r2))
            },
        };
        Tag::new(t, self.span)
    }
}

/// The name of an operator as `Debug` writes it.
pub open spec fn binop_name(op: BinOp) -> Seq<char> {
    match op {
        BinOp::Add => "Add"@,
        BinOp::Sub => "Sub"@,
        BinOp::Mul => "Mul"@,
        BinOp::Div => "Div"@,
        BinOp::Gt => "Gt"@,
        BinOp::Gte => "Gte"@,
        BinOp::Lt => "Lt"@,
        BinOp::Lte => "Lte"@,
        BinOp::Eq => "Eq"@,
        BinOp::Ne => "Ne"@,
    }
}

/// How an operator is written in source.
pub open spec fn binop_symbol(op: BinOp) -> Seq<char> {
    match op {
        BinOp::Add => "+"@,
        BinOp::Sub => "-"@,
        BinOp::Mul => "*"@,
        BinOp::Div => "/"@,
        BinOp::Gt => ">"@,
        BinOp::Gte => ">="@,
        BinOp::Lt => "<"@,
        BinOp::Lte => "<="@,
        BinOp::Eq => "=="@,
        BinOp::Ne => "!="@,
    }
}

/// An expression shown as an indented tree.
pub open spec fn expr_shown(e: Expr, indent: usize) -> Seq<char>
    decreases e,
{
    let next = deeper(indent);
    match e {
        Expr::Unit => "Unit"@,
        Expr::Bool(b) => if b {
            "true"@
        } else {
            "false"@
        },
        Expr::Int(n) => "Int("@ + signed_decimal(n as int) + ")"@,
        Expr::Ident(id) => "Ident(\""@ + id.item@ + "\")"@,
        Expr::BinOp(l, op, r) => "BinOp("@ + binop_name(*op.item) + ", "@ + expr_shown(*l.item, 0) + ", "@ + expr_shown(
            *r.item,
            0,
        ) + ")"@,
        Expr::FunDec(sig, rest) => sig_shown(sig, indent) + "\n"@ + indentation(indent as nat) + "Next: "@ + expr_shown(
            *rest.item,
            next,
        ),
        Expr::Let(name, ann, val, rest) => "Let(name: "@ + name.item@ + (match ann {
            Some(t) => ": "@ + type_text(erase(*t.item)),
            None => Seq::empty(),
        }) + ", val: "@ + expr_shown(*val.item, next) + ")\n"@ + indentation(indent as nat) + "Next: "@ + expr_shown(
            *rest.item,
            next,
        ),
        Expr::Sequence(a, b) => "Seq(\n"@ + indentation(next as nat) + expr_shown(*a.item, next) + ",\n"@ + indentation(
            next as nat,
        ) + expr_shown(*b.item, next) + "\n"@ + indentation(indent as nat) + ")"@,
        Expr::If(c, t, f) => "If(\n"@ + indentation(next as nat) + "cond: "@ + expr_shown(*c.item, 0) + ",\n"@
            + indentation(next as nat) + "then: "@ + expr_shown(*t.item, next) + ",\n"@ + indentation(next as nat)
            + "else: "@ + expr_shown(*f.item, next) + "\n"@ + indentation(indent as nat) + ")"@,
        Expr::FunApp(f, args) => "Call("@ + expr_shown(*f.item, 0) + ", ["@ + args_shown(args.item@) + "])"@,
        Expr::Print(x) => "Print("@ + expr_shown(*x.item, 0) + ")"@,
        Expr::Block(x) => "Block("@ + expr_shown(*x.item, indent) + ")"@,
    }
}

/// Call arguments shown flat, separated by `, `.
pub open spec fn args_shown(args: Seq<Box<Tag<Expr>>>) -> Seq<char>
    decreases args,
{
    if args.len() == 0 {
        Seq::empty()
    } else if args.len() == 1 {
        expr_shown(*args[0].item, 0)
    } else {
        args_shown(args.drop_last()) + ", "@ + expr_shown(*args.last().item, 0)
    }
}

/// Parameters shown as `name: type`, separated by `, `.
pub open spec fn params_shown(ps: Seq<(Tag<String>, Tag<Type>)>) -> Seq<char>
    decreases ps.len(),
{
    if ps.len() == 0 {
        Seq::empty()
    } else if ps.len() == 1 {
        ps[0].0.item@ + ": "@ + type_text(erase(*ps[0].1.item))
    } else {
        params_shown(ps.drop_last()) + ", "@ + ps.last().0.item@ + ": "@ + type_text(erase(*ps.last().1.item))
    }
}

/// A function declaration shown as an indented tree.
pub open spec fn sig_shown(sig: FunSignature, indent: usize) -> Seq<char>
    decreases sig,
{
    let next = deeper(indent);
    "FunDec(\n"@ + indentation(next as nat) + "name: "@ + sig.name.item@ + ",\n"@ + indentation(next as nat) + "args: ["@
        + params_shown(sig.params.item@) + "], ret: "@ + type_text(erase(*sig.ret.item)) + ",\n"@ + indentation(
        next as nat,
    ) + "body: "@ + expr_shown(*sig.body.item, next) + "\n"@ + indentation(indent as nat) + ")"@
}

/// The functions of a program, each on its own indented line.
pub open spec fn tops_shown(tops: Seq<Tag<Top>>, indent: usize) -> Seq<char>
    decreases tops.len(),
{
    if tops.len() == 0 {
        Seq::empty()
    } else {
        tops_shown(tops.drop_last(), indent) + indentation(deeper(indent) as nat) + (match *tops.last().item {
            Top::FunDec(sig) => sig_shown(sig, deeper(indent)),
        }) + "\n"@
    }
}

impl BinOp {
    /// Appends the `Debug` name of the operator.
    fn write_name(&self, out: &mut String)
        ensures
            final(out)@ == old(out)@ + binop_name(*self),
    {
        match self {
            BinOp::Add => push_str(out, "Add"),
            BinOp::Sub => push_str(out, "Sub"),
            BinOp::Mul => push_str(out, "Mul"),
            BinOp::Div => push_str(out, "Div"),
            BinOp::Gt => push_str(out, "Gt"),
            BinOp::Gte => push_str(out, "Gte"),
            BinOp::Lt => push_str(out, "Lt"),
            BinOp::Lte => push_str(out, "Lte"),
            BinOp::Eq => push_str(out, "Eq"),
            BinOp::Ne => push_str(out, "Ne"),
        }
    }
}

impl Pretty for BinOp {
    open spec fn shown_as(&self, indent: usize, text: Seq<char>) -> bool {
        text == binop_symbol(*self)
    }

    fn pretty(&self, indent: usize) -> (r: String) {
        let s = match self {
            BinOp::Add => "+",
            BinOp::Sub => "-",
            BinOp::Mul => "*",
            BinOp::Div => "/",
            BinOp::Gt => ">",
            BinOp::Gte => ">=",
            BinOp::Lt => "<",
            BinOp::Lte => "<=",
            BinOp::Eq => "==",
            BinOp::Ne => "!=",
        };
        String::from_str(s)
    }
}

impl Pretty for Type {
    open spec fn shown_as(&self, indent: usize, text: Seq<char>) -> bool {
        text == type_text(erase(*self))
    }

    fn pretty(&self, indent: usize) -> (r: String) {
        self.display()
    }
}

impl Pretty for Expr {
    open spec fn shown_as(&self, indent: usize, text: Seq<char>) -> bool {
        text == expr_shown(*self, indent)
    }

    fn pretty(&self, indent: usize) -> (r: String) {
        let mut out = String::new();
        write_expr(self, indent, &mut out);
        assert(out@ =~= expr_shown(*self, indent));
        out
    }
}

impl Pretty for FunSignature {
    open spec fn shown_as(&self, indent: usize, text: Seq<char>) -> bool {
        text == sig_shown(*self, indent)
    }

    fn pretty(&self, indent: usize) -> (r: String) {
        let mut out = String::new();
        write_sig(self, indent, &mut out);
        assert(out@ =~= sig_shown(*self, indent));
        out
    }
}

impl Pretty for Vec<Tag<Top>> {
    open spec fn shown_as(&self, indent: usize, text: Seq<char>) -> bool {
        text == "Program([\n"@ + tops_shown(self@, indent) + "])"@
    }

    fn pretty(&self, indent: usize) -> (r: String) {
        let mut out = String::from_str("Program([\n");
        let ghost start = out@;
        let mut i: usize = 0;
        let next = next_level(indent);
        proof {
            assert(self@.take(0) =~= Seq::<Tag<Top>>::empty());
            assert(out@ =~= start + tops_shown(self@.take(0), indent));
        }
        while i < self.len()
            invariant
                i <= self@.len(),
                next == deeper(indent),
                out@ == start + tops_shown(self@.take(i as int), indent),
            decreases self@.len() - i,
        {
            let Top::FunDec(sig) = &*self[i].item;
            push_indent(&mut out, next);
            write_sig(sig, next, &mut out);
            push_str(&mut out, "\n");
            proof {
                assert(self@.take(i + 1).drop_last() =~= self@.take(i as int));
                assert(out@ =~= start + tops_shown(self@.take(i + 1), indent));
            }
            i = i + 1;
        }
        proof {
            assert(self@.take(i as int) =~= self@);
        }
        push_str(&mut out, "])");
        out
    }
}

/// Appends an expression shown as an indented tree.
#[verifier::rlimit(40)]
fn write_expr(e: &Expr, indent: usize, out: &mut String)
    ensures
        final(out)@ == old(out)@ + expr_shown(*e, indent),
    decreases *e, 1nat,
{
    let next = next_level(indent);
    let ghost o = old(out)@;
    match e {
        Expr::Unit => push_str(out, "Unit"),
        Expr::Bool(b) => if *b {
            push_str(out, "true")
        } else {
            push_str(out, "false")
        },
        Expr::Int(n) => {
            push_str(out, "Int(");
            push_signed(out, *n as i128);
            push_str(out, ")");
            assert(out@ =~= o + expr_shown(*e, indent));
        },
        Expr::Ident(id) => {
            push_str(out, "Ident(\"");
            push_str(out, id.item.as_str());
            push_str(out, "\")");
            assert(out@ =~= o + expr_shown(*e, indent));
        },
        Expr::BinOp(l, op, r) => {
            push_str(out, "BinOp(");
            op.item.write_name(out);
            push_str(out, ", ");
            write_expr(&l.item, 0, out);
            push_str(out, ", ");
            write_expr(&r.item, 0, out);
            push_str(out, ")");
            assert(out@ =~= o + expr_shown(*e, indent));
        },
        Expr::FunDec(sig, rest) => {
            write_sig(sig, indent, out);
            push_str(out, "\n");
            push_indent(out, indent);
            push_str(out, "Next: ");
            write_expr(&rest.item, next, out);
            assert(out@ =~= o + expr_shown(*e, indent));
        },
        Expr::Let(name, ann, val, rest) => {
            push_str(out, "Let(name: ");
            push_str(out, name.item.as_str());
            let ghost mid = out@;
            match ann {
                Some(t) => {
                    push_str(out, ": ");
                    t.item.write_into(out);
                },
                None => {},
            }
            push_str(out, ", val: ");
            write_expr(&val.item, next, out);
            push_str(out, ")\n");
            push_indent(out, indent);
            push_str(out, "Next: ");
            write_expr(&rest.item, next, out);
            assert(out@ =~= o + expr_shown(*e, indent));
        },
        Expr::Sequence(a, b) => {
            push_str(out, "Seq(\n");
            push_indent(out, next);
            write_expr(&a.item, next, out);
            push_str(out, ",\n");
            push_indent(out, next);
            write_expr(&b.item, next, out);
            push_str(out, "\n");
            push_indent(out, indent);
            push_str(out, ")");
            assert(out@ =~= o + expr_shown(*e, indent));
        },
        Expr::If(c, t, f) => {
            push_str(out, "If(\n");
            push_indent(out, next);
            push_str(out, "cond: ");
            write_expr(&c.item, 0, out);
            push_str(out, ",\n");
            push_indent(out, next);
            push_str(out, "then: ");
            write_expr(&t.item, next, out);
            push_str(out, ",\n");
            push_indent(out, next);
            push_str(out, "else: ");
            write_expr(&f.item, next, out);
            push_str(out, "\n");
            push_indent(out, indent);
            push_str(out, ")");
            assert(out@ =~= o + expr_shown(*e, indent));
        },
        Expr::FunApp(f, args) => {
            push_str(out, "Call(");
            write_expr(&f.item, 0, out);
            push_str(out, ", [");
            write_args(e, out);
            push_str(out, "])");
            assert(out@ =~= o + expr_shown(*e, indent));
        },
        Expr::Print(x) => {
            push_str(out, "Print(");
            write_expr(&x.item, 0, out);
            push_str(out, ")");
            assert(out@ =~= o + expr_shown(*e, indent));
        },
        Expr::Block(x) => {
            push_str(out, "Block(");
            write_expr(&x.item, indent, out);
            push_str(out, ")");
            assert(out@ =~= o + expr_shown(*e, indent));
        },
    }
}

/// Appends the arguments of a call, separated by `, `.
fn write_args(e: &Expr, out: &mut String)
    requires
        *e is FunApp,
    ensures
        final(out)@ == old(out)@ + args_shown(e->FunApp_1.item@),
    decreases *e, 0nat,
{
    match e {
        Expr::FunApp(f, args) => {
            let ghost start = out@;
            let n = args.item.len();
            let mut i: usize = 0;
            proof {
                assert(args.item@.take(0) =~= Seq::<Box<Tag<Expr>>>::empty());
                assert(out@ =~= start + args_shown(args.item@.take(0)));
            }
            while i < n
                invariant
                    n == args.item@.len(),
                    *e == Expr::FunApp(*f, *args),
                    i <= n,
                    out@ == start + args_shown(args.item@.take(i as int)),
                decreases n - i,
            {
                proof {
                    assert(decreases_to!(*e => e->FunApp_1));
                    assert(decreases_to!(e->FunApp_1 => e->FunApp_1.item));
                    assert(decreases_to!(e->FunApp_1.item => e->FunApp_1.item@));
                    assert(decreases_to!(e->FunApp_1.item@ => e->FunApp_1.item@[i as int]));
                }
                if i > 0 {
                    push_str(out, ", ");
                }
                write_expr(&args.item[i].item, 0, out);
                proof {
                    let pre = args.item@.take(i as int);
                    let post = args.item@.take(i + 1);
                    assert(post.drop_last() =~= pre);
                    assert(post.last() == args.item@[i as int]);
                    assert(out@ =~= start + args_shown(post));
                }
                i = i + 1;
            }
            proof {
                assert(args.item@.take(n as int) =~= args.item@);
            }
        },
        _ => {},
    }
}

/// Appends a function declaration shown as an indented tree.
fn write_sig(sig: &FunSignature, indent: usize, out: &mut String)
    ensures
        final(out)@ == old(out)@ + sig_shown(*sig, indent),
    decreases *sig, 1nat,
{
    let next = next_level(indent);
    let ghost o = old(out)@;
    push_str(out, "FunDec(\n");
    push_indent(out, next);
    push_str(out, "name: ");
    push_str(out, sig.name.item.as_str());
    push_str(out, ",\n");
    push_indent(out, next);
    push_str(out, "args: [");
    let ghost start = out@;
    let ps = &sig.params.item;
    let n = ps.len();
    let mut i: usize = 0;
    proof {
        assert(ps@.take(0) =~= Seq::<(Tag<String>, Tag<Type>)>::empty());
        assert(out@ =~= start + params_shown(ps@.take(0)));
    }
    while i < n
        invariant
            n == ps@.len(),
            i <= n,
            out@ == start + params_shown(ps@.take(i as int)),
        decreases n - i,
    {
        if i > 0 {
            push_str(out, ", ");
        }
        push_str(out, ps[i].0.item.as_str());
        push_str(out, ": ");
        ps[i].1.item.write_into(out);
        proof {
            let pre = ps@.take(i as int);
            let post = ps@.take(i + 1);
            assert(post.drop_last() =~= pre);
            assert(post.last() == ps@[i as int]);
            assert(out@ =~= start + params_shown(post));
        }
        i = i + 1;
    }
    proof {
        assert(ps@.take(n as int) =~= ps@);
    }
    push_str(out, "], ret: ");
    sig.ret.item.write_into(out);
    push_str(out, ",\n");
    push_indent(out, next);
    push_str(out, "body: ");
    write_expr(&sig.body.item, next, out);
    push_str(out, "\n");
    push_indent(out, indent);
    push_str(out, ")");
    assert(out@ =~= o + sig_shown(*sig, indent));
}

} // verus!
