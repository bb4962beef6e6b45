//! What a parsed tree says of the source it came from: every node covers a span of the
//! source, and every token in it is the text found at its span. Spans count bytes.
use vstd::prelude::*;

use crate::ast::err::Span;
use crate::ast::{BinOp, Expr, FunSignature, Tag, Top, Type};
use super::syntax::{type_list_end, type_list_spans, body_end, expr_list_end, expr_list_spans, param_list_end, param_spans, skip_end, spaces_end, tok};

verus! {

/// A span from `start` to `end` inside a source of `n` bytes.
pub open spec fn within(sp: Span, n: nat) -> bool {
    sp.0 <= sp.1 && sp.1 <= n
}

/// The bytes of the source under a span.
pub open spec fn slice(src: Seq<u8>, sp: Span) -> Seq<u8> {
    src.subrange(sp.0 as int, sp.1 as int)
}

/// Bytes read as characters (the parser only keeps ASCII bytes).
pub open spec fn chars_of(s: Seq<u8>) -> Seq<char> {
    s.map_values(|b: u8| b as char)
}

/// `_`, `a` to `z` or `A` to `Z`.
pub open spec fn is_alpha(b: u8) -> bool {
    b == 95 || (65 <= b && b <= 90) || (97 <= b && b <= 122)
}

/// `0` to `9`.
pub open spec fn is_digit(b: u8) -> bool {
    48 <= b && b <= 57
}

/// A letter, `_` or a digit.
pub open spec fn is_word_char(b: u8) -> bool {
    is_alpha(b) || is_digit(b)
}

/// A letter or `_` followed by letters, digits and `_`.
pub open spec fn is_word(s: Seq<u8>) -> bool {
    s.len() > 0 && is_alpha(s[0]) && forall|i: int| 1 <= i < s.len() ==> is_word_char(#[trigger] s[i])
}

/// `let`, `fn`, `if` or `else`.
pub open spec fn is_keyword(s: Seq<u8>) -> bool {
    s == seq![108u8, 101, 116] || s == seq![102u8, 110] || s == seq![105u8, 102] || s == seq![101u8, 108, 115, 101]
}

/// The value of a string of decimal digits.
pub open spec fn digits_value(s: Seq<u8>) -> int
    decreases s.len(),
{
    if s.len() == 0 {
        0
    } else {
        digits_value(s.drop_last()) * 10 + (s.last() - 48)
    }
}

/// A non-empty string of decimal digits.
pub open spec fn is_number(s: Seq<u8>) -> bool {
    s.len() > 0 && forall|i: int| 0 <= i < s.len() ==> is_digit(#[trigger] s[i])
}

/// `inner` is a span inside `outer` (a literal keeps its own text when parentheses around
/// it widen the span of its node).
pub open spec fn covers(outer: Span, inner: Span) -> bool {
    outer.0 <= inner.0 && inner.0 <= inner.1 && inner.1 <= outer.1
}

/// How a truth value is written.
pub open spec fn bool_text(b: bool) -> Seq<u8> {
    if b {
        seq![116u8, 114, 117, 101]
    } else {
        seq![102u8, 97, 108, 115, 101]
    }
}

/// How an operator is written.
pub open spec fn op_text(op: BinOp) -> Seq<u8> {
    match op {
        BinOp::Eq => seq![61u8, 61],
        BinOp::Ne => seq![33u8, 61],
        BinOp::Gt => seq![62u8],
        BinOp::Gte => seq![62u8, 61],
        BinOp::Lt => seq![60u8],
        BinOp::Lte => seq![60u8, 61],
        BinOp::Add => seq![43u8],
        BinOp::Sub => seq![45u8],
        BinOp::Mul => seq![42u8],
        BinOp::Div => seq![47u8],
    }
}

/// The parser reads each operator from the text the printer writes for it: the bytes of the
/// operator are the characters of its source symbol.
pub proof fn lemma_operators_read_as_written(op: BinOp)
    ensures
        op_text(op).len() == crate::ast::fmt::binop_symbol(op).len(),
        forall|i: int| 0 <= i < op_text(op).len() ==> op_text(op)[i] as u32 == #[trigger] crate::ast::fmt::binop_symbol(op)[i] as u32,
{
    reveal_strlit("+");
    reveal_strlit("-");
    reveal_strlit("*");
    reveal_strlit("/");
    reveal_strlit(">");
    reveal_strlit(">=");
    reveal_strlit("<");
    reveal_strlit("<=");
    reveal_strlit("==");
    reveal_strlit("!=");
}

/// How tightly an infix operator binds: equality 2, comparison 3, sums 4, products 5.
pub open spec fn op_level(op: BinOp) -> nat {
    match op {
        BinOp::Eq | BinOp::Ne => 2,
        BinOp::Gt | BinOp::Gte | BinOp::Lt | BinOp::Lte => 3,
        BinOp::Add | BinOp::Sub => 4,
        BinOp::Mul | BinOp::Div => 5,
    }
}

/// An infix node written without parentheses around it: its span is that of its operands.
pub open spec fn bare_op(e: Tag<Expr>) -> bool {
    match *e.item {
        Expr::BinOp(l, _, r) => e.span.0 == l.span.0 && e.span.1 == r.span.1,
        _ => false,
    }
}

/// The level of the operator of an infix node (0 for any other node).
pub open spec fn top_level(e: Tag<Expr>) -> nat {
    match *e.item {
        Expr::BinOp(_, op, _) => op_level(*op.item),
        _ => 0,
    }
}

/// The source under a span starts with the text `t`.
pub open spec fn opens_with(sp: Span, t: Seq<u8>, src: Seq<u8>) -> bool {
    sp.0 + t.len() <= sp.1 && sp.1 <= src.len() && slice(src, (sp.0, (sp.0 + t.len()) as usize)) == t
}

/// A span as a pair of numbers.
pub open spec fn nsp(sp: Span) -> (nat, nat) {
    (sp.0 as nat, sp.1 as nat)
}

/// `outer` is `core` inside pairs of parentheses, with blanks inside each pair: `mids` lists
/// the spans inside each pair, from the outermost in.
pub open spec fn wraps(src: Seq<u8>, outer: (nat, nat), core: (nat, nat), mids: Seq<(nat, nat)>) -> bool
    decreases mids.len(),
{
    if mids.len() == 0 {
        outer == core
    } else {
        &&& outer.0 < src.len() && src[outer.0 as int] == 40u8
        &&& skip_end(src, outer.0 + 1, true) == mids[0].0
        &&& tok(src, mids[0].1, true, seq![41u8]) == Some(outer.1)
        &&& wraps(src, mids[0], core, mids.drop_first())
    }
}

/// The span of a node is the text it is made of (`core`), inside zero or more pairs of
/// parentheses.
#[verifier::opaque]
pub open spec fn wrapped(src: Seq<u8>, outer: Span, core: (nat, nat)) -> bool {
    exists|mids: Seq<(nat, nat)>| #[trigger] wraps(src, nsp(outer), core, mids)
}

/// The span of a node made of one token: the token's own span, inside zero or more pairs of
/// parentheses.
pub open spec fn token_span(e: Span, t: Span, src: Seq<u8>) -> bool {
    wrapped(src, e, nsp(t))
}

/// Where an `if` ends: after the `}` of its `else` branch, or of its other branch where it
/// has no `else`.
pub open spec fn if_close(src: Seq<u8>, t: Tag<Expr>, f: Tag<Expr>) -> nat {
    if *f.item is Unit && f.span == t.span {
        close_of(src, t)
    } else {
        close_of(src, f)
    }
}

/// Unit written as `()` (inside its span, which parentheses may widen) or as nothing at all.
pub open spec fn unit_text(e: Tag<Expr>, src: Seq<u8>) -> bool {
    e.span.0 == e.span.1 || exists|sp: Span| #[trigger] token_span(e.span, sp, src) && slice(src, sp) == seq![40u8, 41]
}

/// A braced body read at `pos`: a `{` after blanks, then the body from where the blanks
/// after it end to where the grammar's body read from there ends.
#[verifier::opaque]
pub open spec fn braced_after(src: Seq<u8>, pos: nat, b: Tag<Expr>) -> bool {
    &&& tok(src, pos, true, seq![123u8]) matches Some(k) && b.span.0 as nat == skip_end(src, k, true)
    &&& b.span.1 as nat == body_end(src, b.span.0 as nat)
}

/// Where the `}` after a braced body ends (0 where there is none).
pub open spec fn close_of(src: Seq<u8>, b: Tag<Expr>) -> nat {
    match tok(src, b.span.1 as nat, true, seq![125u8]) {
        Some(e) => e,
        None => 0,
    }
}

/// The keyword `kw` at `k`, followed by blanks up to `p`.
pub open spec fn keyword_before(src: Seq<u8>, k: nat, kw: Seq<u8>, p: nat) -> bool {
    k + kw.len() <= src.len() && src.subrange(k as int, (k + kw.len()) as int) == kw && skip_end(src, k + kw.len(), true) == p
}

/// The keyword `if`.
pub open spec fn if_text() -> Seq<u8> {
    seq![105u8, 102]
}

/// The text of the printing form up to its argument.
pub open spec fn print_text() -> Seq<u8> {
    seq![112u8, 114, 105, 110, 116, 108, 110, 33, 40, 34, 123, 125, 34, 44]
}

/// An identifier: a word that is no keyword, named by the text at its span.
pub open spec fn ident_ok(id: Tag<String>, src: Seq<u8>) -> bool {
    &&& within(id.span, src.len())
    &&& is_word(slice(src, id.span))
    &&& !is_keyword(slice(src, id.span))
    &&& id.item@ == chars_of(slice(src, id.span))
}

/// A type whose every part lies within the source: `bool` and `i64` are the text at their
/// spans, a function type starts with `fn` and has its parameter types where the grammar reads
/// them between `(` and `)`, then its result type after `->` (unit, where none is written, at
/// the empty span after the parameter types); unit is `()` or nothing.
pub open spec fn type_ok(t: Tag<Type>, src: Seq<u8>) -> bool
    decreases t,
{
    within(t.span, src.len()) && match *t.item {
        Type::Fun(args, ret) => {
            &&& within(args.span, src.len()) && types_ok(args.item@, src) && type_ok(*ret, src)
            &&& t.span.0 + 2 <= t.span.1 && slice(src, (t.span.0, (t.span.0 + 2) as usize)) == seq![102u8, 110]
            &&& types_in_order(args.item@, args.span)
            &&& args.span.1 <= ret.span.0
            &&& tok(src, (t.span.0 + 2) as nat, false, seq![40u8]) matches Some(p3) && args.span.0 as nat == skip_end(src, p3, false)
            &&& args.span.1 as nat == type_list_end(src, args.span.0 as nat)
            &&& type_spans(args.item@) == type_list_spans(src, args.span.0 as nat)
            &&& tok(src, args.span.1 as nat, false, seq![41u8]) matches Some(close) && (
                (tok(src, close, false, seq![45u8, 62]) matches Some(q2) && ret.span.0 as nat == skip_end(src, q2, false)
                    && t.span.1 == ret.span.1)
                || (*ret.item is Unit && t.span.1 as nat == close && ret.span == (args.span.1, args.span.1)))
        },
        Type::Bool => slice(src, t.span) == seq![98u8, 111, 111, 108],
        Type::I64 => slice(src, t.span) == seq![105u8, 54, 52],
        Type::Unit => slice(src, t.span) == seq![40u8, 41] || t.span.0 == t.span.1,
    }
}

/// The spans of a list of types.
pub open spec fn type_spans(ts: Seq<Tag<Type>>) -> Seq<(nat, nat)> {
    ts.map_values(|t: Tag<Type>| (t.span.0 as nat, t.span.1 as nat))
}

/// Types one after the other, all inside a span.
pub open spec fn types_in_order(ts: Seq<Tag<Type>>, sp: Span) -> bool {
    &&& forall|i: int| 0 <= i < ts.len() ==> covers(sp, (#[trigger] ts[i]).span)
    &&& forall|i: int| 0 <= i < ts.len() - 1 ==> (#[trigger] ts[i]).span.1 <= ts[i + 1].span.0
}

pub open spec fn types_ok(ts: Seq<Tag<Type>>, src: Seq<u8>) -> bool
    decreases ts,
{
    ts.len() == 0 || (type_ok(ts[0], src) && types_ok(ts.drop_first(), src))
}

/// An expression read from the source, each part where the grammar reads it: every node's
/// span is the text it is made of, inside zero or more pairs of parentheses, and its tokens
/// are the text at their spans; the operands of an infix operator lie on either side of it
/// with only blanks between; a call's arguments are exactly those the grammar reads between
/// its `(` and `)`; an `if`'s condition follows its keyword and its branches are braced bodies
/// in their places (unit, at the span of the other branch, where no `else` is read); printing
/// takes the expression between its `,` and `)`; a `let` names, annotates, assigns and
/// continues at the places the grammar reads; a nested function's signature is read where it
/// stands and is followed by the rest of the body after a newline (unit, at the span of its
/// name, where nothing follows); the parts of a sequence follow each other after `;`; an
/// operand written without parentheses binds tighter than its operator (on the left, at least
/// as tightly: operators of one level group to the left); a call is never made of an infix
/// node written without parentheses; and a sequence is grouped to the left.
pub open spec fn expr_ok(e: Tag<Expr>, src: Seq<u8>) -> bool
    decreases e,
{
    within(e.span, src.len()) && match *e.item {
        Expr::Unit => unit_text(e, src),
        Expr::Bool(b) => exists|sp: Span| #[trigger] token_span(e.span, sp, src) && slice(src, sp) == bool_text(b),
        Expr::Int(v) => exists|sp: Span|
            #[trigger] token_span(e.span, sp, src) && is_number(slice(src, sp)) && v as int == digits_value(slice(src, sp)),
        Expr::Ident(id) => ident_ok(id, src) && token_span(e.span, id.span, src),
        Expr::BinOp(l, op, r) => {
            &&& expr_ok(*l, src)
            &&& within(op.span, src.len())
            &&& slice(src, op.span) == op_text(*op.item)
            &&& expr_ok(*r, src)
            &&& covers(e.span, l.span) && covers(e.span, r.span)
            &&& wrapped(src, e.span, (l.span.0 as nat, r.span.1 as nat))
            &&& l.span.1 <= op.span.0 && op.span.1 <= r.span.0
            &&& op.span.0 as nat == skip_end(src, l.span.1 as nat, true) && r.span.0 as nat == skip_end(src, op.span.1 as nat, true)
            &&& bare_op(*l) ==> top_level(*l) >= op_level(*op.item)
            &&& bare_op(*r) ==> top_level(*r) > op_level(*op.item)
        },
        Expr::If(c, t, f) => {
            &&& exists|k: nat| #[trigger] keyword_before(src, k, if_text(), c.span.0 as nat)
                && wrapped(src, e.span, (k, if_close(src, *t, *f)))
            &&& expr_ok(*c, src) && expr_ok(*t, src)
            &&& braced_after(src, c.span.1 as nat, *t) && tok(src, t.span.1 as nat, true, seq![125u8]) is Some
            &&& (expr_ok(*f, src) && (tok(src, close_of(src, *t), true, seq![101u8, 108, 115, 101]) matches Some(q2)
                    && braced_after(src, q2, *f)) && tok(src, f.span.1 as nat, true, seq![125u8]) is Some)
                || (*f.item is Unit && f.span == t.span)
        },
        Expr::FunApp(f, args) => {
            &&& tok(src, args.span.1 as nat, true, seq![41u8]) matches Some(z) && wrapped(src, e.span, (f.span.0 as nat, z))
            &&& expr_ok(*f, src) && within(args.span, src.len()) && exprs_ok(args.item@, src) && !bare_op(*f)
            &&& f.span.1 <= args.span.0
            &&& in_order(args.item@, args.span)
            &&& tok(src, f.span.1 as nat, false, seq![40u8]) matches Some(b) && args.span.0 as nat == skip_end(src, b, true)
            &&& args.span.1 as nat == expr_list_end(src, args.span.0 as nat)
            &&& spans_of(args.item@) == expr_list_spans(src, args.span.0 as nat)
        },
        Expr::Print(x) => {
            &&& expr_ok(*x, src)
            &&& tok(src, x.span.1 as nat, true, seq![41u8]) matches Some(z)
                && exists|k: nat| #[trigger] keyword_before(src, k, print_text(), x.span.0 as nat) && wrapped(src, e.span, (k, z))
        },
        Expr::Block(_) => false,
        Expr::Let(id, ann, rhs, rest) => {
            &&& opens_with(e.span, seq![108u8, 101, 116], src) && e.span.1 == rest.span.1
            &&& spaces_end(src, (e.span.0 + 3) as nat) matches Some(p2) && id.span.0 as nat == skip_end(src, p2, true)
            &&& ident_ok(id, src)
            &&& match ann {
                Some(t) => {
                    &&& type_ok(t, src)
                    &&& tok(src, id.span.1 as nat, false, seq![58u8]) matches Some(d) && t.span.0 as nat == skip_end(src, d, false)
                    &&& tok(src, t.span.1 as nat, true, seq![61u8]) matches Some(k) && rhs.span.0 as nat == skip_end(src, k, true)
                },
                None => tok(src, id.span.1 as nat, true, seq![61u8]) matches Some(k) && rhs.span.0 as nat == skip_end(src, k, true),
            }
            &&& expr_ok(*rhs, src) && expr_ok(*rest, src)
            &&& id.span.1 <= rhs.span.0 && rhs.span.1 <= rest.span.0
            &&& tok(src, rhs.span.1 as nat, false, seq![59u8]) matches Some(d) && rest.span.0 as nat == skip_end(src, d, true)
        },
        Expr::FunDec(sig, rest) => {
            &&& opens_with(e.span, seq![102u8, 110], src)
            &&& sig_ok(sig, src, false, e.span.0 as nat)
            &&& (expr_ok(*rest, src) && (tok(src, close_of(src, *sig.body), false, seq![10u8]) matches Some(c2)
                    && rest.span.0 as nat == skip_end(src, c2, true)) && e.span.1 == rest.span.1)
                || (*rest.item is Unit && rest.span == sig.name.span && e.span.1 as nat == close_of(src, *sig.body))
        },
        Expr::Sequence(a, b) => {
            &&& expr_ok(*a, src) && expr_ok(*b, src) && !(*b.item is Sequence) && a.span.1 <= b.span.0
            &&& e.span.0 == a.span.0 && e.span.1 == b.span.1
            &&& tok(src, a.span.1 as nat, true, seq![59u8]) matches Some(k) && b.span.0 as nat == skip_end(src, k, true)
        },
    }
}

/// The spans of a list of expressions.
pub open spec fn spans_of(es: Seq<Box<Tag<Expr>>>) -> Seq<(nat, nat)> {
    es.map_values(|x: Box<Tag<Expr>>| (x.span.0 as nat, x.span.1 as nat))
}

/// Expressions one after the other, all inside a span.
pub open spec fn in_order(es: Seq<Box<Tag<Expr>>>, sp: Span) -> bool {
    &&& forall|i: int| 0 <= i < es.len() ==> covers(sp, (#[trigger] es[i]).span)
    &&& forall|i: int| 0 <= i < es.len() - 1 ==> (#[trigger] es[i]).span.1 <= es[i + 1].span.0
}

pub open spec fn exprs_ok(es: Seq<Box<Tag<Expr>>>, src: Seq<u8>) -> bool
    decreases es,
{
    es.len() == 0 || (expr_ok(*es[0], src) && exprs_ok(es.drop_first(), src))
}

/// The parameters of a signature: named by identifiers, typed within the source, each name
/// before its type and the parameters in order.
pub open spec fn params_ok(ps: Seq<(Tag<String>, Tag<Type>)>, src: Seq<u8>) -> bool {
    &&& forall|i: int| 0 <= i < ps.len() ==> ident_ok((#[trigger] ps[i]).0, src) && type_ok(ps[i].1, src)
        && ps[i].0.span.1 <= ps[i].1.span.0
        && (tok(src, ps[i].0.span.1 as nat, false, seq![58u8]) matches Some(c) && ps[i].1.span.0 as nat == skip_end(src, c, false))
    &&& forall|i: int| 0 <= i < ps.len() - 1 ==> (#[trigger] ps[i]).1.span.1 <= ps[i + 1].0.span.0
}

/// The spans of a list of parameters, from each name to the end of its type.
pub open spec fn pair_spans(ps: Seq<(Tag<String>, Tag<Type>)>) -> Seq<(nat, nat)> {
    ps.map_values(|p: (Tag<String>, Tag<Type>)| (p.0.span.0 as nat, p.1.span.1 as nat))
}

/// A function's signature and body read at `start`: `fn`, spaces, the name, `(`, the
/// parameters (blanks around them, newlines too where `nl`), `)`, an optional `-> type`, and
/// the braced body; every part where the grammar reads it. Where no result type is written it
/// is unit, at the name of a top-level function (`nl`) and just after the `)` of a nested one.
pub open spec fn sig_ok(sig: FunSignature, src: Seq<u8>, nl: bool, start: nat) -> bool
    decreases sig,
{
    &&& start + 2 <= src.len() && src.subrange(start as int, (start + 2) as int) == seq![102u8, 110]
    &&& spaces_end(src, (start + 2) as nat) == Some(sig.name.span.0 as nat)
    &&& ident_ok(sig.name, src)
    &&& within(sig.params.span, src.len())
    &&& tok(src, sig.name.span.1 as nat, false, seq![40u8]) matches Some(p5) && sig.params.span.0 as nat == skip_end(src, p5, nl)
    &&& sig.params.span.1 as nat == param_list_end(src, sig.params.span.0 as nat)
    &&& pair_spans(sig.params.item@) == param_spans(src, sig.params.span.0 as nat)
    &&& params_ok(sig.params.item@, src)
    &&& expr_ok(*sig.body, src)
    &&& tok(src, sig.body.span.1 as nat, true, seq![125u8]) is Some
    &&& tok(src, sig.params.span.1 as nat, nl, seq![41u8]) matches Some(close) && (
        (tok(src, close, false, seq![45u8, 62]) matches Some(q2) && sig.ret.span.0 as nat == skip_end(src, q2, false)
            && type_ok(sig.ret, src) && braced_after(src, sig.ret.span.1 as nat, *sig.body))
        || (*sig.ret.item is Unit && braced_after(src, close, *sig.body) && (if nl {
            sig.ret.span == sig.name.span
        } else {
            sig.ret.span.0 as nat == close && sig.ret.span.1 as nat == close + 1
        })))
}

/// The spans of a list of top-level functions.
pub open spec fn top_spans(tops: Seq<Tag<Top>>) -> Seq<(nat, nat)> {
    tops.map_values(|t: Tag<Top>| (t.span.0 as nat, t.span.1 as nat))
}

/// A parsed program: every function lies within the source and says what the source says.
pub open spec fn program_ok(tops: Seq<Tag<Top>>, src: Seq<u8>) -> bool {
    forall|i: int| 0 <= i < tops.len() ==> within((#[trigger] tops[i]).span, src.len()) && match *tops[i].item {
        Top::FunDec(sig) => sig_ok(sig, src, true, tops[i].span.0 as nat),
    }
}

} // verus!
