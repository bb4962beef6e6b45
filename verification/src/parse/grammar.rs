//! The grammar: types, expressions, bodies and top-level functions, read by recursive
//! descent with ordered choice. Every node is tagged with the span it was read from, from
//! its first byte to its last, blanks around it left out.
use vstd::prelude::*;

use super::scan::{ident, lit, lit_byte, mark, number, separator, skip, spaces, Log};
use super::syntax::{
    first, tok, type_list_spans, type_tail_spans, expr_list_spans, expr_list_tail_spans, param_spans, param_tail_spans, lemma_skip_bounds, accepts, program_spans, tops_spans, assigned_end, let_value_end, lit_end, skip_end, spaces_end, ident_end, print_end, paren_end, atom_end, binop_step_end, body_end, body_tail, braced_end, end_of, expr_at_end, expr_list_end,
    expr_list_tail, expr_tail, fun_head_end, fun_stmt_end, if_end, let_end, operand_end, param_end, param_list_end,
    param_tail, primary_end, statement_end, tops_tail, top_end, trailing_comma, try_op_end, typ_end, type_list_end,
    type_tail,
};
use super::spec::{
    top_spans, type_spans, spans_of, braced_after, close_of, keyword_before, if_text, print_text, nsp, wraps, wrapped, if_close, pair_spans, opens_with, token_span, bare_op, in_order, types_in_order, op_level, top_level, bool_text, covers, expr_ok, exprs_ok, ident_ok, op_text, params_ok, program_ok, sig_ok, slice, type_ok, types_ok,
    within,
};
use crate::ast::{BinOp, Expr, FunSignature, Program, Tag, Top, Type, _Expr, _Ident, _Type};

verus! {

proof fn lemma_types_push(ts: Seq<Tag<Type>>, t: Tag<Type>, src: Seq<u8>)
    requires
        types_ok(ts, src),
        type_ok(t, src),
    ensures
        types_ok(ts.push(t), src),
    decreases ts.len(),
{
    let s = ts.push(t);
    if ts.len() > 0 {
        lemma_types_push(ts.drop_first(), t, src);
        assert(s.drop_first() =~= ts.drop_first().push(t));
        assert(s[0] == ts[0]);
    } else {
        assert(s.drop_first() =~= Seq::<Tag<Type>>::empty());
        assert(types_ok(s.drop_first(), src));
        assert(s[0] == t);
    }
}

proof fn lemma_exprs_push(es: Seq<Box<Tag<Expr>>>, x: Box<Tag<Expr>>, src: Seq<u8>)
    requires
        exprs_ok(es, src),
        expr_ok(*x, src),
    ensures
        exprs_ok(es.push(x), src),
    decreases es.len(),
{
    let s = es.push(x);
    if es.len() > 0 {
        lemma_exprs_push(es.drop_first(), x, src);
        assert(s.drop_first() =~= es.drop_first().push(x));
        assert(s[0] == es[0]);
    } else {
        assert(s.drop_first() =~= Seq::<Box<Tag<Expr>>>::empty());
        assert(exprs_ok(s.drop_first(), src));
        assert(s[0] == x);
    }
}

/// The operators and calls after an operand end within the source, at or after it.
proof fn lemma_tail_bounds(s: Seq<u8>, cur: nat, min: nat)
    requires
        cur <= s.len(),
    ensures
        cur <= expr_tail(s, cur, min) <= s.len(),
    decreases s.len() - cur,
{
    lemma_skip_bounds(s, cur, true);
    match binop_step_end(s, skip_end(s, cur, true), min) {
        Some(e) if cur < e <= s.len() => lemma_tail_bounds(s, e, min),
        _ => if min <= 6 {
            match super::syntax::tok(s, cur, false, seq![40u8]) {
                None => {},
                Some(b) => {
                    super::syntax::lemma_tok(s, cur, false, seq![40u8]);
                    lemma_skip_bounds(s, b, true);
                    match super::syntax::tok(s, expr_list_end(s, skip_end(s, b, true)), true, seq![41u8]) {
                        Some(f) if cur < f <= s.len() => lemma_tail_bounds(s, f, min),
                        _ => {},
                    }
                },
            }
        },
    }
}

/// An infix operator and its right operand, where they parse, end after the operator's
/// position and within the source.
proof fn lemma_try_bounds(s: Seq<u8>, ws: nat, level: nat, t: Seq<u8>)
    requires
        ws <= s.len(),
        try_op_end(s, ws, level, t) is Some,
    ensures
        ws < try_op_end(s, ws, level, t).unwrap() <= s.len(),
{
    let oe = lit_end(s, ws, t).unwrap();
    lemma_skip_bounds(s, oe, true);
    let p = skip_end(s, oe, true);
    let a = super::syntax::atom_end(s, p).unwrap();
    lemma_tail_bounds(s, a, level + 1);
}

/// The first infix operator that parses ends after its position and within the source.
proof fn lemma_binop_bounds(s: Seq<u8>, ws: nat, min: nat)
    requires
        ws <= s.len(),
        binop_step_end(s, ws, min) is Some,
    ensures
        ws < binop_step_end(s, ws, min).unwrap() <= s.len(),
{
    lemma_try_some_bounds(s, ws, 2, seq![61u8, 61]);
    lemma_try_some_bounds(s, ws, 2, seq![33u8, 61]);
    lemma_try_some_bounds(s, ws, 3, seq![62u8]);
    lemma_try_some_bounds(s, ws, 3, seq![62u8, 61]);
    lemma_try_some_bounds(s, ws, 3, seq![60u8]);
    lemma_try_some_bounds(s, ws, 3, seq![60u8, 61]);
    lemma_try_some_bounds(s, ws, 4, seq![43u8]);
    lemma_try_some_bounds(s, ws, 4, seq![45u8]);
    lemma_try_some_bounds(s, ws, 5, seq![42u8]);
    lemma_try_some_bounds(s, ws, 5, seq![47u8]);
}

proof fn lemma_try_some_bounds(s: Seq<u8>, ws: nat, level: nat, t: Seq<u8>)
    requires
        ws <= s.len(),
    ensures
        try_op_end(s, ws, level, t) matches Some(x) ==> ws < x <= s.len(),
{
    if try_op_end(s, ws, level, t) is Some {
        lemma_try_bounds(s, ws, level, t);
    }
}

/// Where an operator of a level at least `min` parses with its right operand, some operator
/// of a level at least `min` does.
proof fn lemma_binop_some(s: Seq<u8>, ws: nat, min: nat, op: BinOp)
    requires
        op_level(op) >= min,
        try_op_end(s, ws, op_level(op), op_text(op)) is Some,
    ensures
        binop_step_end(s, ws, min) is Some,
{
}

/// An infix node written without parentheses after an operand that ends at `cur`, whose
/// operators and calls from `cur` on at its operator's next level stop at `cur`: no operator
/// of a higher level, and no call, follows at `cur`.
proof fn lemma_stopped(s: Seq<u8>, cur: nat, level: nat, min: nat, op: BinOp)
    requires
        cur <= s.len(),
        expr_tail(s, cur, level + 1) == cur,
        try_op_end(s, skip_end(s, cur, true), op_level(op), op_text(op)) is Some,
        op_level(op) >= min,
    ensures
        op_level(op) <= level,
{
    lemma_skip_bounds(s, cur, true);
    if op_level(op) > level {
        lemma_binop_some(s, skip_end(s, cur, true), level + 1, op);
        lemma_binop_bounds(s, skip_end(s, cur, true), level + 1);
        let x = binop_step_end(s, skip_end(s, cur, true), level + 1).unwrap();
        lemma_tail_bounds(s, x, level + 1);
    }
}

/// One more pair of parentheses around a wrapped span.
proof fn lemma_wrap_more(src: Seq<u8>, inner: (usize, usize), sp: (usize, usize), core: (nat, nat))
    requires
        wrapped(src, inner, core),
        sp.0 < src.len(),
        src[sp.0 as int] == 40u8,
        skip_end(src, (sp.0 + 1) as nat, true) == inner.0 as nat,
        tok(src, inner.1 as nat, true, seq![41u8]) == Some(sp.1 as nat),
    ensures
        wrapped(src, sp, core),
{
    reveal(wrapped);
    let mids = choose|mids: Seq<(nat, nat)>| #[trigger] wraps(src, nsp(inner), core, mids);
    let more = seq![nsp(inner)] + mids;
    assert(more.drop_first() =~= mids);
    assert(more[0] == nsp(inner));
    assert(wraps(src, nsp(sp), core, more));
}

/// A node stays well formed inside a pair of parentheses around it.
proof fn lemma_widen(x: Tag<Expr>, sp: (usize, usize), src: Seq<u8>)
    requires
        expr_ok(x, src),
        !(*x.item is Sequence),
        !(*x.item is Let),
        !(*x.item is FunDec),
        x.span.0 < x.span.1,
        within(sp, src.len()),
        sp.0 <= x.span.0,
        x.span.1 <= sp.1,
        sp.0 < src.len(),
        src[sp.0 as int] == 40u8,
        skip_end(src, (sp.0 + 1) as nat, true) == x.span.0 as nat,
        tok(src, x.span.1 as nat, true, seq![41u8]) == Some(sp.1 as nat),
    ensures
        expr_ok(Tag { item: x.item, span: sp }, src),
{
    let y = Tag { item: x.item, span: sp };
    match *x.item {
        Expr::Bool(b) => {
            let w = choose|w: (usize, usize)| #[trigger] token_span(x.span, w, src) && slice(src, w) == bool_text(b);
            lemma_wrap_more(src, x.span, sp, nsp(w));
            assert(token_span(y.span, w, src));
        },
        Expr::Int(v) => {
            let w = choose|w: (usize, usize)|
                #[trigger] token_span(x.span, w, src) && super::spec::is_number(slice(src, w)) && v as int
                    == super::spec::digits_value(slice(src, w));
            lemma_wrap_more(src, x.span, sp, nsp(w));
            assert(token_span(y.span, w, src));
        },
        Expr::Unit => {
            let w = choose|w: (usize, usize)| #[trigger] token_span(x.span, w, src) && slice(src, w) == seq![40u8, 41];
            lemma_wrap_more(src, x.span, sp, nsp(w));
            assert(token_span(y.span, w, src));
        },
        Expr::Ident(id) => {
            lemma_wrap_more(src, x.span, sp, nsp(id.span));
        },
        Expr::BinOp(l, op, r) => {
            lemma_wrap_more(src, x.span, sp, (l.span.0 as nat, r.span.1 as nat));
        },
        Expr::If(c, t, f) => {
            let k = choose|k: nat| #[trigger] keyword_before(src, k, if_text(), c.span.0 as nat)
                && wrapped(src, x.span, (k, if_close(src, *t, *f)));
            lemma_wrap_more(src, x.span, sp, (k, if_close(src, *t, *f)));
            assert(keyword_before(src, k, if_text(), c.span.0 as nat));
        },
        Expr::FunApp(f, args) => {
            let z = tok(src, args.span.1 as nat, true, seq![41u8]).unwrap();
            lemma_wrap_more(src, x.span, sp, (f.span.0 as nat, z));
        },
        Expr::Print(e) => {
            let z = tok(src, e.span.1 as nat, true, seq![41u8]).unwrap();
            let k = choose|k: nat| #[trigger] keyword_before(src, k, print_text(), e.span.0 as nat) && wrapped(src, x.span, (k, z));
            lemma_wrap_more(src, x.span, sp, (k, z));
            assert(keyword_before(src, k, print_text(), e.span.0 as nat));
        },
        _ => {},
    }
}

/// A span wraps itself.
proof fn lemma_wrap_self(src: Seq<u8>, sp: (usize, usize))
    ensures
        wrapped(src, sp, nsp(sp)),
{
    reveal(wrapped);
    assert(wraps(src, nsp(sp), nsp(sp), Seq::empty()));
}

/// A type (`typ`).
#[verifier::spinoff_prover]
#[verifier::rlimit(80)]
pub fn typ(src: &Vec<u8>, log: &mut Log, pos: usize) -> (r: Option<(_Type, usize)>)
    requires
        pos <= src@.len(),
    ensures
        r matches Some((t, e)) ==> pos < e <= src@.len() && t.span == (pos, e) && type_ok(t, src@),
        end_of(r) == typ_end(src@, pos as nat),
    decreases src@.len() - pos, 0nat,
{
    if let Some(e) = lit(src, log, pos, &[40u8, 41], "\"()\"") {
        return Some((Tag::new(Type::Unit, (pos, e)), e));
    }
    let i64_text: [u8; 3] = [105u8, 54, 52];
    assert(i64_text@ =~= seq![105u8, 54, 52]);
    if let Some(e) = lit(src, log, pos, &i64_text, "\"i64\"") {
        return Some((Tag::new(Type::I64, (pos, e)), e));
    }
    let bool_text: [u8; 4] = [98u8, 111, 111, 108];
    assert(bool_text@ =~= seq![98u8, 111, 111, 108]);
    if let Some(e) = lit(src, log, pos, &bool_text, "\"bool\"") {
        return Some((Tag::new(Type::Bool, (pos, e)), e));
    }
    let fn_text: [u8; 2] = [102u8, 110];
    assert(fn_text@ =~= seq![102u8, 110]);
    let p1 = match lit(src, log, pos, &fn_text, "\"fn\"") {
        Some(e) => e,
        None => return None,
    };
    let p2 = skip(src, p1, false);
    let p3 = match lit_byte(src, log, p2, 40u8, "\"(\"") {
        Some(e) => e,
        None => return None,
    };
    let p4 = skip(src, p3, false);
    let (args, p5) = type_list(src, log, p4);
    let p6 = skip(src, p5, false);
    let close = match lit_byte(src, log, p6, 41u8, "\")\"") {
        Some(e) => e,
        None => return None,
    };
    let q1 = skip(src, close, false);
    let mut ret: Option<(_Type, usize)> = None;
    if let Some(q2) = lit(src, log, q1, &[45u8, 62], "\"->\"") {
        let q3 = skip(src, q2, false);
        ret = typ(src, log, q3);
    }
    match ret {
        Some((rt, e)) => {
            Some((Tag::new(Type::Fun(args, Box::new(rt)), (pos, e)), e))
        },
        None => {
            let ae = args.span.1;
            let unit = Tag::new(Type::Unit, (ae, ae));
            assert(type_ok(unit, src@));
            Some((Tag::new(Type::Fun(args, Box::new(unit)), (pos, close)), close))
        },
    }
}

/// A list of types separated by commas, with an optional comma after the last.
fn type_list(src: &Vec<u8>, log: &mut Log, pos: usize) -> (r: (Tag<Vec<_Type>>, usize))
    requires
        pos <= src@.len(),
    ensures
        pos <= r.1 <= src@.len(),
        r.0.span == (pos, r.1),
        types_ok(r.0.item@, src@),
        r.1 == type_list_end(src@, pos as nat),
        types_in_order(r.0.item@, r.0.span),
        type_spans(r.0.item@) == type_list_spans(src@, pos as nat),
    decreases src@.len() - pos, 1nat,
{
    let mut v: Vec<_Type> = Vec::new();
    let mut cur = pos;
    let ghost mut last = pos as nat;
    if let Some((t, e)) = typ(src, log, pos) {
        proof {
            lemma_types_push(v@, t, src@);
        }
        v.push(t);
        cur = e;
        proof {
            last = type_tail(src@, e as nat);
            assert(type_spans(v@) =~= seq![(pos as nat, e as nat)]);
        }
        loop
            invariant
                pos <= cur <= src@.len(),
                types_ok(v@, src@),
                last == type_tail(src@, cur as nat),
                type_list_end(src@, pos as nat) == trailing_comma(src@, last),
                types_in_order(v@, (pos, cur)),
                type_spans(v@) + type_tail_spans(src@, cur as nat) == type_list_spans(src@, pos as nat),
            ensures
                pos <= cur <= src@.len(),
                types_ok(v@, src@),
                type_list_end(src@, pos as nat) == trailing_comma(src@, cur as nat),
                types_in_order(v@, (pos, cur)),
                type_spans(v@) == type_list_spans(src@, pos as nat),
            decreases src@.len() - cur,
        {
            let a = skip(src, cur, false);
            let b = match lit_byte(src, log, a, 44u8, "\",\"") {
                Some(b) => b,
                None => {
                    proof {
                        assert(type_spans(v@) + Seq::<(nat, nat)>::empty() =~= type_spans(v@));
                    }
                    break;
                },
            };
            let c = skip(src, b, true);
            match typ(src, log, c) {
                Some((t, e)) => {
                    proof {
                        lemma_types_push(v@, t, src@);
                    }
                    let ghost old_v = v@;
                    v.push(t);
                    proof {
                        assert(type_spans(v@) =~= type_spans(old_v) + seq![(c as nat, e as nat)]);
                        assert(type_spans(old_v) + type_tail_spans(src@, cur as nat)
                            =~= type_spans(v@) + type_tail_spans(src@, e as nat));
                    }
                    cur = e;
                },
                None => {
                    proof {
                        assert(type_spans(v@) + Seq::<(nat, nat)>::empty() =~= type_spans(v@));
                    }
                    break;
                },
            }
        }
    }
    let a = skip(src, cur, false);
    if let Some(b) = lit_byte(src, log, a, 44u8, "\",\"") {
        cur = b;
    }
    (Tag::new(v, (pos, cur)), cur)
}

/// A node with its span.
fn node(e: Expr, start: usize, end: usize) -> (r: _Expr)
    ensures
        *r.item == e,
        r.span == (start, end),
{
    Tag::boxed(e, (start, end))
}

/// One infix operator at `ws` and its right operand, at level `level`: the operator and
/// where it ends, the operand and where that ends.
#[verifier::spinoff_prover]
#[verifier::rlimit(60)]
fn try_op(
    src: &Vec<u8>,
    log: &mut Log,
    ws: usize,
    level: u8,
    t: &[u8],
    name: &str,
    op: BinOp,
) -> (r: Option<(BinOp, usize, _Expr, usize)>)
    requires
        ws <= src@.len(),
        level < 7,
        t@ == op_text(op),
    ensures
        r matches Some((o, oe, rhs, e)) ==> o == op && ws < oe && oe <= rhs.span.0 && rhs.span.1 == e && e <= src@.len()
            && rhs.span.0 as nat == skip_end(src@, oe as nat, true)
            && slice(src@, (ws, oe)) == op_text(o) && expr_ok(*rhs, src@),
        r is Some <==> try_op_end(src@, ws as nat, level as nat, t@) is Some,
        r matches Some((_, _, _, e)) ==> try_op_end(src@, ws as nat, level as nat, t@) == Some(e as nat),
        r matches Some((_, _, rhs, e)) ==> (bare_op(*rhs) ==> top_level(*rhs) >= level + 1)
            && expr_tail(src@, e as nat, (level + 1) as nat) == e as nat && !(*rhs.item is Sequence),
    decreases src@.len() - ws, 0nat,
{
    let oe = match lit(src, log, ws, t, name) {
        Some(e) => e,
        None => return None,
    };
    let q = skip(src, oe, true);
    match expr_at(src, log, q, level + 1) {
        Some((rhs, e)) => Some((op, oe, rhs, e)),
        None => None,
    }
}

/// The first infix operator at `ws`, of a level at least `min`, whose right operand parses.
fn binop_step(src: &Vec<u8>, log: &mut Log, ws: usize, min: u8) -> (r: Option<(BinOp, usize, _Expr, usize)>)
    requires
        ws <= src@.len(),
    ensures
        r matches Some((o, oe, rhs, e)) ==> ws < oe && oe <= rhs.span.0 && rhs.span.1 == e && e <= src@.len()
            && rhs.span.0 as nat == skip_end(src@, oe as nat, true)
            && slice(src@, (ws, oe)) == op_text(o) && expr_ok(*rhs, src@),
        r is Some <==> binop_step_end(src@, ws as nat, min as nat) is Some,
        r matches Some((_, _, _, e)) ==> binop_step_end(src@, ws as nat, min as nat) == Some(e as nat),
        r matches Some((o, _, rhs, e)) ==> op_level(o) >= min && try_op_end(src@, ws as nat, op_level(o), op_text(o)) is Some
            && (bare_op(*rhs) ==> top_level(*rhs) > op_level(o)) && expr_tail(src@, e as nat, op_level(o) + 1) == e as nat
            && !(*rhs.item is Sequence),
    decreases src@.len() - ws, 1nat,
{
    if min <= 2 {
        if let Some(x) = try_op(src, log, ws, 2, &[61u8, 61], "\"==\"", BinOp::Eq) {
            return Some(x);
        }
        if let Some(x) = try_op(src, log, ws, 2, &[33u8, 61], "\"!=\"", BinOp::Ne) {
            return Some(x);
        }
    }
    if min <= 3 {
        let gt_text: [u8; 1] = [62u8];
        assert(gt_text@ =~= op_text(BinOp::Gt));
        if let Some(x) = try_op(src, log, ws, 3, &gt_text, "\">\"", BinOp::Gt) {
            return Some(x);
        }
        if let Some(x) = try_op(src, log, ws, 3, &[62u8, 61], "\">=\"", BinOp::Gte) {
            return Some(x);
        }
        let lt_text: [u8; 1] = [60u8];
        assert(lt_text@ =~= op_text(BinOp::Lt));
        if let Some(x) = try_op(src, log, ws, 3, &lt_text, "\"<\"", BinOp::Lt) {
            return Some(x);
        }
        if let Some(x) = try_op(src, log, ws, 3, &[60u8, 61], "\"<=\"", BinOp::Lte) {
            return Some(x);
        }
    }
    if min <= 4 {
        let add_text: [u8; 1] = [43u8];
        assert(add_text@ =~= op_text(BinOp::Add));
        if let Some(x) = try_op(src, log, ws, 4, &add_text, "\"+\"", BinOp::Add) {
            return Some(x);
        }
        let sub_text: [u8; 1] = [45u8];
        assert(sub_text@ =~= op_text(BinOp::Sub));
        if let Some(x) = try_op(src, log, ws, 4, &sub_text, "\"-\"", BinOp::Sub) {
            return Some(x);
        }
    }
    if min <= 5 {
        let mul_text: [u8; 1] = [42u8];
        assert(mul_text@ =~= op_text(BinOp::Mul));
        if let Some(x) = try_op(src, log, ws, 5, &mul_text, "\"*\"", BinOp::Mul) {
            return Some(x);
        }
        let div_text: [u8; 1] = [47u8];
        assert(div_text@ =~= op_text(BinOp::Div));
        if let Some(x) = try_op(src, log, ws, 5, &div_text, "\"/\"", BinOp::Div) {
            return Some(x);
        }
    }
    None
}

/// An expression (`expr`) whose operators are of level `min` or above: equality (2),
/// comparison (3), sums (4), products (5) and calls (6), each level binding tighter than
/// the one before, infix operators associating to the left.
pub fn expr_at(src: &Vec<u8>, log: &mut Log, pos: usize, min: u8) -> (r: Option<(_Expr, usize)>)
    requires
        pos <= src@.len(),
    ensures
        r matches Some((x, e)) ==> pos < e <= src@.len() && x.span == (pos, e) && expr_ok(*x, src@),
        end_of(r) == expr_at_end(src@, pos as nat, min as nat),
        r matches Some((x, e)) ==> (bare_op(*x) ==> top_level(*x) >= min) && expr_tail(src@, e as nat, min as nat) == e as nat
            && !(*x.item is Sequence) && !(*x.item is Let) && !(*x.item is FunDec),
    decreases src@.len() - pos, 2nat,
{
    let (mut acc, mut cur) = match atom(src, log, pos) {
        Some(a) => a,
        None => return None,
    };
    loop
        invariant
            pos < cur <= src@.len(),
            acc.span == (pos, cur),
            expr_ok(*acc, src@),
            expr_at_end(src@, pos as nat, min as nat) == Some(expr_tail(src@, cur as nat, min as nat)),
            bare_op(*acc) ==> top_level(*acc) >= min && expr_tail(src@, cur as nat, top_level(*acc) + 1) == cur as nat,
            !(*acc.item is Sequence) && !(*acc.item is Let) && !(*acc.item is FunDec),
        ensures
            pos < cur <= src@.len(),
            acc.span == (pos, cur),
            expr_ok(*acc, src@),
            expr_at_end(src@, pos as nat, min as nat) == Some(cur as nat),
            expr_tail(src@, cur as nat, min as nat) == cur as nat,
            bare_op(*acc) ==> top_level(*acc) >= min,
            !(*acc.item is Sequence) && !(*acc.item is Let) && !(*acc.item is FunDec),
        decreases src@.len() - cur,
    {
        let ws = skip(src, cur, true);
        match binop_step(src, log, ws, min) {
            Some((op, oe, rhs, e)) => {
                proof {
                    lemma_skip_bounds(src@, cur as nat, true);
                    if bare_op(*acc) {
                        lemma_stopped(src@, cur as nat, top_level(*acc), min as nat, op);
                    }
                }
                let t = Tag::new(op, (ws, oe));
                proof {
                    lemma_wrap_self(src@, (pos, e));
                }
                acc = node(Expr::BinOp(acc, t, rhs), pos, e);
                cur = e;
                continue;
            },
            None => {},
        }
        if min > 6 {
            break;
        }
        let a = skip(src, cur, false);
        let b = match lit_byte(src, log, a, 40u8, "\"(\"") {
            Some(b) => b,
            None => break,
        };
        let c = skip(src, b, true);
        let (args, d) = expr_list(src, log, c);
        let d2 = skip(src, d, true);
        let f = match lit_byte(src, log, d2, 41u8, "\")\"") {
            Some(f) => f,
            None => break,
        };
        proof {
            if bare_op(*acc) {
                let lv = top_level(*acc);
                lemma_skip_bounds(src@, cur as nat, true);
                if binop_step_end(src@, skip_end(src@, cur as nat, true), lv + 1) is Some {
                    lemma_binop_bounds(src@, skip_end(src@, cur as nat, true), lv + 1);
                    lemma_tail_bounds(src@, binop_step_end(src@, skip_end(src@, cur as nat, true), lv + 1).unwrap(), lv + 1);
                } else {
                    lemma_tail_bounds(src@, f as nat, lv + 1);
                }
            }
        }
        proof {
            lemma_wrap_self(src@, (pos, f));
        }
        acc = node(Expr::FunApp(acc, args), pos, f);
        cur = f;
    }
    Some((acc, cur))
}

/// Call arguments: expressions separated by commas, with an optional comma after the last.
fn expr_list(src: &Vec<u8>, log: &mut Log, pos: usize) -> (r: (Tag<Vec<_Expr>>, usize))
    requires
        pos <= src@.len(),
    ensures
        pos <= r.1 <= src@.len(),
        r.0.span == (pos, r.1),
        exprs_ok(r.0.item@, src@),
        r.1 == expr_list_end(src@, pos as nat),
        in_order(r.0.item@, r.0.span),
        spans_of(r.0.item@) == expr_list_spans(src@, pos as nat),
    decreases src@.len() - pos, 3nat,
{
    let mut v: Vec<_Expr> = Vec::new();
    let mut cur = pos;
    let ghost mut last = pos as nat;
    if let Some((x, e)) = expr_at(src, log, pos, 0) {
        proof {
            lemma_exprs_push(v@, x, src@);
        }
        v.push(x);
        cur = e;
        proof {
            last = expr_list_tail(src@, e as nat);
            assert(spans_of(v@) =~= seq![(pos as nat, e as nat)]);
        }
        loop
            invariant
                pos <= cur <= src@.len(),
                exprs_ok(v@, src@),
                last == expr_list_tail(src@, cur as nat),
                expr_list_end(src@, pos as nat) == trailing_comma(src@, last),
                in_order(v@, (pos, cur)),
                spans_of(v@) + expr_list_tail_spans(src@, cur as nat) == expr_list_spans(src@, pos as nat),
            ensures
                pos <= cur <= src@.len(),
                exprs_ok(v@, src@),
                expr_list_end(src@, pos as nat) == trailing_comma(src@, cur as nat),
                in_order(v@, (pos, cur)),
                spans_of(v@) == expr_list_spans(src@, pos as nat),
            decreases src@.len() - cur,
        {
            let a = skip(src, cur, false);
            let b = match lit_byte(src, log, a, 44u8, "\",\"") {
                Some(b) => b,
                None => {
                    proof {
                        assert(spans_of(v@) + Seq::<(nat, nat)>::empty() =~= spans_of(v@));
                    }
                    break;
                },
            };
            let c = skip(src, b, true);
            match expr_at(src, log, c, 0) {
                Some((x, e)) => {
                    proof {
                        lemma_exprs_push(v@, x, src@);
                    }
                    let ghost old_v = v@;
                    v.push(x);
                    proof {
                        assert(spans_of(v@) =~= spans_of(old_v) + seq![(c as nat, e as nat)]);
                        assert(spans_of(old_v) + expr_list_tail_spans(src@, cur as nat)
                            =~= spans_of(v@) + expr_list_tail_spans(src@, e as nat));
                    }
                    cur = e;
                },
                None => {
                    proof {
                        assert(spans_of(v@) + Seq::<(nat, nat)>::empty() =~= spans_of(v@));
                    }
                    break;
                },
            }
        }
    }
    let a = skip(src, cur, false);
    if let Some(b) = lit_byte(src, log, a, 44u8, "\",\"") {
        cur = b;
    }
    (Tag::new(v, (pos, cur)), cur)
}

/// The operands that bind tightest: `if` with or without `else`, printing, and the
/// primary expressions.
fn atom(src: &Vec<u8>, log: &mut Log, pos: usize) -> (r: Option<(_Expr, usize)>)
    requires
        pos <= src@.len(),
    ensures
        r matches Some((x, e)) ==> pos < e <= src@.len() && x.span == (pos, e) && expr_ok(*x, src@),
        end_of(r) == atom_end(src@, pos as nat),
        r matches Some((x, _)) ==> !bare_op(*x) && !(*x.item is Sequence) && !(*x.item is Let) && !(*x.item is FunDec),
    decreases src@.len() - pos, 1nat,
{
    if let Some(r) = if_expr(src, log, pos) {
        return Some(r);
    }
    let print_lit: [u8; 14] = [112u8, 114, 105, 110, 116, 108, 110, 33, 40, 34, 123, 125, 34, 44];
    if let Some(p1) = lit(src, log, pos, &print_lit, "\"println!(\\\"{}\\\",\"") {
        let p2 = skip(src, p1, true);
        if let Some((x, p3)) = expr_at(src, log, p2, 0) {
            let p4 = skip(src, p3, true);
            if let Some(p5) = lit_byte(src, log, p4, 41u8, "\")\"") {
                assert(print_lit@ =~= print_text());
                assert(keyword_before(src@, pos as nat, print_text(), x.span.0 as nat));
                proof {
                    lemma_wrap_self(src@, (pos, p5));
                }
                return Some((node(Expr::Print(x), pos, p5), p5));
            }
        }
    }
    primary(src, log, pos)
}

/// `if c { .. } else { .. }`, or `if c { .. }` whose missing branch is unit.
#[verifier::spinoff_prover]
#[verifier::rlimit(60)]
fn if_expr(src: &Vec<u8>, log: &mut Log, pos: usize) -> (r: Option<(_Expr, usize)>)
    requires
        pos <= src@.len(),
    ensures
        r matches Some((x, e)) ==> pos < e <= src@.len() && x.span == (pos, e) && expr_ok(*x, src@),
        end_of(r) == if_end(src@, pos as nat),
        r matches Some((x, _)) ==> *x.item is If,
    decreases src@.len() - pos, 0nat,
{
    let p1 = match lit(src, log, pos, &[105u8, 102], "\"if\"") {
        Some(e) => e,
        None => return None,
    };
    let p2 = skip(src, p1, true);
    let (c, p3) = match expr_at(src, log, p2, 0) {
        Some(x) => x,
        None => return None,
    };
    assert(keyword_before(src@, pos as nat, if_text(), c.span.0 as nat));
    let (b, p9) = match braced(src, log, p3) {
        Some(x) => x,
        None => return None,
    };
    let q1 = skip(src, p9, true);
    if let Some(q2) = lit(src, log, q1, &[101u8, 108, 115, 101], "\"else\"") {
        if let Some((eb, q8)) = braced(src, log, q2) {
            proof {
                lemma_wrap_self(src@, (pos, q8));
                assert(wrapped(src@, (pos, q8), (pos as nat, if_close(src@, *b, *eb))));
            }
            return Some((node(Expr::If(c, b, eb), pos, q8), q8));
        }
    }
    let sp = b.span;
    let unit = node(Expr::Unit, sp.0, sp.1);
    proof {
        lemma_wrap_self(src@, (pos, p9));
        assert(wrapped(src@, (pos, p9), (pos as nat, if_close(src@, *b, *unit))));
    }
    Some((node(Expr::If(c, b, unit), pos, p9), p9))
}

/// `{ body }` after optional blanks: the body and where the closing brace ends.
fn braced(src: &Vec<u8>, log: &mut Log, pos: usize) -> (r: Option<(_Expr, usize)>)
    requires
        pos <= src@.len(),
    ensures
        r matches Some((x, e)) ==> pos < x.span.0 && x.span.1 < e && e <= src@.len() && expr_ok(*x, src@),
        r matches Some((x, _)) ==> braced_after(src@, pos as nat, *x),
        r matches Some((x, e)) ==> tok(src@, x.span.1 as nat, true, seq![125u8]) == Some(e as nat),
        end_of(r) == braced_end(src@, pos as nat),
    decreases src@.len() - pos, 5nat,
{
    let a = skip(src, pos, true);
    let b = match lit_byte(src, log, a, 123u8, "\"{\"") {
        Some(b) => b,
        None => return None,
    };
    let c = skip(src, b, true);
    let (x, d) = body(src, log, c);
    proof {
        reveal(braced_after);
    }
    let d2 = skip(src, d, true);
    match lit_byte(src, log, d2, 125u8, "\"}\"") {
        Some(f) => Some((x, f)),
        None => None,
    }
}

/// Numbers, `()`, `true`, `false`, a parenthesized expression and identifiers.
#[verifier::spinoff_prover]
#[verifier::rlimit(100)]
fn primary(src: &Vec<u8>, log: &mut Log, pos: usize) -> (r: Option<(_Expr, usize)>)
    requires
        pos <= src@.len(),
    ensures
        r matches Some((x, e)) ==> pos < e <= src@.len() && x.span == (pos, e) && expr_ok(*x, src@),
        end_of(r) == primary_end(src@, pos as nat),
        r matches Some((x, _)) ==> !bare_op(*x) && !(*x.item is Sequence) && !(*x.item is Let) && !(*x.item is FunDec),
    decreases src@.len() - pos, 0nat,
{
    if let Some((v, e)) = number(src, log, pos) {
        let x = node(Expr::Int(v), pos, e);
        proof {
            lemma_wrap_self(src@, (pos, e));
        }
        assert(token_span(x.span, (pos, e), src@));
        return Some((x, e));
    }
    if let Some(e) = lit(src, log, pos, &[40u8, 41], "\"()\"") {
        let x = node(Expr::Unit, pos, e);
        proof {
            lemma_wrap_self(src@, (pos, e));
        }
        assert(token_span(x.span, (pos, e), src@) && slice(src@, (pos, e)) == seq![40u8, 41]);
        return Some((x, e));
    }
    if let Some(e) = lit(src, log, pos, &[116u8, 114, 117, 101], "\"true\"") {
        let x = node(Expr::Bool(true), pos, e);
        proof {
            lemma_wrap_self(src@, (pos, e));
        }
        assert(token_span(x.span, (pos, e), src@) && slice(src@, (pos, e)) == bool_text(true));
        return Some((x, e));
    }
    if let Some(e) = lit(src, log, pos, &[102u8, 97, 108, 115, 101], "\"false\"") {
        let x = node(Expr::Bool(false), pos, e);
        proof {
            lemma_wrap_self(src@, (pos, e));
        }
        assert(token_span(x.span, (pos, e), src@) && slice(src@, (pos, e)) == bool_text(false));
        return Some((x, e));
    }
    if let Some(p1) = lit_byte(src, log, pos, 40u8, "\"(\"") {
        let p2 = skip(src, p1, true);
        if let Some((x, p3)) = expr_at(src, log, p2, 0) {
            let p4 = skip(src, p3, true);
            if let Some(p5) = lit_byte(src, log, p4, 41u8, "\")\"") {
                proof {
                    assert(src@[pos as int] == slice(src@, (pos, p1))[0]);
                    lemma_widen(*x, (pos, p5), src@);
                }
                let inner = (*x).into_inner();
                return Some((node(inner, pos, p5), p5));
            }
        }
    }
    match ident(src, log, pos) {
        Some((id, e)) => {
            proof {
                lemma_wrap_self(src@, (pos, e));
            }
            Some((node(Expr::Ident(id), pos, e), e))
        },
        None => None,
    }
}

/// A body (`body`): a `let` or `fn` statement, which takes the rest of the body as its
/// continuation; or expressions separated by `;`, grouped to the left, where an empty
/// operand is unit. It never fails: nothing at all is unit.
pub fn body(src: &Vec<u8>, log: &mut Log, pos: usize) -> (r: (_Expr, usize))
    requires
        pos <= src@.len(),
    ensures
        pos <= r.1 <= src@.len(),
        r.0.span == (pos, r.1),
        expr_ok(*r.0, src@),
        r.1 == body_end(src@, pos as nat),
    decreases src@.len() - pos, 6nat,
{
    if let Some(r) = statement(src, log, pos) {
        return r;
    }
    let (mut acc, mut cur) = match expr_at(src, log, pos, 0) {
        Some(x) => x,
        None => (node(Expr::Unit, pos, pos), pos),
    };
    loop
        invariant
            pos <= cur <= src@.len(),
            acc.span == (pos, cur),
            expr_ok(*acc, src@),
            body_end(src@, pos as nat) == body_tail(src@, cur as nat),
        ensures
            pos <= cur <= src@.len(),
            acc.span == (pos, cur),
            expr_ok(*acc, src@),
            body_end(src@, pos as nat) == cur,
        decreases src@.len() - cur,
    {
        let a = skip(src, cur, true);
        let b = match lit_byte(src, log, a, 59u8, "\";\"") {
            Some(b) => b,
            None => break,
        };
        let q = skip(src, b, true);
        let (o, e) = operand(src, log, q);
        acc = node(Expr::Sequence(acc, o), pos, e);
        cur = e;
    }
    (acc, cur)
}

/// What follows a `;` in a body: a statement, an expression, or else unit.
fn operand(src: &Vec<u8>, log: &mut Log, pos: usize) -> (r: (_Expr, usize))
    requires
        pos <= src@.len(),
    ensures
        pos <= r.1 <= src@.len(),
        r.0.span == (pos, r.1),
        expr_ok(*r.0, src@),
        r.1 == operand_end(src@, pos as nat),
        !(*r.0.item is Sequence),
    decreases src@.len() - pos, 6nat,
{
    if let Some(r) = statement(src, log, pos) {
        return r;
    }
    match expr_at(src, log, pos, 0) {
        Some(x) => x,
        None => (node(Expr::Unit, pos, pos), pos),
    }
}

/// A `let` or a `fn` statement.
fn statement(src: &Vec<u8>, log: &mut Log, pos: usize) -> (r: Option<(_Expr, usize)>)
    requires
        pos <= src@.len(),
    ensures
        r matches Some((x, e)) ==> pos < e <= src@.len() && x.span == (pos, e) && expr_ok(*x, src@),
        end_of(r) == statement_end(src@, pos as nat),
        r matches Some((x, _)) ==> !(*x.item is Sequence),
    decreases src@.len() - pos, 5nat,
{
    if let Some(r) = let_stmt(src, log, pos) {
        return Some(r);
    }
    fun_stmt(src, log, pos)
}

/// Where the parts after a `let`'s name lie, read from `p`: the annotation after `:`, the
/// value after `=`, and `q` after the `;` that ends the value.
#[verifier::opaque]
spec fn value_pins(src: Seq<u8>, p: nat, ann: Option<_Type>, rhs: _Expr, q: nat) -> bool {
    &&& match ann {
        Some(t) => {
            &&& tok(src, p, false, seq![58u8]) matches Some(d) && t.span.0 as nat == skip_end(src, d, false)
            &&& tok(src, t.span.1 as nat, true, seq![61u8]) matches Some(k) && rhs.span.0 as nat == skip_end(src, k, true)
        },
        None => tok(src, p, true, seq![61u8]) matches Some(k) && rhs.span.0 as nat == skip_end(src, k, true),
    }
    &&& tok(src, rhs.span.1 as nat, false, seq![59u8]) matches Some(d) && q == skip_end(src, d, true)
}

proof fn lemma_let_end(s: Seq<u8>, pos: nat, p1: nat, p2: nat, p4: nat, q: nat)
    requires
        lit_end(s, pos, seq![108u8, 101, 116]) == Some(p1),
        spaces_end(s, p1) == Some(p2),
        ident_end(s, skip_end(s, p2, true)) == Some(p4),
        pos < p4 <= s.len(),
        let_value_end(s, p4) == Some(q),
        pos < q <= s.len(),
    ensures
        let_end(s, pos) == Some(body_end(s, q)),
{
}

/// `let x = e; rest` or `let x: t = e; rest`.
#[verifier::rlimit(100)]
fn let_stmt(src: &Vec<u8>, log: &mut Log, pos: usize) -> (r: Option<(_Expr, usize)>)
    requires
        pos <= src@.len(),
    ensures
        r matches Some((x, e)) ==> pos < e <= src@.len() && x.span == (pos, e) && expr_ok(*x, src@),
        end_of(r) == let_end(src@, pos as nat),
        r matches Some((x, _)) ==> *x.item is Let,
    decreases src@.len() - pos, 4nat,
{
    let let_text: [u8; 3] = [108u8, 101, 116];
    assert(let_text@ =~= seq![108u8, 101, 116]);
    let p1 = match lit(src, log, pos, &let_text, "\"let\"") {
        Some(e) => e,
        None => return None,
    };
    let p2 = match spaces(src, p1) {
        Some(e) => e,
        None => return None,
    };
    let p3 = skip(src, p2, true);
    let (id, p4) = match ident(src, log, p3) {
        Some(x) => x,
        None => return None,
    };
    let (ann, rhs, q) = match let_value(src, log, p4) {
        Some(x) => x,
        None => return None,
    };
    let (x, e) = let_rest(src, log, pos, id, ann, rhs, q);
    proof {
        lemma_let_end(src@, pos as nat, p1 as nat, p2 as nat, p4 as nat, q as nat);
    }
    Some((x, e))
}

/// The rest of a `let` read from `pos`, once its value is read: the body from `q` on, and the
/// node of the whole.
#[verifier::spinoff_prover]
fn let_rest(src: &Vec<u8>, log: &mut Log, pos: usize, id: _Ident, ann: Option<_Type>, rhs: _Expr, q: usize) -> (r: (_Expr, usize))
    requires
        pos + 3 <= q <= src@.len(),
        src@.subrange(pos as int, pos + 3) == seq![108u8, 101, 116],
        ident_ok(id, src@),
        ann matches Some(t) ==> type_ok(t, src@),
        expr_ok(*rhs, src@),
        id.span.1 <= rhs.span.0,
        rhs.span.1 < q,
        spaces_end(src@, (pos + 3) as nat) matches Some(p2) && id.span.0 as nat == skip_end(src@, p2, true),
        value_pins(src@, id.span.1 as nat, ann, rhs, q as nat),
    ensures
        q <= r.1 <= src@.len(),
        r.0.span == (pos, r.1),
        expr_ok(*r.0, src@),
        *r.0.item is Let,
        r.1 == body_end(src@, q as nat),
    decreases src@.len() - pos, 3nat,
{
    let (rest, e) = body(src, log, q);
    assert(opens_with((pos, e), seq![108u8, 101, 116], src@));
    (let_node(src, id, ann, rhs, rest, pos, e), e)
}

/// The node of a `let` read from `pos` to `e`.
fn let_node(src: &Vec<u8>, id: _Ident, ann: Option<_Type>, rhs: _Expr, rest: _Expr, pos: usize, e: usize) -> (r: _Expr)
    requires
        pos < e <= src@.len(),
        ident_ok(id, src@),
        ann matches Some(t) ==> type_ok(t, src@),
        expr_ok(*rhs, src@),
        expr_ok(*rest, src@),
        id.span.1 <= rhs.span.0,
        rhs.span.1 <= rest.span.0,
        opens_with((pos, e), seq![108u8, 101, 116], src@),
        rest.span.1 == e,
        spaces_end(src@, (pos + 3) as nat) matches Some(p2) && id.span.0 as nat == skip_end(src@, p2, true),
        value_pins(src@, id.span.1 as nat, ann, rhs, rest.span.0 as nat),
    ensures
        r.span == (pos, e),
        expr_ok(*r, src@),
        *r.item is Let,
{
    proof {
        reveal(value_pins);
    }
    node(Expr::Let(id, ann, rhs, rest), pos, e)
}

/// What follows the name in a `let`: `= e;` or `: t = e;`; the annotation, the value and
/// where the rest of the body starts.
fn let_value(src: &Vec<u8>, log: &mut Log, p4: usize) -> (r: Option<(Option<_Type>, _Expr, usize)>)
    requires
        p4 <= src@.len(),
    ensures
        r matches Some((ann, x, q)) ==> p4 < q <= src@.len() && expr_ok(*x, src@) && (ann matches Some(t) ==> type_ok(t, src@))
            && p4 <= x.span.0 && x.span.1 < q,
        r matches Some((ann, x, q)) ==> value_pins(src@, p4 as nat, ann, x, q as nat),
        r is Some <==> let_value_end(src@, p4 as nat) is Some,
        r matches Some((_, _, q)) ==> let_value_end(src@, p4 as nat) == Some(q as nat),
    decreases src@.len() - p4, 4nat,
{
    let mut plain: Option<(_Expr, usize)> = None;
    let a = skip(src, p4, true);
    if let Some(b) = lit_byte(src, log, a, 61u8, "\"=\"") {
        plain = assigned(src, log, b);
    }
    if let Some((rhs, q)) = plain {
        proof {
            reveal(value_pins);
        }
        return Some((None, rhs, q));
    }
    let c = skip(src, p4, false);
    let d = match lit_byte(src, log, c, 58u8, "\":\"") {
        Some(d) => d,
        None => return None,
    };
    let f = skip(src, d, false);
    let (ty, g) = match typ(src, log, f) {
        Some(x) => x,
        None => return None,
    };
    let h = skip(src, g, true);
    let k = match lit_byte(src, log, h, 61u8, "\"=\"") {
        Some(k) => k,
        None => return None,
    };
    match assigned(src, log, k) {
        Some((rhs, q)) => {
            proof {
                reveal(value_pins);
            }
            Some((Some(ty), rhs, q))
        },
        None => None,
    }
}

/// What follows `=` in a `let`: blanks, the value, `;` and blanks; the value and where the
/// rest of the body starts.
fn assigned(src: &Vec<u8>, log: &mut Log, pos: usize) -> (r: Option<(_Expr, usize)>)
    requires
        pos <= src@.len(),
    ensures
        r matches Some((x, e)) ==> pos <= x.span.0 && x.span.1 < e && e <= src@.len() && expr_ok(*x, src@),
        r matches Some((x, e)) ==> x.span.0 as nat == skip_end(src@, pos as nat, true)
            && (tok(src@, x.span.1 as nat, false, seq![59u8]) matches Some(d) && e as nat == skip_end(src@, d, true)),
        end_of(r) == assigned_end(src@, pos as nat),
    decreases src@.len() - pos, 3nat,
{
    let a = skip(src, pos, true);
    let (x, b) = match expr_at(src, log, a, 0) {
        Some(x) => x,
        None => return None,
    };
    let c = skip(src, b, false);
    let d = match lit_byte(src, log, c, 59u8, "\";\"") {
        Some(d) => d,
        None => return None,
    };
    Some((x, skip(src, d, true)))
}

/// `fn f(params) -> t { body }` or `fn f(params) { body }` (returning unit), followed by a
/// newline and the rest of the body, or by nothing (the rest is then unit).
fn fun_stmt(src: &Vec<u8>, log: &mut Log, pos: usize) -> (r: Option<(_Expr, usize)>)
    requires
        pos <= src@.len(),
    ensures
        r matches Some((x, e)) ==> pos < e <= src@.len() && x.span == (pos, e) && expr_ok(*x, src@),
        end_of(r) == fun_stmt_end(src@, pos as nat),
        r matches Some((x, _)) ==> *x.item is FunDec,
    decreases src@.len() - pos, 4nat,
{
    let (sig, end) = match fun_sig(src, log, pos) {
        Some(x) => x,
        None => return None,
    };
    let name_span = sig.name.span;
    let c1 = skip(src, end, false);
    if let Some(c2) = lit_byte(src, log, c1, 10u8, "\"\\n\"") {
        let c3 = skip(src, c2, true);
        let (rest, e) = body(src, log, c3);
        assert(opens_with((pos, e), seq![102u8, 110], src@));
        let x = node(Expr::FunDec(sig, rest), pos, e);
        assert(expr_ok(*x, src@));
        return Some((x, e));
    }
    let rest = node(Expr::Unit, name_span.0, name_span.1);
    let x = node(Expr::FunDec(sig, rest), pos, end);
    assert(expr_ok(*x, src@));
    Some((x, end))
}

/// A nested function's head, its return type (unit where none is written) and its braced
/// body: the signature and where the closing brace ends.
#[verifier::rlimit(80)]
fn fun_sig(src: &Vec<u8>, log: &mut Log, pos: usize) -> (r: Option<(FunSignature, usize)>)
    requires
        pos <= src@.len(),
    ensures
        r matches Some((sig, e)) ==> pos < e <= src@.len() && sig_ok(sig, src@, false, pos as nat),
        r matches Some((sig, e)) ==> close_of(src@, *sig.body) == e as nat,
        r matches Some((_, e)) ==> opens_with((pos, e), seq![102u8, 110], src@),
        end_of(r) == super::syntax::fun_sig_end(src@, pos as nat),
    decreases src@.len() - pos, 3nat,
{
    let (name, params, close) = match fun_head(src, log, pos, false) {
        Some(x) => x,
        None => return None,
    };
    if close >= src.len() {
        proof {
            lemma_skip_bounds(src@, close as nat, false);
            lemma_skip_bounds(src@, close as nat, true);
        }
        return None;
    }
    let (ret, b, end) = match ret_body(src, log, close, (close, close + 1)) {
        Some(x) => x,
        None => return None,
    };
    let sig = FunSignature { name, params, ret, body: b };
    assert(sig_ok(sig, src@, false, pos as nat));
    Some((sig, end))
}

/// `fn`, blanks, the name, `(`, the parameters and `)`: the name, the parameters and where
/// the `)` ends. At the top level the parameters may be preceded and followed by newlines.
fn fun_head(src: &Vec<u8>, log: &mut Log, pos: usize, top: bool) -> (r: Option<(_Ident, Tag<Vec<(_Ident, _Type)>>, usize)>)
    requires
        pos <= src@.len(),
    ensures
        r matches Some((name, params, e)) ==> pos < e && e <= src@.len() && ident_ok(name, src@) && within(params.span, src@.len())
            && params_ok(params.item@, src@) && params.span.1 < e,
        r is Some <==> fun_head_end(src@, pos as nat, top) is Some,
        r matches Some((_, _, e)) ==> fun_head_end(src@, pos as nat, top) == Some(e as nat),
        r matches Some((_, _, e)) ==> opens_with((pos, e), seq![102u8, 110], src@),
        r matches Some((name, params, e)) ==> {
            &&& spaces_end(src@, (pos + 2) as nat) == Some(name.span.0 as nat)
            &&& tok(src@, name.span.1 as nat, false, seq![40u8]) matches Some(p5) && params.span.0 as nat == skip_end(src@, p5, top)
            &&& params.span.1 as nat == param_list_end(src@, params.span.0 as nat)
            &&& pair_spans(params.item@) == param_spans(src@, params.span.0 as nat)
            &&& tok(src@, params.span.1 as nat, top, seq![41u8]) == Some(e as nat)
        },
{
    let p1 = match lit(src, log, pos, &[102u8, 110], "\"fn\"") {
        Some(e) => e,
        None => return None,
    };
    let p2 = match spaces(src, p1) {
        Some(e) => e,
        None => return None,
    };
    let (name, p3) = match ident(src, log, p2) {
        Some(x) => x,
        None => return None,
    };
    let p4 = skip(src, p3, false);
    let p5 = match lit_byte(src, log, p4, 40u8, "\"(\"") {
        Some(e) => e,
        None => return None,
    };
    let p6 = skip(src, p5, top);
    let (params, p7) = param_list(src, log, p6);
    let p8 = skip(src, p7, top);
    let p9 = match lit_byte(src, log, p8, 41u8, "\")\"") {
        Some(e) => e,
        None => return None,
    };
    Some((name, params, p9))
}

/// Parameters `x: t` separated by commas, with an optional comma after the last.
fn param_list(src: &Vec<u8>, log: &mut Log, pos: usize) -> (r: (Tag<Vec<(_Ident, _Type)>>, usize))
    requires
        pos <= src@.len(),
    ensures
        pos <= r.1 <= src@.len(),
        r.0.span == (pos, r.1),
        params_ok(r.0.item@, src@),
        r.1 == param_list_end(src@, pos as nat),
        pair_spans(r.0.item@) == param_spans(src@, pos as nat),
{
    let mut v: Vec<(_Ident, _Type)> = Vec::new();
    let mut cur = pos;
    let ghost mut last = pos as nat;
    if let Some((p, e)) = param(src, log, pos) {
        v.push(p);
        cur = e;
        proof {
            last = param_tail(src@, e as nat);
            assert(pair_spans(v@) =~= seq![(pos as nat, e as nat)]);
        }
        loop
            invariant
                pos <= cur <= src@.len(),
                params_ok(v@, src@),
                last == param_tail(src@, cur as nat),
                param_list_end(src@, pos as nat) == trailing_comma(src@, last),
                v@.len() > 0 && v@.last().1.span.1 <= cur,
                pair_spans(v@) + param_tail_spans(src@, cur as nat) == param_spans(src@, pos as nat),
            ensures
                pos <= cur <= src@.len(),
                params_ok(v@, src@),
                param_list_end(src@, pos as nat) == trailing_comma(src@, cur as nat),
                pair_spans(v@) == param_spans(src@, pos as nat),
            decreases src@.len() - cur,
        {
            let a = skip(src, cur, false);
            let b = match lit_byte(src, log, a, 44u8, "\",\"") {
                Some(b) => b,
                None => {
                    proof {
                        assert(pair_spans(v@) + Seq::<(nat, nat)>::empty() =~= pair_spans(v@));
                    }
                    break;
                },
            };
            let c = skip(src, b, true);
            match param(src, log, c) {
                Some((p, e)) => {
                    let ghost old_v = v@;
                    v.push(p);
                    proof {
                        assert(pair_spans(v@) =~= pair_spans(old_v) + seq![(c as nat, e as nat)]);
                        assert(pair_spans(old_v) + param_tail_spans(src@, cur as nat)
                            =~= pair_spans(v@) + param_tail_spans(src@, e as nat));
                    }
                    cur = e;
                },
                None => {
                    proof {
                        assert(pair_spans(v@) + Seq::<(nat, nat)>::empty() =~= pair_spans(v@));
                    }
                    break;
                },
            }
        }
    }
    let a = skip(src, cur, false);
    if let Some(b) = lit_byte(src, log, a, 44u8, "\",\"") {
        cur = b;
    }
    (Tag::new(v, (pos, cur)), cur)
}

/// A parameter `x: t`.
fn param(src: &Vec<u8>, log: &mut Log, pos: usize) -> (r: Option<((_Ident, _Type), usize)>)
    requires
        pos <= src@.len(),
    ensures
        r matches Some((p, e)) ==> pos < e <= src@.len() && ident_ok(p.0, src@) && type_ok(p.1, src@)
            && p.0.span.0 == pos && p.0.span.1 <= p.1.span.0 && p.1.span.1 == e
            && (tok(src@, p.0.span.1 as nat, false, seq![58u8]) matches Some(c) && p.1.span.0 as nat == skip_end(src@, c, false)),
        end_of(r) == param_end(src@, pos as nat),
{
    let (id, a) = match ident(src, log, pos) {
        Some(x) => x,
        None => return None,
    };
    let b = skip(src, a, false);
    let c = match lit_byte(src, log, b, 58u8, "\":\"") {
        Some(c) => c,
        None => return None,
    };
    let d = skip(src, c, false);
    match typ(src, log, d) {
        Some((t, e)) => Some(((id, t), e)),
        None => None,
    }
}

/// What follows a top-level function's `)`: `-> t` and a braced body, or a braced body alone
/// (the result type is then unit, at `dflt`): the result type, the body and where its `}` ends.
#[verifier::spinoff_prover]
fn ret_body(src: &Vec<u8>, log: &mut Log, close: usize, dflt: (usize, usize)) -> (r: Option<(_Type, _Expr, usize)>)
    requires
        close <= src@.len(),
    ensures
        match tok(src@, close as nat, false, seq![45u8, 62]) {
            Some(q2) => match typ_end(src@, skip_end(src@, q2, false)) {
                Some(q4) => close < q4 <= src@.len(),
                None => true,
            },
            None => true,
        },
        r matches Some((ret, b, e)) ==> close < e <= src@.len() && expr_ok(*b, src@)
            && close_of(src@, *b) == e as nat && tok(src@, b.span.1 as nat, true, seq![125u8]) == Some(e as nat)
            && ((tok(src@, close as nat, false, seq![45u8, 62]) matches Some(q2) && ret.span.0 as nat == skip_end(src@, q2, false)
                && type_ok(ret, src@) && braced_after(src@, ret.span.1 as nat, *b))
                || (*ret.item is Unit && ret.span == dflt && braced_after(src@, close as nat, *b))),
        (match r {
            Some((_, _, e)) => Some(e as nat),
            None => None,
        }) == first(
            match tok(src@, close as nat, false, seq![45u8, 62]) {
                Some(q2) => match typ_end(src@, skip_end(src@, q2, false)) {
                    Some(q4) => braced_end(src@, q4),
                    None => None,
                },
                None => None,
            },
            braced_end(src@, close as nat),
        ),
    decreases src@.len() - close, 6nat,
{
    let q1 = skip(src, close, false);
    if let Some(q2) = lit(src, log, q1, &[45u8, 62], "\"->\"") {
        let q3 = skip(src, q2, false);
        if let Some((ty, q4)) = typ(src, log, q3) {
            if let Some((b, q5)) = braced(src, log, q4) {
                return Some((ty, b, q5));
            }
        }
    }
    match braced(src, log, close) {
        Some((b, e)) => {
            let ret = Tag::new(Type::Unit, dflt);
            Some((ret, b, e))
        },
        None => None,
    }
}

/// A top-level function: `fn f(params) -> t { body }`, or without `-> t` (returning unit).
#[verifier::spinoff_prover]
#[verifier::rlimit(100)]
fn top(src: &Vec<u8>, log: &mut Log, pos: usize) -> (r: Option<(Tag<Top>, usize)>)
    requires
        pos <= src@.len(),
    ensures
        r matches Some((t, e)) ==> pos < e <= src@.len() && t.span == (pos, e) && within(t.span, src@.len()) && (match *t.item {
            Top::FunDec(sig) => sig_ok(sig, src@, true, pos as nat),
        }),
        end_of(r) == top_end(src@, pos as nat),
{
    let (name, params, close) = match fun_head(src, log, pos, true) {
        Some(x) => x,
        None => return None,
    };
    let (ret, b, end) = match ret_body(src, log, close, name.span) {
        Some(x) => x,
        None => return None,
    };
    let sig = FunSignature { name, params, ret, body: b };
    assert(sig_ok(sig, src@, true, pos as nat));
    Some((Tag::new(Top::FunDec(sig), (pos, end)), end))
}

/// A program: blanks, top-level functions separated by newlines or `;`, blanks, and the
/// end of the input. On failure: where parsing got furthest.
#[verifier::spinoff_prover]
pub fn tops(src: &Vec<u8>, log: &mut Log) -> (r: Option<Program>)
    ensures
        r matches Some(p) ==> p@.len() >= 1 && program_ok(p@, src@),
        r is Some <==> accepts(src@),
        r matches Some(p) ==> top_spans(p@) == program_spans(src@),
{
    let p0 = skip(src, 0, true);
    let mut v: Program = Vec::new();
    let (t, mut cur) = match top(src, log, p0) {
        Some(x) => x,
        None => return None,
    };
    v.push(t);
    proof {
        assert(top_spans(v@) =~= seq![(p0 as nat, cur as nat)]);
    }
    loop
        invariant
            cur <= src@.len(),
            v@.len() >= 1,
            program_ok(v@, src@),
            top_end(src@, skip_end(src@, 0, true)) matches Some(c) && tops_tail(src@, c) == tops_tail(src@, cur as nat),
            program_spans(src@) == top_spans(v@) + tops_spans(src@, cur as nat),
        ensures
            cur <= src@.len(),
            v@.len() >= 1,
            program_ok(v@, src@),
            top_end(src@, skip_end(src@, 0, true)) matches Some(c) && tops_tail(src@, c) == cur,
            program_spans(src@) == top_spans(v@),
        decreases src@.len() - cur,
    {
        let a = match separator(src, log, cur) {
            Some(a) => a,
            None => {
                proof {
                    assert(top_spans(v@) + Seq::<(nat, nat)>::empty() =~= top_spans(v@));
                }
                break;
            },
        };
        let b = skip(src, a, true);
        match top(src, log, b) {
            Some((t, e)) => {
                let ghost old_v = v@;
                v.push(t);
                proof {
                    assert(top_spans(v@) =~= top_spans(old_v) + seq![(b as nat, e as nat)]);
                    assert(top_spans(old_v) + tops_spans(src@, cur as nat) =~= top_spans(v@) + tops_spans(src@, e as nat));
                }
                cur = e;
            },
            None => {
                proof {
                    assert(top_spans(v@) + Seq::<(nat, nat)>::empty() =~= top_spans(v@));
                }
                break;
            },
        }
    }
    let end = skip(src, cur, true);
    if end != src.len() {
        mark(log, end, "EOF");
        return None;
    }
    Some(v)
}

} // verus!
