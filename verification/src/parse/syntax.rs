//! Which texts the grammar accepts: for each rule, tried at a position of the source, where
//! it ends, or that it fails there. Alternatives are tried in order and the first that
//! succeeds is taken; repetitions take as much as they can.
use vstd::prelude::*;

use super::scan::is_blank;
use super::spec::{digits_value, is_alpha, is_digit, is_keyword, is_word_char};

verus! {

/// The literal `t` at `pos`: where it ends.
pub open spec fn lit_end(s: Seq<u8>, pos: nat, t: Seq<u8>) -> Option<nat> {
    if pos + t.len() <= s.len() && s.subrange(pos as int, (pos + t.len()) as int) == t {
        Some(pos + t.len())
    } else {
        None
    }
}

/// The first of two alternatives that succeeds.
pub open spec fn first(a: Option<nat>, b: Option<nat>) -> Option<nat> {
    if a is Some {
        a
    } else {
        b
    }
}

/// Where a block comment whose text starts at `i` ends: just after the first `*/`.
#[verifier::opaque]
pub open spec fn block_close(s: Seq<u8>, i: nat) -> Option<nat>
    decreases s.len() - i,
{
    if i >= s.len() {
        None
    } else if lit_end(s, i, seq![42u8, 47]) is Some {
        Some(i + 2)
    } else {
        block_close(s, i + 1)
    }
}

/// A block comment `/* ... */` at `pos`.
pub open spec fn block_end(s: Seq<u8>, pos: nat) -> Option<nat> {
    if lit_end(s, pos, seq![47u8, 42]) is Some {
        block_close(s, pos + 2)
    } else {
        None
    }
}

/// Where a line comment whose text starts at `i` ends: just after its newline, or at the
/// end of the source.
#[verifier::opaque]
pub open spec fn line_close(s: Seq<u8>, i: nat) -> nat
    decreases s.len() - i,
{
    if i >= s.len() {
        i
    } else if s[i as int] == 10 {
        i + 1
    } else {
        line_close(s, i + 1)
    }
}

/// A line comment `// ...` at `pos`.
pub open spec fn line_end(s: Seq<u8>, pos: nat) -> Option<nat> {
    if lit_end(s, pos, seq![47u8, 47]) is Some {
        Some(line_close(s, pos + 2))
    } else {
        None
    }
}

/// Blanks and comments from `pos` on (newlines too where `nl`): where they end.
#[verifier::opaque]
pub open spec fn skip_end(s: Seq<u8>, pos: nat, nl: bool) -> nat
    decreases s.len() - pos,
{
    if pos < s.len() && is_blank(s[pos as int], nl) {
        skip_end(s, pos + 1, nl)
    } else {
        match block_end(s, pos) {
            Some(e) if pos < e <= s.len() => skip_end(s, e, nl),
            _ => match line_end(s, pos) {
                Some(e) if pos < e <= s.len() => skip_end(s, e, nl),
                _ => pos,
            },
        }
    }
}

/// Spaces, tabs and carriage returns from `i` on: where they end.
#[verifier::opaque]
pub open spec fn space_run(s: Seq<u8>, i: nat) -> nat
    decreases s.len() - i,
{
    if i < s.len() && is_blank(s[i as int], false) {
        space_run(s, i + 1)
    } else {
        i
    }
}

/// One or more spaces, tabs or carriage returns at `pos`.
#[verifier::opaque]
pub open spec fn spaces_end(s: Seq<u8>, pos: nat) -> Option<nat> {
    if space_run(s, pos) > pos {
        Some(space_run(s, pos))
    } else {
        None
    }
}

/// Blanks and newlines from `i` on: where they end.
#[verifier::opaque]
pub open spec fn blank_run(s: Seq<u8>, i: nat) -> nat
    decreases s.len() - i,
{
    if i < s.len() && is_blank(s[i as int], true) {
        blank_run(s, i + 1)
    } else {
        i
    }
}

/// The separator of top-level functions at `pos`: spaces, a newline or `;`, blanks.
#[verifier::opaque]
pub open spec fn separator_end(s: Seq<u8>, pos: nat) -> Option<nat> {
    let i = space_run(s, pos);
    if i < s.len() && (s[i as int] == 10 || s[i as int] == 59) {
        Some(blank_run(s, i + 1))
    } else {
        None
    }
}

/// Letters, digits and `_` from `i` on: where they end.
#[verifier::opaque]
pub open spec fn word_run(s: Seq<u8>, i: nat) -> nat
    decreases s.len() - i,
{
    if i < s.len() && is_word_char(s[i as int]) {
        word_run(s, i + 1)
    } else {
        i
    }
}

/// An identifier at `pos`: a word that is no keyword.
#[verifier::opaque]
pub open spec fn ident_end(s: Seq<u8>, pos: nat) -> Option<nat> {
    if pos < s.len() && is_alpha(s[pos as int]) && !is_keyword(s.subrange(pos as int, word_run(s, pos) as int)) {
        Some(word_run(s, pos))
    } else {
        None
    }
}

/// Digits from `i` on: where they end.
#[verifier::opaque]
pub open spec fn digit_run(s: Seq<u8>, i: nat) -> nat
    decreases s.len() - i,
{
    if i < s.len() && is_digit(s[i as int]) {
        digit_run(s, i + 1)
    } else {
        i
    }
}

/// A number at `pos`: digits whose value is a value of `i64`.
#[verifier::opaque]
pub open spec fn number_end(s: Seq<u8>, pos: nat) -> Option<nat> {
    let i = digit_run(s, pos);
    if i > pos && digits_value(s.subrange(pos as int, i as int)) <= i64::MAX {
        Some(i)
    } else {
        None
    }
}

/// A comma after optional blanks, if there is one: where it ends, else `cur`.
pub open spec fn trailing_comma(s: Seq<u8>, cur: nat) -> nat {
    match lit_end(s, skip_end(s, cur, false), seq![44u8]) {
        Some(b) => b,
        None => cur,
    }
}

/// The end of an optional result, as a position.
pub open spec fn end_of<T>(r: Option<(T, usize)>) -> Option<nat> {
    match r {
        Some((_, e)) => Some(e as nat),
        None => None,
    }
}

/// An optional position as a number.
pub open spec fn opt_nat(r: Option<usize>) -> Option<nat> {
    match r {
        Some(e) => Some(e as nat),
        None => None,
    }
}

/// The literal `t` after optional blanks from `p` (newlines too where `nl`).
pub open spec fn tok(s: Seq<u8>, p: nat, nl: bool, t: Seq<u8>) -> Option<nat> {
    lit_end(s, skip_end(s, p, nl), t)
}

/// Skipping never goes back, and stays inside the source.
pub proof fn lemma_skip_bounds(s: Seq<u8>, p: nat, nl: bool)
    ensures
        p <= skip_end(s, p, nl),
        p <= s.len() ==> skip_end(s, p, nl) <= s.len(),
        p >= s.len() ==> skip_end(s, p, nl) == p,
    decreases s.len() - p,
{
    reveal(skip_end);
    if p < s.len() && is_blank(s[p as int], nl) {
        lemma_skip_bounds(s, p + 1, nl);
    } else {
        match block_end(s, p) {
            Some(e) if p < e <= s.len() => lemma_skip_bounds(s, e, nl),
            _ => match line_end(s, p) {
                Some(e) if p < e <= s.len() => lemma_skip_bounds(s, e, nl),
                _ => {},
            },
        }
    }
}

/// A token found after `p` ends after `p`, inside the source.
pub proof fn lemma_tok(s: Seq<u8>, p: nat, nl: bool, t: Seq<u8>)
    requires
        t.len() > 0,
    ensures
        tok(s, p, nl, t) matches Some(e) ==> p < e <= s.len(),
{
    lemma_skip_bounds(s, p, nl);
}

/// A type (`typ`).
pub open spec fn typ_end(s: Seq<u8>, pos: nat) -> Option<nat>
    decreases s.len() - pos, 0nat,
{
    let unit = lit_end(s, pos, seq![40u8, 41]);
    let integer = lit_end(s, pos, seq![105u8, 54, 52]);
    let boolean = lit_end(s, pos, seq![98u8, 111, 111, 108]);
    if unit is Some {
        unit
    } else if integer is Some {
        integer
    } else if boolean is Some {
        boolean
    } else {
        match lit_end(s, pos, seq![102u8, 110]) {
            None => None,
            Some(p1) => match tok(s, p1, false, seq![40u8]) {
                None => None,
                Some(p3) => {
                    proof {
                        lemma_tok(s, p1, false, seq![40u8]);
                        lemma_skip_bounds(s, p3, false);
                    }
                    match tok(s, type_list_end(s, skip_end(s, p3, false)), false, seq![41u8]) {
                        None => None,
                        Some(close) => match tok(s, close, false, seq![45u8, 62]) {
                            Some(q2) if pos < skip_end(s, q2, false) <= s.len() => match typ_end(s, skip_end(s, q2, false)) {
                                Some(e) => Some(e),
                                None => Some(close),
                            },
                            _ => Some(close),
                        },
                    }
                },
            },
        }
    }
}

/// Types separated by commas, with an optional comma after the last (never fails).
pub open spec fn type_list_end(s: Seq<u8>, pos: nat) -> nat
    decreases s.len() - pos, 1nat,
{
    match typ_end(s, pos) {
        Some(e) if pos < e <= s.len() => trailing_comma(s, type_tail(s, e)),
        _ => trailing_comma(s, pos),
    }
}

/// More types, each after a comma, from `cur` on.
pub open spec fn type_tail(s: Seq<u8>, cur: nat) -> nat
    decreases s.len() - cur, 2nat,
{
    match tok(s, cur, false, seq![44u8]) {
        None => cur,
        Some(b) => {
            proof {
                lemma_tok(s, cur, false, seq![44u8]);
                lemma_skip_bounds(s, b, true);
            }
            match typ_end(s, skip_end(s, b, true)) {
                Some(e) if cur < e <= s.len() => type_tail(s, e),
                _ => cur,
            }
        },
    }
}

/// Where each type of a list lies: the spans of the types that `type_list_end` reads from
/// `pos`, in order.
pub open spec fn type_list_spans(s: Seq<u8>, pos: nat) -> Seq<(nat, nat)> {
    match typ_end(s, pos) {
        Some(e) if pos < e <= s.len() => seq![(pos, e)] + type_tail_spans(s, e),
        _ => Seq::empty(),
    }
}

/// The spans of the further types, each after a comma, from `cur` on.
pub open spec fn type_tail_spans(s: Seq<u8>, cur: nat) -> Seq<(nat, nat)>
    decreases s.len() - cur,
{
    match tok(s, cur, false, seq![44u8]) {
        None => Seq::empty(),
        Some(b) => match typ_end(s, skip_end(s, b, true)) {
            Some(e) if cur < e <= s.len() => seq![(skip_end(s, b, true), e)] + type_tail_spans(s, e),
            _ => Seq::empty(),
        },
    }
}

/// An infix operator `t` at `ws` and its right operand, of the level after `level`.
pub open spec fn try_op_end(s: Seq<u8>, ws: nat, level: nat, t: Seq<u8>) -> Option<nat>
    decreases s.len() - ws, 0nat,
{
    match lit_end(s, ws, t) {
        Some(oe) if ws < oe <= s.len() => {
            proof {
                lemma_skip_bounds(s, oe, true);
            }
            expr_at_end(s, skip_end(s, oe, true), level + 1)
        },
        _ => None,
    }
}

/// The first infix operator at `ws`, of a level at least `min`, whose right operand parses.
pub open spec fn binop_step_end(s: Seq<u8>, ws: nat, min: nat) -> Option<nat>
    decreases s.len() - ws, 1nat,
{
    let equality = if min <= 2 {
        first(try_op_end(s, ws, 2, seq![61u8, 61]), try_op_end(s, ws, 2, seq![33u8, 61]))
    } else {
        None
    };
    let comparison = if min <= 3 {
        first(
            try_op_end(s, ws, 3, seq![62u8]),
            first(
                try_op_end(s, ws, 3, seq![62u8, 61]),
                first(try_op_end(s, ws, 3, seq![60u8]), try_op_end(s, ws, 3, seq![60u8, 61])),
            ),
        )
    } else {
        None
    };
    let sum = if min <= 4 {
        first(try_op_end(s, ws, 4, seq![43u8]), try_op_end(s, ws, 4, seq![45u8]))
    } else {
        None
    };
    let product = if min <= 5 {
        first(try_op_end(s, ws, 5, seq![42u8]), try_op_end(s, ws, 5, seq![47u8]))
    } else {
        None
    };
    first(equality, first(comparison, first(sum, product)))
}

/// An expression whose operators are of level `min` or above.
pub open spec fn expr_at_end(s: Seq<u8>, pos: nat, min: nat) -> Option<nat>
    decreases s.len() - pos, 3nat,
{
    match atom_end(s, pos) {
        Some(a) if pos < a <= s.len() => Some(expr_tail(s, a, min)),
        _ => None,
    }
}

/// Infix operators with their right operands, and call arguments, after an operand that
/// ends at `cur`.
pub open spec fn expr_tail(s: Seq<u8>, cur: nat, min: nat) -> nat
    decreases s.len() - cur, 4nat,
{
    proof {
        lemma_skip_bounds(s, cur, true);
    }
    match binop_step_end(s, skip_end(s, cur, true), min) {
        Some(e) if cur < e <= s.len() => expr_tail(s, e, min),
        _ => if min > 6 {
            cur
        } else {
            match tok(s, cur, false, seq![40u8]) {
                None => cur,
                Some(b) => {
                    proof {
                        lemma_tok(s, cur, false, seq![40u8]);
                        lemma_skip_bounds(s, b, true);
                    }
                    match tok(s, expr_list_end(s, skip_end(s, b, true)), true, seq![41u8]) {
                        Some(f) if cur < f <= s.len() => expr_tail(s, f, min),
                        _ => cur,
                    }
                },
            }
        },
    }
}

/// Call arguments: expressions separated by commas, with an optional comma after the last
/// (never fails).
pub open spec fn expr_list_end(s: Seq<u8>, pos: nat) -> nat
    decreases s.len() - pos, 4nat,
{
    match expr_at_end(s, pos, 0) {
        Some(e) if pos < e <= s.len() => trailing_comma(s, expr_list_tail(s, e)),
        _ => trailing_comma(s, pos),
    }
}

/// More arguments, each after a comma, from `cur` on.
pub open spec fn expr_list_tail(s: Seq<u8>, cur: nat) -> nat
    decreases s.len() - cur, 0nat,
{
    match tok(s, cur, false, seq![44u8]) {
        None => cur,
        Some(b) => {
            proof {
                lemma_tok(s, cur, false, seq![44u8]);
                lemma_skip_bounds(s, b, true);
            }
            match expr_at_end(s, skip_end(s, b, true), 0) {
                Some(e) if cur < e <= s.len() => expr_list_tail(s, e),
                _ => cur,
            }
        },
    }
}

/// Where each call argument lies: the spans of the arguments that `expr_list_end` reads from
/// `pos`, in order.
pub open spec fn expr_list_spans(s: Seq<u8>, pos: nat) -> Seq<(nat, nat)> {
    match expr_at_end(s, pos, 0) {
        Some(e) if pos < e <= s.len() => seq![(pos, e)] + expr_list_tail_spans(s, e),
        _ => Seq::empty(),
    }
}

/// The spans of the further arguments, each after a comma, from `cur` on.
pub open spec fn expr_list_tail_spans(s: Seq<u8>, cur: nat) -> Seq<(nat, nat)>
    decreases s.len() - cur,
{
    match tok(s, cur, false, seq![44u8]) {
        None => Seq::empty(),
        Some(b) => match expr_at_end(s, skip_end(s, b, true), 0) {
            Some(e) if cur < e <= s.len() => seq![(skip_end(s, b, true), e)] + expr_list_tail_spans(s, e),
            _ => Seq::empty(),
        },
    }
}

/// The printing form `println!("{}", e)`.
pub open spec fn print_end(s: Seq<u8>, pos: nat) -> Option<nat>
    decreases s.len() - pos, 0nat,
{
    match lit_end(s, pos, seq![112u8, 114, 105, 110, 116, 108, 110, 33, 40, 34, 123, 125, 34, 44]) {
        Some(p1) if pos < p1 <= s.len() => {
            proof {
                lemma_skip_bounds(s, p1, true);
            }
            match expr_at_end(s, skip_end(s, p1, true), 0) {
                Some(p3) => tok(s, p3, true, seq![41u8]),
                None => None,
            }
        },
        _ => None,
    }
}

/// `if c { .. } else { .. }`, or `if c { .. }`.
pub open spec fn if_end(s: Seq<u8>, pos: nat) -> Option<nat>
    decreases s.len() - pos, 0nat,
{
    match lit_end(s, pos, seq![105u8, 102]) {
        Some(p1) if pos < p1 <= s.len() => {
            proof {
                lemma_skip_bounds(s, p1, true);
            }
            match expr_at_end(s, skip_end(s, p1, true), 0) {
                Some(p3) if pos < p3 <= s.len() => match braced_end(s, p3) {
                    Some(p9) if pos < p9 <= s.len() => match tok(s, p9, true, seq![101u8, 108, 115, 101]) {
                        Some(q2) if pos < q2 <= s.len() => match braced_end(s, q2) {
                            Some(q8) => Some(q8),
                            None => Some(p9),
                        },
                        _ => Some(p9),
                    },
                    _ => None,
                },
                _ => None,
            }
        },
        _ => None,
    }
}

/// `{ body }` after optional blanks.
pub open spec fn braced_end(s: Seq<u8>, pos: nat) -> Option<nat>
    decreases s.len() - pos, 0nat,
{
    match tok(s, pos, true, seq![123u8]) {
        Some(b) => {
            proof {
                lemma_tok(s, pos, true, seq![123u8]);
                lemma_skip_bounds(s, b, true);
            }
            tok(s, body_end(s, skip_end(s, b, true)), true, seq![125u8])
        },
        None => None,
    }
}

/// A parenthesized expression.
pub open spec fn paren_end(s: Seq<u8>, pos: nat) -> Option<nat>
    decreases s.len() - pos, 0nat,
{
    match lit_end(s, pos, seq![40u8]) {
        Some(p1) if pos < p1 <= s.len() => {
            proof {
                lemma_skip_bounds(s, p1, true);
            }
            match expr_at_end(s, skip_end(s, p1, true), 0) {
                Some(p3) => tok(s, p3, true, seq![41u8]),
                None => None,
            }
        },
        _ => None,
    }
}

/// Numbers, `()`, `true`, `false`, a parenthesized expression and identifiers.
pub open spec fn primary_end(s: Seq<u8>, pos: nat) -> Option<nat>
    decreases s.len() - pos, 1nat,
{
    first(
        number_end(s, pos),
        first(
            lit_end(s, pos, seq![40u8, 41]),
            first(
                lit_end(s, pos, seq![116u8, 114, 117, 101]),
                first(lit_end(s, pos, seq![102u8, 97, 108, 115, 101]), first(paren_end(s, pos), ident_end(s, pos))),
            ),
        ),
    )
}

/// `if`, printing, and the primary expressions.
pub open spec fn atom_end(s: Seq<u8>, pos: nat) -> Option<nat>
    decreases s.len() - pos, 2nat,
{
    first(if_end(s, pos), first(print_end(s, pos), primary_end(s, pos)))
}

/// A body (never fails): a statement, or expressions separated by `;`.
pub open spec fn body_end(s: Seq<u8>, pos: nat) -> nat
    decreases s.len() - pos, 7nat,
{
    match statement_end(s, pos) {
        Some(e) => e,
        None => match expr_at_end(s, pos, 0) {
            Some(e) if pos < e <= s.len() => body_tail(s, e),
            _ => body_tail(s, pos),
        },
    }
}

/// More operands of a body, each after a `;`, from `cur` on.
pub open spec fn body_tail(s: Seq<u8>, cur: nat) -> nat
    decreases s.len() - cur, 5nat,
{
    match tok(s, cur, true, seq![59u8]) {
        None => cur,
        Some(b) => {
            proof {
                lemma_tok(s, cur, true, seq![59u8]);
                lemma_skip_bounds(s, b, true);
            }
            let e = operand_end(s, skip_end(s, b, true));
            if cur < e <= s.len() {
                body_tail(s, e)
            } else {
                cur
            }
        },
    }
}

/// What follows a `;` in a body (never fails): a statement, an expression, or nothing.
pub open spec fn operand_end(s: Seq<u8>, pos: nat) -> nat
    decreases s.len() - pos, 7nat,
{
    match statement_end(s, pos) {
        Some(e) => e,
        None => match expr_at_end(s, pos, 0) {
            Some(e) => e,
            None => pos,
        },
    }
}

/// A `let` or a `fn` statement.
pub open spec fn statement_end(s: Seq<u8>, pos: nat) -> Option<nat>
    decreases s.len() - pos, 6nat,
{
    first(let_end(s, pos), fun_stmt_end(s, pos))
}

/// `let x = e; rest` or `let x: t = e; rest`.
pub open spec fn let_end(s: Seq<u8>, pos: nat) -> Option<nat>
    decreases s.len() - pos, 5nat,
{
    match lit_end(s, pos, seq![108u8, 101, 116]) {
        Some(p1) => match spaces_end(s, p1) {
            Some(p2) => match ident_end(s, skip_end(s, p2, true)) {
                Some(p4) if pos < p4 <= s.len() => match let_value_end(s, p4) {
                    Some(q) if pos < q <= s.len() => Some(body_end(s, q)),
                    _ => None,
                },
                _ => None,
            },
            None => None,
        },
        None => None,
    }
}

/// What follows the name in a `let`: `= e;` or `: t = e;`, and blanks.
pub open spec fn let_value_end(s: Seq<u8>, p4: nat) -> Option<nat>
    decreases s.len() - p4, 0nat,
{
    let plain = match tok(s, p4, true, seq![61u8]) {
        Some(b) if p4 < b <= s.len() => assigned_end(s, b),
        _ => None,
    };
    match plain {
        Some(q) => Some(q),
        None => match tok(s, p4, false, seq![58u8]) {
            Some(d) => match typ_end(s, skip_end(s, d, false)) {
                Some(g) => match tok(s, g, true, seq![61u8]) {
                    Some(k) if p4 < k <= s.len() => assigned_end(s, k),
                    _ => None,
                },
                None => None,
            },
            None => None,
        },
    }
}

/// What follows `=` in a `let`: the value, `;` and blanks.
pub open spec fn assigned_end(s: Seq<u8>, pos: nat) -> Option<nat>
    decreases s.len() - pos, 4nat,
{
    proof {
        lemma_skip_bounds(s, pos, true);
    }
    match expr_at_end(s, skip_end(s, pos, true), 0) {
        Some(b) => match tok(s, b, false, seq![59u8]) {
            Some(d) => Some(skip_end(s, d, true)),
            None => None,
        },
        None => None,
    }
}

/// A nested function, followed by a newline and the rest of the body, or by nothing.
pub open spec fn fun_stmt_end(s: Seq<u8>, pos: nat) -> Option<nat>
    decreases s.len() - pos, 5nat,
{
    match fun_sig_end(s, pos) {
        Some(e) => match tok(s, e, false, seq![10u8]) {
            Some(c2) if pos < c2 <= s.len() => {
                proof {
                    lemma_skip_bounds(s, c2, true);
                }
                Some(body_end(s, skip_end(s, c2, true)))
            },
            _ => Some(e),
        },
        None => None,
    }
}

/// A nested function's head, return type and braced body.
pub open spec fn fun_sig_end(s: Seq<u8>, pos: nat) -> Option<nat>
    decreases s.len() - pos, 4nat,
{
    match fun_head_end(s, pos, false) {
        Some(close) if pos < close <= s.len() => {
            let with_ret = match tok(s, close, false, seq![45u8, 62]) {
                Some(q2) => match typ_end(s, skip_end(s, q2, false)) {
                    Some(q4) if pos < q4 <= s.len() => braced_end(s, q4),
                    _ => None,
                },
                None => None,
            };
            first(with_ret, braced_end(s, close))
        },
        _ => None,
    }
}

/// `fn`, the name, `(`, the parameters and `)` (newlines allowed around the parameters
/// where `top`).
pub open spec fn fun_head_end(s: Seq<u8>, pos: nat, top: bool) -> Option<nat> {
    match lit_end(s, pos, seq![102u8, 110]) {
        Some(p1) => match spaces_end(s, p1) {
            Some(p2) => match ident_end(s, p2) {
                Some(p3) => match tok(s, p3, false, seq![40u8]) {
                    Some(p5) => tok(s, param_list_end(s, skip_end(s, p5, top)), top, seq![41u8]),
                    None => None,
                },
                None => None,
            },
            None => None,
        },
        None => None,
    }
}

/// A parameter `x: t`.
pub open spec fn param_end(s: Seq<u8>, pos: nat) -> Option<nat> {
    match ident_end(s, pos) {
        Some(a) => match tok(s, a, false, seq![58u8]) {
            Some(c) => typ_end(s, skip_end(s, c, false)),
            None => None,
        },
        None => None,
    }
}

/// Parameters separated by commas, with an optional comma after the last (never fails).
pub open spec fn param_list_end(s: Seq<u8>, pos: nat) -> nat {
    match param_end(s, pos) {
        Some(e) if pos < e <= s.len() => trailing_comma(s, param_tail(s, e)),
        _ => trailing_comma(s, pos),
    }
}

/// More parameters, each after a comma, from `cur` on.
pub open spec fn param_tail(s: Seq<u8>, cur: nat) -> nat
    decreases s.len() - cur,
{
    match tok(s, cur, false, seq![44u8]) {
        None => cur,
        Some(b) => match param_end(s, skip_end(s, b, true)) {
            Some(e) if cur < e <= s.len() => param_tail(s, e),
            _ => cur,
        },
    }
}

/// Where each parameter lies: the spans (name to type) of the parameters that
/// `param_list_end` reads from `pos`, in order.
pub open spec fn param_spans(s: Seq<u8>, pos: nat) -> Seq<(nat, nat)> {
    match param_end(s, pos) {
        Some(e) if pos < e <= s.len() => seq![(pos, e)] + param_tail_spans(s, e),
        _ => Seq::empty(),
    }
}

/// The spans of the further parameters, each after a comma, from `cur` on.
pub open spec fn param_tail_spans(s: Seq<u8>, cur: nat) -> Seq<(nat, nat)>
    decreases s.len() - cur,
{
    match tok(s, cur, false, seq![44u8]) {
        None => Seq::empty(),
        Some(b) => match param_end(s, skip_end(s, b, true)) {
            Some(e) if cur < e <= s.len() => seq![(skip_end(s, b, true), e)] + param_tail_spans(s, e),
            _ => Seq::empty(),
        },
    }
}

/// A top-level function.
pub open spec fn top_end(s: Seq<u8>, pos: nat) -> Option<nat> {
    match fun_head_end(s, pos, true) {
        Some(close) => {
            let with_ret = match tok(s, close, false, seq![45u8, 62]) {
                Some(q2) => match typ_end(s, skip_end(s, q2, false)) {
                    Some(q4) => braced_end(s, q4),
                    None => None,
                },
                None => None,
            };
            first(with_ret, braced_end(s, close))
        },
        None => None,
    }
}

/// More top-level functions, each after a separator, from `cur` on.
pub open spec fn tops_tail(s: Seq<u8>, cur: nat) -> nat
    decreases s.len() - cur,
{
    match separator_end(s, cur) {
        None => cur,
        Some(a) => match top_end(s, skip_end(s, a, true)) {
            Some(e) if cur < e <= s.len() => tops_tail(s, e),
            _ => cur,
        },
    }
}

/// Where the grammar reads the top-level functions after one that ends at `cur`: from the
/// first byte of each to its end.
pub open spec fn tops_spans(s: Seq<u8>, cur: nat) -> Seq<(nat, nat)>
    decreases s.len() - cur,
{
    match separator_end(s, cur) {
        None => Seq::empty(),
        Some(a) => match top_end(s, skip_end(s, a, true)) {
            Some(e) if cur < e <= s.len() => seq![(skip_end(s, a, true), e)] + tops_spans(s, e),
            _ => Seq::empty(),
        },
    }
}

/// Where the grammar reads the top-level functions of a source, in order.
pub open spec fn program_spans(s: Seq<u8>) -> Seq<(nat, nat)> {
    match top_end(s, skip_end(s, 0, true)) {
        Some(c) => seq![(skip_end(s, 0, true), c)] + tops_spans(s, c),
        None => Seq::empty(),
    }
}

/// Whether the grammar accepts a source: blanks, top-level functions separated by newlines
/// or `;`, blanks, and the end of the input.
pub open spec fn accepts(s: Seq<u8>) -> bool {
    match top_end(s, skip_end(s, 0, true)) {
        Some(c) => skip_end(s, tops_tail(s, c), true) == s.len(),
        None => false,
    }
}

} // verus!
