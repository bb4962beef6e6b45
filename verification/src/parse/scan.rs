//! Reading tokens from the bytes of the source: blanks and comments, literal words,
//! identifiers and numbers, and the record of what was expected where parsing failed.
use vstd::prelude::*;

use super::spec::{chars_of, digits_value, is_alpha, is_digit, is_keyword, is_number, is_word, is_word_char, slice};
use super::syntax::{
    block_close, block_end, blank_run, digit_run, end_of, ident_end, line_close, line_end, lit_end, number_end, opt_nat,
    separator_end, skip_end, space_run, spaces_end, word_run,
};
use crate::ast::Tag;
use crate::text::push_char;

verus! {

/// The furthest position at which a token was expected and not found, and the tokens
/// expected there.
pub struct Log {
    pub far: usize,
    pub expected: Vec<String>,
}

impl Log {
    pub fn new() -> (r: Self)
        ensures
            r.far == 0,
    {
        Log { far: 0, expected: Vec::new() }
    }
}

/// The texts of a list of strings.
pub open spec fn names_of(v: Seq<String>) -> Seq<Seq<char>> {
    v.map_values(|x: String| x@)
}

/// Records that `what` was expected at `pos`: a position further than any before starts a
/// new record with `what` alone; at the furthest position `what` is added unless it is
/// there already; an earlier position changes nothing.
pub fn mark(log: &mut Log, pos: usize, what: &str)
    ensures
        final(log).far >= old(log).far,
        final(log).far == old(log).far || final(log).far == pos,
        pos > old(log).far ==> final(log).far == pos && names_of(final(log).expected@) == seq![what@],
        pos == old(log).far ==> final(log).far == pos && names_of(final(log).expected@) == (if names_of(
            old(log).expected@,
        ).contains(what@) {
            names_of(old(log).expected@)
        } else {
            names_of(old(log).expected@).push(what@)
        }),
        pos < old(log).far ==> final(log).far == old(log).far && final(log).expected@ == old(log).expected@,
{
    if pos > log.far {
        log.far = pos;
        log.expected = Vec::new();
        log.expected.push(String::from_str(what));
        assert(names_of(log.expected@) =~= seq![what@]);
    } else if pos == log.far {
        let w = String::from_str(what);
        let mut i: usize = 0;
        let mut seen = false;
        let ghost ns = names_of(log.expected@);
        while i < log.expected.len()
            invariant
                i <= log.expected@.len(),
                ns == names_of(log.expected@),
                w@ == what@,
                seen <==> exists|j: int| 0 <= j < i && ns[j] == w@,
            decreases log.expected.len() - i,
        {
            assert(ns[i as int] == log.expected@[i as int]@);
            if log.expected[i] == w {
                seen = true;
            }
            proof {
                if seen {
                    if ns[i as int] == w@ {
                        assert(0 <= i < i + 1 && ns[i as int] == w@);
                    }
                } else {
                    assert forall|j: int| 0 <= j < i + 1 implies ns[j] != w@ by {}
                }
            }
            i = i + 1;
        }
        proof {
            if ns.contains(w@) {
                let j = choose|j: int| 0 <= j < ns.len() && ns[j] == w@;
                assert(ns[j] == w@);
            }
        }
        if !seen {
            log.expected.push(w);
            assert(names_of(log.expected@) =~= ns.push(what@));
        }
    }
}

/// `x` sorts before `y` byte by byte, from the `i`-th byte on, both being equal before it;
/// a proper prefix sorts first.
pub open spec fn bytes_before_from(x: Seq<u8>, y: Seq<u8>, i: nat) -> bool
    decreases x.len() - i,
{
    if i >= x.len() || i >= y.len() {
        x.len() < y.len()
    } else if x[i as int] != y[i as int] {
        x[i as int] < y[i as int]
    } else {
        bytes_before_from(x, y, i + 1)
    }
}

/// The text `a` sorts before `b`, comparing their UTF-8 bytes.
pub open spec fn text_before(a: Seq<char>, b: Seq<char>) -> bool {
    bytes_before_from(vstd::utf8::encode_utf8(a), vstd::utf8::encode_utf8(b), 0)
}

/// Whether `a` sorts before `b`, byte by byte.
fn before(a: &String, b: &String) -> (r: bool)
    ensures
        r == text_before(a@, b@),
{
    let x = a.as_str().as_bytes();
    let y = b.as_str().as_bytes();
    let mut i: usize = 0;
    while i < x.len() && i < y.len()
        invariant
            i <= x@.len(),
            text_before(a@, b@) == bytes_before_from(x@, y@, i as nat),
        decreases x.len() - i,
    {
        if x[i] != y[i] {
            return x[i] < y[i];
        }
        i = i + 1;
    }
    x.len() < y.len()
}

/// A text put into a sorted list: before the first entry it sorts before, else at the end.
pub open spec fn insert_sorted(s: Seq<Seq<char>>, w: Seq<char>) -> Seq<Seq<char>>
    decreases s.len(),
{
    if s.len() == 0 {
        seq![w]
    } else if text_before(w, s[0]) {
        seq![w] + s
    } else {
        seq![s[0]] + insert_sorted(s.drop_first(), w)
    }
}

/// Texts sorted by putting each, in turn, into the sorted list of those before it.
pub open spec fn sort_texts(ws: Seq<Seq<char>>) -> Seq<Seq<char>>
    decreases ws.len(),
{
    if ws.len() == 0 {
        Seq::empty()
    } else {
        insert_sorted(sort_texts(ws.drop_last()), ws.last())
    }
}

/// Texts separated by `, `.
pub open spec fn comma_list(s: Seq<Seq<char>>) -> Seq<char>
    decreases s.len(),
{
    if s.len() == 0 {
        Seq::empty()
    } else if s.len() == 1 {
        s[0]
    } else {
        comma_list(s.drop_last()) + ", "@ + s.last()
    }
}

/// How the error names what was expected: nothing reported, the one token, or `one of` and
/// the tokens sorted, separated by commas.
pub open spec fn expected_msg(ws: Seq<Seq<char>>) -> Seq<char> {
    let s = sort_texts(ws);
    if s.len() == 0 {
        "<unreported>"@
    } else if s.len() == 1 {
        s[0]
    } else {
        "one of "@ + comma_list(s)
    }
}

/// Putting a text at the first place where it sorts before the entry there (or at the end)
/// is what `insert_sorted` does.
proof fn lemma_insert_at(s: Seq<Seq<char>>, w: Seq<char>, j: int)
    requires
        0 <= j <= s.len(),
        forall|k: int| 0 <= k < j ==> !text_before(w, #[trigger] s[k]),
        j < s.len() ==> text_before(w, s[j]),
    ensures
        insert_sorted(s, w) == s.insert(j, w),
    decreases s.len(),
{
    if s.len() == 0 {
        assert(s.insert(j, w) =~= seq![w]);
    } else if j == 0 {
        assert(s.insert(0, w) =~= seq![w] + s);
    } else {
        let t = s.drop_first();
        assert forall|k: int| 0 <= k < j - 1 implies !text_before(w, #[trigger] t[k]) by {
            assert(t[k] == s[k + 1]);
        }
        if j - 1 < t.len() {
            assert(t[j - 1] == s[j]);
        }
        lemma_insert_at(t, w, j - 1);
        assert(s.insert(j, w) =~= seq![s[0]] + t.insert(j - 1, w));
    }
}

/// What was expected, as the error text names it: the one token, or `one of` and the
/// tokens in order, separated by commas.
pub(crate) fn expected_text(log: &Log) -> (r: String)
    ensures
        r@ == expected_msg(names_of(log.expected@)),
{
    let ghost ws = names_of(log.expected@);
    let mut sorted: Vec<String> = Vec::new();
    let mut i: usize = 0;
    proof {
        assert(ws.take(0) =~= Seq::<Seq<char>>::empty());
        assert(names_of(sorted@) =~= Seq::<Seq<char>>::empty());
    }
    while i < log.expected.len()
        invariant
            i <= log.expected@.len(),
            ws == names_of(log.expected@),
            names_of(sorted@) == sort_texts(ws.take(i as int)),
        decreases log.expected.len() - i,
    {
        let w = log.expected[i].clone();
        let ghost ns = names_of(sorted@);
        let mut j: usize = 0;
        while j < sorted.len() && !before(&w, &sorted[j])
            invariant
                j <= sorted@.len(),
                ns == names_of(sorted@),
                forall|k: int| 0 <= k < j ==> !text_before(w@, #[trigger] ns[k]),
            decreases sorted.len() - j,
        {
            j = j + 1;
        }
        proof {
            lemma_insert_at(ns, w@, j as int);
            assert(ws.take(i + 1).drop_last() =~= ws.take(i as int));
            assert(ws.take(i + 1).last() == w@);
        }
        sorted.insert(j, w);
        proof {
            assert(names_of(sorted@) =~= ns.insert(j as int, w@));
        }
        i = i + 1;
    }
    proof {
        assert(ws.take(log.expected@.len() as int) =~= ws);
    }
    let ghost ss = names_of(sorted@);
    let mut out = String::new();
    if sorted.len() == 0 {
        out.append("<unreported>");
    } else if sorted.len() == 1 {
        out.append(sorted[0].as_str());
    } else {
        out.append("one of ");
        let mut k: usize = 0;
        while k < sorted.len()
            invariant
                k <= sorted@.len(),
                sorted@.len() > 1,
                ss == names_of(sorted@),
                k == 0 ==> out@ == "one of "@,
                k > 0 ==> out@ == "one of "@ + comma_list(ss.take(k as int)),
            decreases sorted.len() - k,
        {
            if k > 0 {
                out.append(", ");
            }
            out.append(sorted[k].as_str());
            proof {
                if k == 0 {
                    assert(ss.take(1) =~= seq![ss[0]]);
                } else {
                    assert(ss.take(k + 1).drop_last() =~= ss.take(k as int));
                    assert(ss.take(k + 1).last() == ss[k as int]);
                }
            }
            k = k + 1;
        }
        proof {
            assert(ss.take(sorted@.len() as int) =~= ss);
        }
    }
    out
}

/// A blank that `_` skips: space, tab or carriage return (and newline where `newlines`).
pub open spec fn is_blank(b: u8, newlines: bool) -> bool {
    b == 32 || b == 9 || b == 13 || (newlines && b == 10)
}

/// Whether the source holds the bytes `t` at `pos`.
pub fn starts(src: &Vec<u8>, pos: usize, t: &[u8]) -> (r: bool)
    requires
        pos <= src@.len(),
    ensures
        r <==> pos + t@.len() <= src@.len() && src@.subrange(pos as int, pos + t@.len()) == t@,
{
    let n = src.len();
    if t.len() > n - pos {
        return false;
    }
    let mut i: usize = 0;
    while i < t.len()
        invariant
            n == src@.len(),
            pos + t@.len() <= src@.len(),
            i <= t@.len(),
            forall|j: int| 0 <= j < i ==> src@[pos + j] == t@[j],
        decreases t@.len() - i,
    {
        if src[pos + i] != t[i] {
            proof {
                assert(src@.subrange(pos as int, pos + t@.len())[i as int] != t@[i as int]);
            }
            return false;
        }
        i = i + 1;
    }
    assert(src@.subrange(pos as int, pos + t@.len()) =~= t@);
    true
}

/// A literal token: its end where the source holds `t` at `pos`; otherwise `name` is
/// recorded as expected at `pos`.
pub fn lit(src: &Vec<u8>, log: &mut Log, pos: usize, t: &[u8], name: &str) -> (r: Option<usize>)
    requires
        pos <= src@.len(),
    ensures
        r matches Some(e) ==> e == pos + t@.len() && e <= src@.len() && slice(src@, (pos, e)) == t@,
        r is None <==> !(pos + t@.len() <= src@.len() && src@.subrange(pos as int, pos + t@.len()) == t@),
        opt_nat(r) == lit_end(src@, pos as nat, t@),
{
    let n = src.len();
    if starts(src, pos, t) {
        Some(pos + t.len())
    } else {
        mark(log, pos, name);
        None
    }
}

/// A one-byte token: its end where the source holds `b` at `pos`; otherwise `name` is
/// recorded as expected at `pos`.
pub fn lit_byte(src: &Vec<u8>, log: &mut Log, pos: usize, b: u8, name: &str) -> (r: Option<usize>)
    requires
        pos <= src@.len(),
    ensures
        r matches Some(e) ==> e == pos + 1 && e <= src@.len() && slice(src@, (pos, e)) == seq![b],
        opt_nat(r) == lit_end(src@, pos as nat, seq![b]),
{
    let t: [u8; 1] = [b];
    assert(t@ =~= seq![b]);
    lit(src, log, pos, &t, name)
}

/// A block comment `/* ... */` (not nested) at `pos`: its end.
fn block_comment(src: &Vec<u8>, pos: usize) -> (r: Option<usize>)
    requires
        pos <= src@.len(),
    ensures
        r matches Some(e) ==> pos < e <= src@.len(),
        opt_nat(r) == block_end(src@, pos as nat),
{
    reveal(block_close);
    let n = src.len();
    if !starts(src, pos, &[47u8, 42]) {
        return None;
    }
    let mut i = pos + 2;
    while i < src.len()
        invariant
            pos + 2 <= i <= src@.len(),
            block_end(src@, pos as nat) == block_close(src@, i as nat),
        decreases src@.len() - i,
    {
        reveal(block_close);
        if starts(src, i, &[42u8, 47]) {
            return Some(i + 2);
        }
        i = i + 1;
    }
    None
}

/// A line comment `// ...` at `pos`, up to and including its newline: its end.
fn line_comment(src: &Vec<u8>, pos: usize) -> (r: Option<usize>)
    requires
        pos <= src@.len(),
    ensures
        r matches Some(e) ==> pos < e <= src@.len(),
        opt_nat(r) == line_end(src@, pos as nat),
{
    reveal(line_close);
    let n = src.len();
    if !starts(src, pos, &[47u8, 47]) {
        return None;
    }
    let mut i = pos + 2;
    while i < src.len()
        invariant
            pos + 2 <= i <= src@.len(),
            line_end(src@, pos as nat) == Some(line_close(src@, i as nat)),
        decreases src@.len() - i,
    {
        reveal(line_close);
        if src[i] == 10 {
            return Some(i + 1);
        }
        i = i + 1;
    }
    Some(i)
}

/// Blanks and comments from `pos` on (`_`, or `__` where `newlines`): where they end.
pub fn skip(src: &Vec<u8>, pos: usize, newlines: bool) -> (r: usize)
    requires
        pos <= src@.len(),
    ensures
        pos <= r <= src@.len(),
        r == skip_end(src@, pos as nat, newlines),
{
    reveal(skip_end);
    let mut i = pos;
    loop
        invariant
            pos <= i <= src@.len(),
            skip_end(src@, i as nat, newlines) == skip_end(src@, pos as nat, newlines),
        decreases src@.len() - i,
    {
        reveal(skip_end);
        if i < src.len() {
            let b = src[i];
            if b == 32 || b == 9 || b == 13 || (newlines && b == 10) {
                i = i + 1;
                continue;
            }
        }
        match block_comment(src, i) {
            Some(e) => {
                i = e;
                continue;
            },
            None => {},
        }
        match line_comment(src, i) {
            Some(e) => {
                i = e;
                continue;
            },
            None => {},
        }
        return i;
    }
}

/// One or more spaces, tabs or carriage returns (`spa`): where they end.
pub fn spaces(src: &Vec<u8>, pos: usize) -> (r: Option<usize>)
    requires
        pos <= src@.len(),
    ensures
        r matches Some(e) ==> pos < e <= src@.len(),
        opt_nat(r) == spaces_end(src@, pos as nat),
{
    reveal(spaces_end);
    reveal(space_run);
    let mut i = pos;
    while i < src.len() && (src[i] == 32 || src[i] == 9 || src[i] == 13)
        invariant
            pos <= i <= src@.len(),
            space_run(src@, i as nat) == space_run(src@, pos as nat),
        decreases src@.len() - i,
    {
        reveal(spaces_end);
        reveal(space_run);
        i = i + 1;
    }
    if i > pos {
        Some(i)
    } else {
        None
    }
}

/// The separator between top-level functions (`sep`): blanks, a newline or `;`, then
/// blanks and newlines.
pub fn separator(src: &Vec<u8>, log: &mut Log, pos: usize) -> (r: Option<usize>)
    requires
        pos <= src@.len(),
    ensures
        r matches Some(e) ==> pos < e <= src@.len(),
        opt_nat(r) == separator_end(src@, pos as nat),
{
    reveal(separator_end);
    reveal(space_run);
    reveal(blank_run);
    let mut i = pos;
    while i < src.len() && (src[i] == 32 || src[i] == 9 || src[i] == 13)
        invariant
            pos <= i <= src@.len(),
            space_run(src@, i as nat) == space_run(src@, pos as nat),
        decreases src@.len() - i,
    {
        reveal(separator_end);
        reveal(space_run);
        reveal(blank_run);
        i = i + 1;
    }
    let ghost j = i;
    if !(i < src.len() && (src[i] == 10 || src[i] == 59)) {
        mark(log, i, "['\\n' | ';']");
        return None;
    }
    i = i + 1;
    while i < src.len() && (src[i] == 32 || src[i] == 9 || src[i] == 13 || src[i] == 10)
        invariant
            pos < i <= src@.len(),
            j == space_run(src@, pos as nat),
            blank_run(src@, i as nat) == blank_run(src@, (j + 1) as nat),
        decreases src@.len() - i,
    {
        reveal(separator_end);
        reveal(space_run);
        reveal(blank_run);
        i = i + 1;
    }
    Some(i)
}

/// Whether `s` is one of the keywords.
fn keyword(src: &Vec<u8>, start: usize, end: usize) -> (r: bool)
    requires
        start <= end <= src@.len(),
    ensures
        r == is_keyword(slice(src@, (start, end))),
{
    let n = end - start;
    let ghost w = slice(src@, (start, end));
    if n == 3 && starts(src, start, &[108u8, 101, 116]) {
        assert(w =~= seq![108u8, 101, 116]);
        return true;
    }
    if n == 2 && starts(src, start, &[102u8, 110]) {
        assert(w =~= seq![102u8, 110]);
        return true;
    }
    if n == 2 && starts(src, start, &[105u8, 102]) {
        assert(w =~= seq![105u8, 102]);
        return true;
    }
    if n == 4 && starts(src, start, &[101u8, 108, 115, 101]) {
        assert(w =~= seq![101u8, 108, 115, 101]);
        return true;
    }
    proof {
        if w == seq![108u8, 101, 116] {
            assert(src@.subrange(start as int, start + 3) =~= w);
        }
        if w == seq![102u8, 110] {
            assert(src@.subrange(start as int, start + 2) =~= w);
        }
        if w == seq![105u8, 102] {
            assert(src@.subrange(start as int, start + 2) =~= w);
        }
        if w == seq![101u8, 108, 115, 101] {
            assert(src@.subrange(start as int, start + 4) =~= w);
        }
    }
    false
}

/// An identifier at `pos`, tagged with its span: a word that is no keyword.
pub fn ident(src: &Vec<u8>, log: &mut Log, pos: usize) -> (r: Option<(Tag<String>, usize)>)
    requires
        pos <= src@.len(),
    ensures
        r matches Some((id, e)) ==> pos < e <= src@.len() && id.span == (pos, e) && super::spec::ident_ok(id, src@),
        end_of(r) == ident_end(src@, pos as nat),
{
    reveal(ident_end);
    reveal(word_run);
    if !(pos < src.len() && is_alpha_byte(src[pos])) {
        return None;
    }
    let mut s = String::new();
    let mut i = pos;
    proof {
        assert(chars_of(slice(src@, (pos, pos))) =~= s@);
    }
    while i < src.len() && (is_alpha_byte(src[i]) || is_digit_byte(src[i]))
        invariant
            pos <= i <= src@.len(),
            pos < src@.len(),
            is_alpha(src@[pos as int]),
            forall|j: int| pos <= j < i ==> is_word_char(#[trigger] src@[j]),
            s@ == chars_of(slice(src@, (pos, i))),
            word_run(src@, i as nat) == word_run(src@, pos as nat),
        decreases src@.len() - i,
    {
        reveal(ident_end);
        reveal(word_run);
        let b = src[i];
        push_char(&mut s, b as char);
        proof {
            assert(chars_of(slice(src@, (pos, (i + 1) as usize))) =~= chars_of(slice(src@, (pos, i))).push(b as char));
        }
        i = i + 1;
    }
    proof {
        let w = slice(src@, (pos, i));
        assert(w.len() > 0);
        assert(w[0] == src@[pos as int]);
        assert forall|j: int| 1 <= j < w.len() implies is_word_char(#[trigger] w[j]) by {
            assert(w[j] == src@[pos + j]);
        }
        assert(is_word(w));
    }
    if keyword(src, pos, i) {
        mark(log, i, "non-keyword");
        return None;
    }
    Some((Tag::new(s, (pos, i)), i))
}

fn is_alpha_byte(b: u8) -> (r: bool)
    ensures
        r == is_alpha(b),
{
    b == 95 || (65 <= b && b <= 90) || (97 <= b && b <= 122)
}

fn is_digit_byte(b: u8) -> (r: bool)
    ensures
        r == is_digit(b),
{
    48 <= b && b <= 57
}

/// A number at `pos`: its value, where the digits there are a value of `i64`; otherwise
/// `0..9` is recorded as expected after the digits.
pub fn number(src: &Vec<u8>, log: &mut Log, pos: usize) -> (r: Option<(i64, usize)>)
    requires
        pos <= src@.len(),
    ensures
        r matches Some((v, e)) ==> pos < e <= src@.len() && is_number(slice(src@, (pos, e))) && v as int == digits_value(
            slice(src@, (pos, e)),
        ),
        end_of(r) == number_end(src@, pos as nat),
{
    reveal(number_end);
    reveal(digit_run);
    let mut v: u64 = 0;
    let mut fits = true;
    let mut i = pos;
    proof {
        assert(slice(src@, (pos, pos)) =~= Seq::<u8>::empty());
    }
    while i < src.len() && is_digit_byte(src[i])
        invariant
            pos <= i <= src@.len(),
            forall|j: int| pos <= j < i ==> is_digit(#[trigger] src@[j]),
            v <= i64::MAX,
            fits ==> v as int == digits_value(slice(src@, (pos, i))),
            fits <==> digits_value(slice(src@, (pos, i))) <= i64::MAX,
            digit_run(src@, i as nat) == digit_run(src@, pos as nat),
        decreases src@.len() - i,
    {
        reveal(number_end);
        reveal(digit_run);
        let d = (src[i] - 48) as u64;
        proof {
            assert(slice(src@, (pos, (i + 1) as usize)).drop_last() =~= slice(src@, (pos, i)));
        }
        if fits && v <= (0x7fff_ffff_ffff_ffff - d) / 10 {
            v = v * 10 + d;
        } else {
            fits = false;
        }
        i = i + 1;
    }
    if i == pos || !fits {
        mark(log, i, "0..9");
        return None;
    }
    proof {
        let w = slice(src@, (pos, i));
        assert forall|j: int| 0 <= j < w.len() implies is_digit(#[trigger] w[j]) by {
            assert(w[j] == src@[pos + j]);
        }
    }
    Some((v as i64, i))
}

} // verus!
