//! The parser: source text to the abstract syntax.
pub mod grammar;
pub mod scan;
pub mod spec;
pub mod syntax;

use vstd::prelude::*;
use vstd::string::StringSliceAdditionalSpecFns;

use crate::ast::{Error, Program, Result};
use crate::text::push_str;
use scan::{expected_text, Log};
use spec::program_ok;

verus! {

/// Parses a program. It succeeds exactly on the sources that the grammar accepts. Then the
/// tree is the one the grammar reads: the top-level functions are those it finds, in order and
/// at the spans it gives them; in each, the name, the parameters (all of them, each at its
/// span), the result type and the braced body stand where the grammar reads them; every list
/// (parameters, call arguments, parameter types of a function type) holds exactly the
/// elements the grammar reads, at their spans; every node's span is the text it is made of,
/// inside zero or more pairs of parentheses, with its children at the places the grammar reads
/// them and its tokens the text at their spans; unit stands for `()`, for nothing, or for a
/// missing `else` branch or continuation; infix operators group by precedence and to the left,
/// and sequences to the left. On failure the error is `syntax error` with one label: a
/// one-byte span that starts inside the source or at its end, and the words `expected one of`
/// before what was expected there. (The byte is the furthest one the parse reached; this
/// contract does not say which byte that is.)
pub fn program(src: &str) -> (r: Result<Program>)
    requires
        src.spec_bytes().len() < usize::MAX,
    ensures
        r is Ok <==> syntax::accepts(src.spec_bytes()),
        r matches Ok(p) ==> p@.len() >= 1 && program_ok(p@, src.spec_bytes()),
        r matches Ok(p) ==> spec::top_spans(p@) == syntax::program_spans(src.spec_bytes()),
        r matches Err(e) ==> e.message() == "syntax error"@ && e.labels().len() == 1 && e.notes().len() == 0
            && e.labels()[0].0.0 <= src.spec_bytes().len() && e.labels()[0].0.1 == e.labels()[0].0.0 + 1
            && exists|what: Seq<char>| e.labels()[0].1 == "expected one of "@ + what,
{
    let bytes = src.as_bytes_vec();
    let mut log = Log::new();
    match grammar::tops(&bytes, &mut log) {
        Some(p) => Ok(p),
        None => {
            let p = if log.far <= bytes.len() {
                log.far
            } else {
                bytes.len()
            };
            let mut msg = String::from_str("expected one of ");
            let what = expected_text(&log);
            push_str(&mut msg, what.as_str());
            let e = Error::new("syntax error").label(msg.as_str(), (p, p + 1));
            assert(e.labels()[0].1 == "expected one of "@ + what@);
            Err(e)
        },
    }
}

} // verus!
