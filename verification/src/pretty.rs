//! Indented text forms of trees, for looking at what a pass produced.
use vstd::prelude::*;

use crate::text::{indentation, push_indent};

verus! {

/// A tree that can be shown as indented text.
pub trait Pretty {
    /// Whether `text` is how the tree is shown at indentation level `indent`.
    spec fn shown_as(&self, indent: usize, text: Seq<char>) -> bool;

    /// The tree as text, nested parts indented from level `indent` on.
    fn pretty(&self, indent: usize) -> (r: String)
        ensures
            self.shown_as(indent, r@),
    ;
}

/// The next indentation level (it stays at the largest level there is).
pub open spec fn deeper(n: usize) -> usize {
    if n < usize::MAX {
        (n + 1) as usize
    } else {
        n
    }
}

/// The next indentation level.
pub fn next_level(n: usize) -> (r: usize)
    ensures
        r == deeper(n),
{
    if n < usize::MAX {
        n + 1
    } else {
        n
    }
}

/// Indentation as a string: `n` copies of two spaces.
pub fn space(n: usize) -> (r: String)
    ensures
        r@ == indentation(n as nat),
{
    let mut s = String::new();
    push_indent(&mut s, n);
    assert(Seq::<char>::empty() + indentation(n as nat) =~= indentation(n as nat));
    s
}

} // verus!
