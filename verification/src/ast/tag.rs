//! Values paired with the source span they were read from.
use vstd::prelude::*;

verus! {

/// A value together with the byte range of the source text it stands for.
#[derive(Debug)]
pub struct Tag<T> {
    pub item: Box<T>,
    pub span: (usize, usize),
}

impl<T: Clone> Clone for Tag<T> {
    fn clone(&self) -> (r: Self)
        ensures
            r.span == self.span,
            cloned(*self.item, *r.item),
    {
        Tag { item: Box::new((*self.item).clone()), span: self.span }
    }
}

impl<T> Tag<T> {
    pub fn new(item: T, span: (usize, usize)) -> (r: Self)
        ensures
            *r.item == item,
            r.span == span,
    {
        Tag { item: Box::new(item), span }
    }

    /// A new tag, boxed.
    pub fn boxed(item: T, span: (usize, usize)) -> (r: Box<Self>)
        ensures
            *r.item == item,
            r.span == span,
    {
        Box::new(Tag::new(item, span))
    }

    pub fn inner(&self) -> (r: &T)
        ensures
            *r == *self.item,
    {
        &self.item
    }

    pub fn span(&self) -> (r: (usize, usize))
        ensures
            r == self.span,
    {
        self.span
    }

    pub fn into_inner(self) -> (r: T)
        ensures
            r == *self.item,
    {
        *self.item
    }

    /// A tag with the same span around another value.
    pub fn to<U>(&self, item: U) -> (r: Tag<U>)
        ensures
            *r.item == item,
            r.span == self.span,
    {
        Tag::new(item, self.span)
    }
}

} // verus!
