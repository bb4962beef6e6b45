//! The scope of the type checker: names bound to types, a later binding of a name hiding
//! the earlier.
use vstd::prelude::*;

use crate::ast::{erase, lemma_tyvs_index, lemma_tyvs_len, tyv, tyvs, type_v, Tag, Ty, TyV, Type};
use crate::semant::env::str_eq;

verus! {

/// The bindings of a list, in order: a later binding of a name replaces the earlier one.
pub open spec fn bindings(s: Seq<(String, Type)>) -> Map<Seq<char>, Ty>
    decreases s.len(),
{
    if s.len() == 0 {
        Map::empty()
    } else {
        bindings(s.drop_last()).insert(s.last().0@, erase(s.last().1))
    }
}

/// The bindings of a list in full, each type with every span inside it.
pub open spec fn full_bindings(s: Seq<(String, Type)>) -> Map<Seq<char>, TyV>
    decreases s.len(),
{
    if s.len() == 0 {
        Map::empty()
    } else {
        full_bindings(s.drop_last()).insert(s.last().0@, type_v(s.last().1))
    }
}

/// The last binding of a name decides its type; a name bound nowhere is not in scope.
proof fn lemma_bindings_last(s: Seq<(String, Type)>, k: Seq<char>, i: int)
    requires
        -1 <= i < s.len(),
        forall|j: int| i < j < s.len() ==> (#[trigger] s[j]).0@ != k,
        i >= 0 ==> s[i].0@ == k,
    ensures
        i >= 0 ==> bindings(s).contains_key(k) && bindings(s)[k] == erase(s[i].1),
        i < 0 ==> !bindings(s).contains_key(k),
        i >= 0 ==> full_bindings(s).contains_key(k) && full_bindings(s)[k] == type_v(s[i].1),
        i < 0 ==> !full_bindings(s).contains_key(k),
    decreases s.len(),
{
    if s.len() > 0 && i < s.len() - 1 {
        assert forall|j: int| i < j < s.drop_last().len() implies (#[trigger] s.drop_last()[j]).0@ != k by {
            assert(s.drop_last()[j] == s[j]);
        }
        lemma_bindings_last(s.drop_last(), k, i);
        assert(s[s.len() - 1].0@ != k);
    }
}

/// A copy of a type with the same shape.
pub fn copy_type(t: &Type) -> (r: Type)
    ensures
        erase(r) == erase(*t),
        type_v(r) == type_v(*t),
{
    match t {
        Type::Unit => Type::Unit,
        Type::Bool => Type::Bool,
        Type::I64 => Type::I64,
        Type::Fun(args, ret) => {
            let mut v: Vec<Tag<Type>> = Vec::new();
            let n = args.item.len();
            let mut i: usize = 0;
            while i < n
                invariant
                    n == args.item@.len(),
                    i <= n,
                    v@.len() == i,
                    forall|j: int| 0 <= j < i ==> erase(*#[trigger] v@[j].item) == erase(*args.item@[j].item),
                    forall|j: int| 0 <= j < i ==> tyv(#[trigger] v@[j]) == tyv(args.item@[j]),
                decreases n - i,
            {
                v.push(args.item[i].copy());
                i = i + 1;
            }
            proof {
                assert forall|j: int| 0 <= j < n implies crate::ast::erase_all(v@)[j] == crate::ast::erase_all(args.item@)[j] by {
                    crate::ast::lemma_erase_all_index(v@, j);
                    crate::ast::lemma_erase_all_index(args.item@, j);
                }
                crate::ast::lemma_erase_all_len(v@);
                crate::ast::lemma_erase_all_len(args.item@);
                assert(crate::ast::erase_all(v@) =~= crate::ast::erase_all(args.item@));
                assert forall|j: int| 0 <= j < n implies tyvs(v@)[j] == tyvs(args.item@)[j] by {
                    lemma_tyvs_index(v@, j);
                    lemma_tyvs_index(args.item@, j);
                }
                lemma_tyvs_len(v@);
                lemma_tyvs_len(args.item@);
                assert(tyvs(v@) =~= tyvs(args.item@));
            }
            Type::Fun(Tag::new(v, args.span), Box::new(ret.copy()))
        },
    }
}

/// Names bound to types.
#[derive(Debug)]
pub struct Environment {
    entries: Vec<(String, Type)>,
}

impl Environment {
    /// The names in scope and their types.
    pub closed spec fn view(&self) -> Map<Seq<char>, Ty> {
        bindings(self.entries@)
    }

    /// The names in scope and their types in full, every span inside them included.
    pub closed spec fn full(&self) -> Map<Seq<char>, TyV> {
        full_bindings(self.entries@)
    }

    pub fn new() -> (r: Self)
        ensures
            r.view() == Map::<Seq<char>, Ty>::empty(),
            r.full() == Map::<Seq<char>, TyV>::empty(),
    {
        Environment { entries: Vec::new() }
    }

    /// Binds `name` to `ty`, hiding an earlier binding of the name.
    pub fn insert(&mut self, name: String, ty: Type)
        ensures
            final(self).view() == old(self).view().insert(name@, erase(ty)),
            final(self).full() == old(self).full().insert(name@, type_v(ty)),
    {
        let ghost old_entries = self.entries@;
        self.entries.push((name, ty));
        assert(self.entries@.drop_last() =~= old_entries);
    }

    /// A copy of this scope with `name` bound to `ty`; this scope keeps its bindings.
    pub fn mutate(&mut self, name: String, ty: Type) -> (r: Self)
        ensures
            *final(self) == *old(self),
            final(self).view() == old(self).view(),
            r.view() == old(self).view().insert(name@, erase(ty)),
            final(self).full() == old(self).full(),
            r.full() == old(self).full().insert(name@, type_v(ty)),
    {
        let mut c = self.copy();
        c.insert(name, ty);
        c
    }

    /// A copy of this scope.
    pub fn copy(&self) -> (r: Self)
        ensures
            r.view() == self.view(),
            r.full() == self.full(),
    {
        let mut v: Vec<(String, Type)> = Vec::new();
        let n = self.entries.len();
        let mut i: usize = 0;
        while i < n
            invariant
                n == self.entries@.len(),
                i <= n,
                v@.len() == i,
                forall|j: int| 0 <= j < i ==> (#[trigger] v@[j]).0@ == self.entries@[j].0@ && erase(v@[j].1) == erase(self.entries@[j].1)
                    && type_v(v@[j].1) == type_v(self.entries@[j].1),
            decreases n - i,
        {
            let name = self.entries[i].0.clone();
            let ty = copy_type(&self.entries[i].1);
            v.push((name, ty));
            i = i + 1;
        }
        proof {
            lemma_bindings_same(v@, self.entries@);
        }
        Environment { entries: v }
    }

    /// The type bound to `name`, if any.
    pub fn lookup(&self, name: &str) -> (r: Option<&Type>)
        ensures
            r is Some <==> self.view().contains_key(name@),
            r matches Some(t) ==> erase(*t) == self.view()[name@],
            r matches Some(t) ==> type_v(*t) == self.full()[name@],
    {
        let mut i = self.entries.len();
        while i > 0
            invariant
                i <= self.entries@.len(),
                forall|j: int| i <= j < self.entries@.len() ==> (#[trigger] self.entries@[j]).0@ != name@,
            decreases i,
        {
            if str_eq(self.entries[i - 1].0.as_str(), name) {
                proof {
                    lemma_bindings_last(self.entries@, name@, i - 1);
                }
                return Some(&self.entries[i - 1].1);
            }
            i = i - 1;
        }
        proof {
            lemma_bindings_last(self.entries@, name@, -1);
        }
        None
    }
}

/// Lists with the same names and shapes, in order, bind the same.
proof fn lemma_bindings_same(a: Seq<(String, Type)>, b: Seq<(String, Type)>)
    requires
        a.len() == b.len(),
        forall|j: int| 0 <= j < a.len() ==> (#[trigger] a[j]).0@ == b[j].0@ && erase(a[j].1) == erase(b[j].1)
            && type_v(a[j].1) == type_v(b[j].1),
    ensures
        bindings(a) == bindings(b),
        full_bindings(a) == full_bindings(b),
    decreases a.len(),
{
    if a.len() > 0 {
        assert forall|j: int| 0 <= j < a.drop_last().len() implies (#[trigger] a.drop_last()[j]).0@ == b.drop_last()[j].0@
            && erase(a.drop_last()[j].1) == erase(b.drop_last()[j].1) && type_v(a.drop_last()[j].1) == type_v(b.drop_last()[j].1) by {
            assert(a.drop_last()[j] == a[j]);
            assert(b.drop_last()[j] == b[j]);
        }
        lemma_bindings_same(a.drop_last(), b.drop_last());
        assert(a.last() == a[a.len() - 1]);
    }
}

} // verus!
