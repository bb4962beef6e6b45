//! Comparing types, and the errors a mismatch produces.
use vstd::prelude::*;

use crate::ast::err::Span;
use crate::ast::fmt::type_text;
use crate::ast::{erase, erase_all, lemma_erase_all_index, lemma_erase_all_len, Error, Result, Tag, Ty, Type, _Type, _Vec};
use crate::text::{decimal, push_decimal, push_str};

verus! {

impl Type {
    /// Structural equality of types, ignoring where they were written.
    pub fn matches(&self, other: &Type) -> (r: bool)
        ensures
            r == (erase(*self) == erase(*other)),
        decreases *self,
    {
        match (self, other) {
            (Type::Unit, Type::Unit) | (Type::Bool, Type::Bool) | (Type::I64, Type::I64) => true,
            (Type::Fun(l_args, l_ret), Type::Fun(r_args, r_ret)) => {
                let n = l_args.item.len();
                if n != r_args.item.len() {
                    proof {
                        lemma_erase_all_len(l_args.item@);
                        lemma_erase_all_len(r_args.item@);
                    }
                    return false;
                }
                let mut i: usize = 0;
                while i < n
                    invariant
                        n == l_args.item@.len(),
                        n == r_args.item@.len(),
                        *self == Type::Fun(*l_args, *l_ret),
                        *other == Type::Fun(*r_args, *r_ret),
                        i <= n,
                        forall|j: int| 0 <= j < i ==> erase(*#[trigger] l_args.item@[j].item) == erase(*r_args.item@[j].item),
                    decreases n - i,
                {
                    proof {
                        assert(decreases_to!(*self => self->Fun_0));
                        assert(decreases_to!(self->Fun_0 => self->Fun_0.item));
                        assert(decreases_to!(self->Fun_0.item => self->Fun_0.item@));
                        assert(decreases_to!(self->Fun_0.item@ => self->Fun_0.item@[i as int]));
                    }
                    if !l_args.item[i].item.matches(&r_args.item[i].item) {
                        proof {
                            lemma_erase_all_index(l_args.item@, i as int);
                            lemma_erase_all_index(r_args.item@, i as int);
                            assert(erase_all(l_args.item@)[i as int] != erase_all(r_args.item@)[i as int]);
                            assert(erase(*self) != erase(*other));
                        }
                        return false;
                    }
                    i = i + 1;
                }
                proof {
                    assert forall|j: int| 0 <= j < n implies erase_all(l_args.item@)[j] == erase_all(r_args.item@)[j] by {
                        lemma_erase_all_index(l_args.item@, j);
                        lemma_erase_all_index(r_args.item@, j);
                    }
                    lemma_erase_all_len(l_args.item@);
                    lemma_erase_all_len(r_args.item@);
                    assert(erase_all(l_args.item@) =~= erase_all(r_args.item@));
                }
                l_ret.item.matches(&r_ret.item)
            },
            _ => false,
        }
    }
}

/// The headline of the error for types that differ.
pub open spec fn type_mismatch() -> Seq<char> {
    "type mismatch"@
}

/// The headline of the error for lists of different lengths.
pub open spec fn count_mismatch() -> Seq<char> {
    "count mismatch"@
}

/// The headline of the error that comparing a type found with the type expected produces,
/// if they differ: function types of different arities are a count mismatch; otherwise the
/// first difference met (parameters in order, then the result) decides.
pub open spec fn eq_msg(found: Ty, expected: Ty) -> Option<Seq<char>>
    decreases found, 1nat,
{
    match (found, expected) {
        (Ty::Fun(fa, fr), Ty::Fun(ea, er)) => if fa.len() != ea.len() {
            Some(count_mismatch())
        } else {
            match args_msg(fa, ea) {
                Some(m) => Some(m),
                None => eq_msg(*fr, *er),
            }
        },
        _ => if found == expected {
            None
        } else {
            Some(type_mismatch())
        },
    }
}

/// The headline of the first difference between two lists of parameter types.
pub open spec fn args_msg(fa: Seq<Ty>, ea: Seq<Ty>) -> Option<Seq<char>>
    decreases fa, 0nat,
{
    if fa.len() == 0 || ea.len() == 0 {
        None
    } else {
        match eq_msg(fa[0], ea[0]) {
            Some(m) => Some(m),
            None => args_msg(fa.drop_first(), ea.drop_first()),
        }
    }
}

/// Comparing two types yields no error exactly when they are equal.
pub proof fn lemma_eq_msg(a: Ty, b: Ty)
    ensures
        eq_msg(a, b) is None <==> a == b,
    decreases a, 1nat,
{
    match (a, b) {
        (Ty::Fun(fa, fr), Ty::Fun(ea, er)) => {
            if fa.len() == ea.len() {
                lemma_args_msg(fa, ea);
                lemma_eq_msg(*fr, *er);
                if args_msg(fa, ea) is None && eq_msg(*fr, *er) is None {
                    assert(fa =~= ea);
                }
            }
        },
        _ => {},
    }
}

proof fn lemma_args_msg(fa: Seq<Ty>, ea: Seq<Ty>)
    requires
        fa.len() == ea.len(),
    ensures
        args_msg(fa, ea) is None <==> fa == ea,
    decreases fa, 0nat,
{
    if fa.len() > 0 {
        lemma_eq_msg(fa[0], ea[0]);
        lemma_args_msg(fa.drop_first(), ea.drop_first());
        if args_msg(fa, ea) is None {
            assert forall|i: int| 0 <= i < fa.len() implies fa[i] == ea[i] by {
                if i > 0 {
                    assert(fa[i] == fa.drop_first()[i - 1]);
                    assert(ea[i] == ea.drop_first()[i - 1]);
                }
            }
            assert(fa =~= ea);
        }
        if fa == ea {
            assert(fa.drop_first() =~= ea.drop_first());
        }
    } else {
        assert(fa =~= ea);
    }
}

/// The labels of a type mismatch: what was expected at the expected type, what was found at
/// the type found.
pub open spec fn mismatch_labels(found: Tag<Type>, expected: Tag<Type>) -> Seq<(Span, Seq<char>)> {
    seq![
        (expected.span, "expected "@ + type_text(erase(*expected.item))),
        (found.span, "found "@ + type_text(erase(*found.item))),
    ]
}

/// The labels of an argument-count mismatch: the count expected at the expected list, the
/// count found at the list found.
pub open spec fn count_labels(found: Span, found_len: nat, exp: Span, exp_len: nat) -> Seq<(Span, Seq<char>)> {
    seq![
        (exp, "expected "@ + decimal(exp_len) + " arguments"@),
        (found, "found "@ + decimal(found_len)),
    ]
}

/// The labels of the error that comparing a type found with the type expected produces, if
/// they differ: for function types of different arities those of the count; otherwise those
/// of the first difference met (parameters in order, then the result).
pub open spec fn type_labels(found: Tag<Type>, expected: Tag<Type>) -> Seq<(Span, Seq<char>)>
    decreases found, 1nat,
{
    match (*found.item, *expected.item) {
        (Type::Fun(fa, fr), Type::Fun(ea, er)) => {
            proof {
                assert(decreases_to!(found => found.item));
                assert(decreases_to!(*found.item => fa));
                assert(decreases_to!(fa => fa.item));
                assert(decreases_to!(fa.item => fa.item@));
                assert(decreases_to!(*found.item => fr));
            }
            if fa.item@.len() != ea.item@.len() {
                count_labels(fa.span, fa.item@.len(), ea.span, ea.item@.len())
            } else if erase_all(fa.item@) != erase_all(ea.item@) {
                args_labels(fa.item@, ea.item@)
            } else {
                type_labels(*fr, *er)
            }
        },
        _ => mismatch_labels(found, expected),
    }
}

/// The labels of the first difference between two lists of parameter types.
pub open spec fn args_labels(fa: Seq<Tag<Type>>, ea: Seq<Tag<Type>>) -> Seq<(Span, Seq<char>)>
    decreases fa, 0nat,
{
    if fa.len() == 0 || ea.len() == 0 {
        Seq::empty()
    } else if erase(*fa[0].item) != erase(*ea[0].item) {
        type_labels(fa[0], ea[0])
    } else {
        args_labels(fa.drop_first(), ea.drop_first())
    }
}

fn mismatch(found: &_Type, expected: &_Type) -> (e: Error)
    ensures
        e.message() == type_mismatch(),
        e.labels() == mismatch_labels(*found, *expected),
        e.notes() == Seq::<Seq<char>>::empty(),
{
    let mut exp = String::from_str("expected ");
    expected.item.write_into(&mut exp);
    let mut fnd = String::from_str("found ");
    found.item.write_into(&mut fnd);
    Error::new("type mismatch").label(exp.as_str(), expected.span).label(fnd.as_str(), found.span)
}

impl Tag<Type> {
    /// Succeeds exactly when the two types have the same shape.
    pub fn assert_eq(&self, expected: &_Type) -> (r: Result<()>)
        ensures
            r is Ok <==> erase(*self.item) == erase(*expected.item),
            r matches Err(e) ==> e.message() == type_mismatch() || e.message() == count_mismatch(),
            r matches Err(e) ==> eq_msg(erase(*self.item), erase(*expected.item)) == Some(e.message()),
            r matches Err(e) ==> (!(erase(*self.item) is Fun && erase(*expected.item) is Fun)
                ==> e.labels() == mismatch_labels(*self, *expected)),
            r matches Err(e) ==> e.labels() == type_labels(*self, *expected),
        decreases *self.item,
    {
        match (&*self.item, &*expected.item) {
            (Type::Fun(l_args, l_ret), Type::Fun(r_args, r_ret)) => {
                let c = len_eq(l_args, r_args);
                if c.is_err() {
                    proof {
                        lemma_erase_all_len(l_args.item@);
                        lemma_erase_all_len(r_args.item@);
                    }
                    return c;
                }
                let n = l_args.item.len();
                let mut i: usize = 0;
                let ghost fa = erase_all(l_args.item@);
                let ghost ea = erase_all(r_args.item@);
                proof {
                    lemma_erase_all_len(l_args.item@);
                    lemma_erase_all_len(r_args.item@);
                    assert(fa.skip(0) =~= fa);
                    assert(ea.skip(0) =~= ea);
                    assert(l_args.item@.skip(0) =~= l_args.item@);
                    assert(r_args.item@.skip(0) =~= r_args.item@);
                }
                while i < n
                    invariant
                        n == l_args.item@.len(),
                        n == r_args.item@.len(),
                        *self.item == Type::Fun(*l_args, *l_ret),
                        *expected.item == Type::Fun(*r_args, *r_ret),
                        i <= n,
                        forall|j: int| 0 <= j < i ==> erase(*#[trigger] l_args.item@[j].item) == erase(*r_args.item@[j].item),
                        fa == erase_all(l_args.item@),
                        ea == erase_all(r_args.item@),
                        fa.len() == n,
                        ea.len() == n,
                        args_msg(fa, ea) == args_msg(fa.skip(i as int), ea.skip(i as int)),
                        args_labels(l_args.item@, r_args.item@) == args_labels(l_args.item@.skip(i as int), r_args.item@.skip(i as int)),
                    decreases n - i,
                {
                    proof {
                        let ls = l_args.item@.skip(i as int);
                        let rs = r_args.item@.skip(i as int);
                        assert(ls[0] == l_args.item@[i as int]);
                        assert(rs[0] == r_args.item@[i as int]);
                        assert(ls.drop_first() =~= l_args.item@.skip(i + 1));
                        assert(rs.drop_first() =~= r_args.item@.skip(i + 1));
                    }
                    proof {
                        lemma_erase_all_index(l_args.item@, i as int);
                        lemma_erase_all_index(r_args.item@, i as int);
                        assert(fa.skip(i as int)[0] == fa[i as int]);
                        assert(ea.skip(i as int)[0] == ea[i as int]);
                        assert(fa.skip(i as int).drop_first() =~= fa.skip(i + 1));
                        assert(ea.skip(i as int).drop_first() =~= ea.skip(i + 1));
                    }
                    proof {
                        assert(decreases_to!(*self.item => self.item->Fun_0));
                        assert(decreases_to!(self.item->Fun_0 => self.item->Fun_0.item));
                        assert(decreases_to!(self.item->Fun_0.item => self.item->Fun_0.item@));
                        assert(decreases_to!(self.item->Fun_0.item@ => self.item->Fun_0.item@[i as int]));
                    }
                    let a = l_args.item[i].assert_eq(&r_args.item[i]);
                    proof {
                        lemma_eq_msg(fa[i as int], ea[i as int]);
                    }
                    if a.is_err() {
                        proof {
                            lemma_erase_all_index(l_args.item@, i as int);
                            lemma_erase_all_index(r_args.item@, i as int);
                            assert(erase_all(l_args.item@)[i as int] != erase_all(r_args.item@)[i as int]);
                            assert(erase(*self.item) != erase(*expected.item));
                            assert(erase_all(l_args.item@) != erase_all(r_args.item@));
                        }
                        return a;
                    }
                    i = i + 1;
                }
                proof {
                    assert forall|j: int| 0 <= j < n implies erase_all(l_args.item@)[j] == erase_all(r_args.item@)[j] by {
                        lemma_erase_all_index(l_args.item@, j);
                        lemma_erase_all_index(r_args.item@, j);
                    }
                    lemma_erase_all_len(l_args.item@);
                    lemma_erase_all_len(r_args.item@);
                    assert(erase_all(l_args.item@) =~= erase_all(r_args.item@));
                    assert(fa.skip(n as int) =~= Seq::<Ty>::empty());
                }
                l_ret.assert_eq(r_ret)
            },
            _ => {
                if self.item.matches(&expected.item) {
                    Ok(())
                } else {
                    Err(mismatch(self, expected))
                }
            },
        }
    }

    /// Succeeds exactly when this type has the shape of `expected`.
    pub fn assert_eq_raw(&self, expected: &Type) -> (r: Result<()>)
        ensures
            r is Ok <==> erase(*self.item) == erase(*expected),
            r matches Err(e) ==> e.message() == type_mismatch(),
            r matches Err(e) ==> e.labels() == seq![(self.span, "expected "@ + type_text(erase(*expected)))]
                && e.notes() == Seq::<Seq<char>>::empty(),
    {
        if self.item.matches(expected) {
            Ok(())
        } else {
            let mut exp = String::from_str("expected ");
            expected.write_into(&mut exp);
            Err(Error::new("type mismatch").label(exp.as_str(), self.span))
        }
    }
}

/// Succeeds exactly when the two lists have the same length.
pub fn len_eq<A, B>(found: &_Vec<A>, exp: &_Vec<B>) -> (r: Result<()>)
    ensures
        r is Ok <==> found.item@.len() == exp.item@.len(),
        r matches Err(e) ==> e.message() == count_mismatch(),
        r matches Err(e) ==> e.labels() == count_labels(found.span, found.item@.len(), exp.span, exp.item@.len())
            && e.notes() == Seq::<Seq<char>>::empty(),
{
    if found.item.len() != exp.item.len() {
        let mut e1 = String::from_str("expected ");
        push_decimal(&mut e1, exp.item.len() as u128);
        push_str(&mut e1, " arguments");
        let mut e2 = String::from_str("found ");
        push_decimal(&mut e2, found.item.len() as u128);
        return Err(Error::new("count mismatch").label(e1.as_str(), exp.span).label(e2.as_str(), found.span));
    }
    Ok(())
}

/// Shape equality of types is an equivalence: reflexive, symmetric and transitive.
pub proof fn lemma_type_equality_is_equivalence(a: Type, b: Type, c: Type)
    ensures
        erase(a) == erase(a),
        erase(a) == erase(b) ==> erase(b) == erase(a),
        erase(a) == erase(b) && erase(b) == erase(c) ==> erase(a) == erase(c),
{
}

} // verus!
