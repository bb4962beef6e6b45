//! Comparing types for the type checker, with the errors a mismatch produces.
use vstd::prelude::*;

use crate::ast::{erase, erase_all, lemma_erase_all_index, lemma_erase_all_len, Error, Result, Tag, Type, _Type, _Vec};
use crate::semant::eq::{args_msg, count_mismatch, eq_msg, lemma_eq_msg, mismatch_labels as pair_mismatch_labels};
use crate::ast::err::Span;
use crate::semant::spec::{eq_labels, Labels};
use crate::text::{decimal, push_decimal};

verus! {

/// Types and lists of types that can be checked to be the same.
pub trait TypeEq: Sized {
    /// The two have the same shape, wherever they were written.
    spec fn same_shape(&self, rhs: &Self) -> bool;

    /// The headline of the error for the first difference, if any.
    spec fn mismatch(&self, rhs: &Self) -> Option<Seq<char>>;

    /// The labels of that error, where they are known without looking inside the two.
    spec fn mismatch_labels(&self, rhs: &Self) -> Option<Labels>;

    /// The labels of that error: those of the first difference met.
    spec fn first_labels(&self, rhs: &Self) -> Labels;

    /// Succeeds exactly when the two have the same shape; else the error is that of the first
    /// difference.
    fn assert_eq(&self, rhs: &Self) -> (r: Result<()>)
        ensures
            r is Ok <==> self.same_shape(rhs),
            r matches Err(e) ==> self.mismatch(rhs) == Some(e.message()),
            r matches Err(e) ==> (self.mismatch_labels(rhs) matches Some(ls) ==> e.labels() == ls),
            r matches Err(e) ==> e.labels() == self.first_labels(rhs),
    ;
}

impl TypeEq for Tag<Type> {
    open spec fn same_shape(&self, rhs: &Self) -> bool {
        erase(*self.item) == erase(*rhs.item)
    }

    open spec fn mismatch(&self, rhs: &Self) -> Option<Seq<char>> {
        eq_msg(erase(*self.item), erase(*rhs.item))
    }

    open spec fn mismatch_labels(&self, rhs: &Self) -> Option<Labels> {
        eq_labels(erase(*self.item), self.span, erase(*rhs.item), rhs.span)
    }

    open spec fn first_labels(&self, rhs: &Self) -> Labels {
        shape_labels(*self, *rhs)
    }

    fn assert_eq(&self, rhs: &Self) -> (r: Result<()>) {
        type_eq(self, rhs)
    }
}

impl TypeEq for Tag<Vec<Tag<Type>>> {
    open spec fn same_shape(&self, rhs: &Self) -> bool {
        erase_all(self.item@) == erase_all(rhs.item@)
    }

    open spec fn mismatch(&self, rhs: &Self) -> Option<Seq<char>> {
        if self.item@.len() != rhs.item@.len() {
            Some(count_mismatch())
        } else {
            args_msg(erase_all(self.item@), erase_all(rhs.item@))
        }
    }

    open spec fn mismatch_labels(&self, rhs: &Self) -> Option<Labels> {
        if self.item@.len() != rhs.item@.len() {
            Some(len_labels(self.span, self.item@.len(), rhs.span, rhs.item@.len()))
        } else {
            None
        }
    }

    open spec fn first_labels(&self, rhs: &Self) -> Labels {
        if self.item@.len() != rhs.item@.len() {
            len_labels(self.span, self.item@.len(), rhs.span, rhs.item@.len())
        } else {
            pair_labels(self.item@, rhs.item@)
        }
    }

    fn assert_eq(&self, rhs: &Self) -> (r: Result<()>) {
        list_eq(self, rhs)
    }
}

/// The labels of a length mismatch: the length expected at the right list, the length found
/// at the left one.
pub open spec fn len_labels(left: Span, left_len: nat, right: Span, right_len: nat) -> Seq<(Span, Seq<char>)> {
    seq![(right, "expected "@ + decimal(right_len)), (left, "found "@ + decimal(left_len))]
}

/// The labels of the first difference between two types: for function types of different
/// arities those of the lengths; otherwise those of the first difference met (parameters in
/// order, then the result); else what was expected and what was found.
pub open spec fn shape_labels(left: Tag<Type>, right: Tag<Type>) -> Labels
    decreases left, 1nat,
{
    match (*left.item, *right.item) {
        (Type::Fun(la, lr), Type::Fun(ra, rr)) => {
            proof {
                assert(decreases_to!(left => left.item));
                assert(decreases_to!(*left.item => la));
                assert(decreases_to!(la => la.item));
                assert(decreases_to!(la.item => la.item@));
                assert(decreases_to!(*left.item => lr));
            }
            if la.item@.len() != ra.item@.len() {
                len_labels(la.span, la.item@.len(), ra.span, ra.item@.len())
            } else if erase_all(la.item@) != erase_all(ra.item@) {
                pair_labels(la.item@, ra.item@)
            } else {
                shape_labels(*lr, *rr)
            }
        },
        _ => pair_mismatch_labels(left, right),
    }
}

/// The labels of the first difference between two lists of types of one length.
pub open spec fn pair_labels(ls: Seq<Tag<Type>>, rs: Seq<Tag<Type>>) -> Labels
    decreases ls, 0nat,
{
    if ls.len() == 0 || rs.len() == 0 {
        Seq::empty()
    } else if erase(*ls[0].item) != erase(*rs[0].item) {
        shape_labels(ls[0], rs[0])
    } else {
        pair_labels(ls.drop_first(), rs.drop_first())
    }
}

/// Succeeds exactly when the two lists have the same length.
pub fn len_eq<A, B>(left: &_Vec<A>, right: &_Vec<B>) -> (r: Result<()>)
    ensures
        r is Ok <==> left.item@.len() == right.item@.len(),
        r matches Err(e) ==> e.message() == count_mismatch(),
        r matches Err(e) ==> e.labels() == len_labels(left.span, left.item@.len(), right.span, right.item@.len())
            && e.notes() == Seq::<Seq<char>>::empty(),
{
    let l_len = left.item.len();
    let r_len = right.item.len();
    if l_len != r_len {
        let mut e1 = String::from_str("expected ");
        push_decimal(&mut e1, r_len as u128);
        let mut e2 = String::from_str("found ");
        push_decimal(&mut e2, l_len as u128);
        return Err(Error::new("count mismatch").label(e1.as_str(), right.span).label(e2.as_str(), left.span));
    }
    Ok(())
}

/// Two types: the same base type, or functions with the same parameter and result types.
fn type_eq(left: &_Type, right: &_Type) -> (r: Result<()>)
    ensures
        r is Ok <==> erase(*left.item) == erase(*right.item),
        r matches Err(e) ==> eq_msg(erase(*left.item), erase(*right.item)) == Some(e.message()),
        r matches Err(e) ==> (eq_labels(erase(*left.item), left.span, erase(*right.item), right.span) matches Some(ls)
            ==> e.labels() == ls),
        r matches Err(e) ==> e.labels() == shape_labels(*left, *right),
    decreases *left.item,
{
    match (&*left.item, &*right.item) {
        (Type::Unit, Type::Unit) | (Type::Bool, Type::Bool) | (Type::I64, Type::I64) => Ok(()),
        (Type::Fun(l_args, l_ret), Type::Fun(r_args, r_ret)) => {
            let c = len_eq(l_args, r_args);
            if c.is_err() {
                proof {
                    lemma_erase_all_len(l_args.item@);
                    lemma_erase_all_len(r_args.item@);
                }
                return c;
            }
            let n = l_args.item.len();
            let mut i: usize = 0;
            let ghost fa = erase_all(l_args.item@);
            let ghost ea = erase_all(r_args.item@);
            proof {
                lemma_erase_all_len(l_args.item@);
                lemma_erase_all_len(r_args.item@);
                assert(fa.skip(0) =~= fa);
                assert(ea.skip(0) =~= ea);
                assert(l_args.item@.skip(0) =~= l_args.item@);
                assert(r_args.item@.skip(0) =~= r_args.item@);
            }
            while i < n
                invariant
                    n == l_args.item@.len(),
                    n == r_args.item@.len(),
                    *left.item == Type::Fun(*l_args, *l_ret),
                    *right.item == Type::Fun(*r_args, *r_ret),
                    i <= n,
                    forall|j: int| 0 <= j < i ==> erase(*#[trigger] l_args.item@[j].item) == erase(*r_args.item@[j].item),
                    fa == erase_all(l_args.item@),
                    ea == erase_all(r_args.item@),
                    fa.len() == n,
                    ea.len() == n,
                    args_msg(fa, ea) == args_msg(fa.skip(i as int), ea.skip(i as int)),
                    pair_labels(l_args.item@, r_args.item@) == pair_labels(l_args.item@.skip(i as int), r_args.item@.skip(i as int)),
                decreases n - i,
            {
                proof {
                    let ls = l_args.item@.skip(i as int);
                    let rs = r_args.item@.skip(i as int);
                    assert(ls[0] == l_args.item@[i as int]);
                    assert(rs[0] == r_args.item@[i as int]);
                    assert(ls.drop_first() =~= l_args.item@.skip(i + 1));
                    assert(rs.drop_first() =~= r_args.item@.skip(i + 1));
                }
                proof {
                    lemma_erase_all_index(l_args.item@, i as int);
                    lemma_erase_all_index(r_args.item@, i as int);
                    assert(fa.skip(i as int)[0] == fa[i as int]);
                    assert(ea.skip(i as int)[0] == ea[i as int]);
                    assert(fa.skip(i as int).drop_first() =~= fa.skip(i + 1));
                    assert(ea.skip(i as int).drop_first() =~= ea.skip(i + 1));
                    lemma_eq_msg(fa[i as int], ea[i as int]);
                }
                proof {
                    assert(decreases_to!(*left.item => left.item->Fun_0));
                    assert(decreases_to!(left.item->Fun_0 => left.item->Fun_0.item));
                    assert(decreases_to!(left.item->Fun_0.item => left.item->Fun_0.item@));
                    assert(decreases_to!(left.item->Fun_0.item@ => left.item->Fun_0.item@[i as int]));
                }
                let a = type_eq(&l_args.item[i], &r_args.item[i]);
                if a.is_err() {
                    proof {
                        lemma_erase_all_index(l_args.item@, i as int);
                        lemma_erase_all_index(r_args.item@, i as int);
                        assert(erase_all(l_args.item@)[i as int] != erase_all(r_args.item@)[i as int]);
                        assert(erase_all(l_args.item@) != erase_all(r_args.item@));
                    }
                    return a;
                }
                i = i + 1;
            }
            proof {
                assert forall|j: int| 0 <= j < n implies erase_all(l_args.item@)[j] == erase_all(r_args.item@)[j] by {
                    lemma_erase_all_index(l_args.item@, j);
                    lemma_erase_all_index(r_args.item@, j);
                }
                lemma_erase_all_len(l_args.item@);
                lemma_erase_all_len(r_args.item@);
                assert(erase_all(l_args.item@) =~= erase_all(r_args.item@));
                assert(fa.skip(n as int) =~= Seq::<crate::ast::Ty>::empty());
            }
            type_eq(l_ret, r_ret)
        },
        _ => {
            let mut exp = String::from_str("expected ");
            right.item.write_into(&mut exp);
            let mut fnd = String::from_str("found ");
            left.item.write_into(&mut fnd);
            Err(Error::new("type mismatch").label(exp.as_str(), right.span).label(fnd.as_str(), left.span))
        },
    }
}

/// Two lists of types: as many, and the same pairwise.
fn list_eq(left: &_Vec<_Type>, right: &_Vec<_Type>) -> (r: Result<()>)
    ensures
        r is Ok <==> erase_all(left.item@) == erase_all(right.item@),
        r matches Err(e) ==> left.mismatch(right) == Some(e.message()),
        r matches Err(e) ==> (left.mismatch_labels(right) matches Some(ls) ==> e.labels() == ls),
        r matches Err(e) ==> e.labels() == left.first_labels(right),
{
    let c = len_eq(left, right);
    if c.is_err() {
        proof {
            lemma_erase_all_len(left.item@);
            lemma_erase_all_len(right.item@);
        }
        return c;
    }
    let n = left.item.len();
    let mut i: usize = 0;
    let ghost fa = erase_all(left.item@);
    let ghost ea = erase_all(right.item@);
    proof {
        lemma_erase_all_len(left.item@);
        lemma_erase_all_len(right.item@);
        assert(fa.skip(0) =~= fa);
        assert(ea.skip(0) =~= ea);
        assert(left.item@.skip(0) =~= left.item@);
        assert(right.item@.skip(0) =~= right.item@);
    }
    while i < n
        invariant
            n == left.item@.len(),
            n == right.item@.len(),
            i <= n,
            forall|j: int| 0 <= j < i ==> erase(*#[trigger] left.item@[j].item) == erase(*right.item@[j].item),
            fa == erase_all(left.item@),
            ea == erase_all(right.item@),
            fa.len() == n,
            ea.len() == n,
            args_msg(fa, ea) == args_msg(fa.skip(i as int), ea.skip(i as int)),
            pair_labels(left.item@, right.item@) == pair_labels(left.item@.skip(i as int), right.item@.skip(i as int)),
        decreases n - i,
    {
        proof {
            let ls = left.item@.skip(i as int);
            let rs = right.item@.skip(i as int);
            assert(ls[0] == left.item@[i as int]);
            assert(rs[0] == right.item@[i as int]);
            assert(ls.drop_first() =~= left.item@.skip(i + 1));
            assert(rs.drop_first() =~= right.item@.skip(i + 1));
        }
        proof {
            lemma_erase_all_index(left.item@, i as int);
            lemma_erase_all_index(right.item@, i as int);
            assert(fa.skip(i as int)[0] == fa[i as int]);
            assert(ea.skip(i as int)[0] == ea[i as int]);
            assert(fa.skip(i as int).drop_first() =~= fa.skip(i + 1));
            assert(ea.skip(i as int).drop_first() =~= ea.skip(i + 1));
            lemma_eq_msg(fa[i as int], ea[i as int]);
        }
        let a = type_eq(&left.item[i], &right.item[i]);
        if a.is_err() {
            proof {
                lemma_erase_all_index(left.item@, i as int);
                lemma_erase_all_index(right.item@, i as int);
                assert(erase_all(left.item@)[i as int] != erase_all(right.item@)[i as int]);
            }
            return a;
        }
        i = i + 1;
    }
    proof {
        assert forall|j: int| 0 <= j < n implies erase_all(left.item@)[j] == erase_all(right.item@)[j] by {
            lemma_erase_all_index(left.item@, j);
            lemma_erase_all_index(right.item@, j);
        }
        lemma_erase_all_len(left.item@);
        lemma_erase_all_len(right.item@);
        assert(erase_all(left.item@) =~= erase_all(right.item@));
    }
    Ok(())
}

} // verus!
