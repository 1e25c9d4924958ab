//! Orderings that decide which of two items a merge hands out first.

use std::cmp::Ordering;
use vstd::laws_cmp::obeys_cmp;
use vstd::laws_cmp::obeys_cmp_ord;
use vstd::laws_cmp::obeys_cmp_partial_ord;
use vstd::laws_cmp::obeys_partial_cmp_spec_properties;
use vstd::laws_eq::obeys_eq_spec_properties;
use vstd::prelude::*;
use vstd::std_specs::cmp::OrdSpec;
use vstd::std_specs::cmp::PartialEqSpec;
use vstd::std_specs::cmp::PartialOrdSpec;

verus! {

/// A three-way comparison of two items.
///
/// The answer `Greater` for `l` against `r` means that `l` is chosen before
/// `r`. A comparator is a total function: it accepts every pair, and what it
/// answers for a pair depends on that pair alone.
pub trait Compare<T> {
    /// Holds of a pair with which the comparator may be called and for which
    /// it answers `ordering` of that pair. A comparator of which nothing is
    /// stated accepts no pair.
    open spec fn accepts(&self, l: T, r: T) -> bool {
        false
    }

    /// What the comparator answers for `l` against `r`.
    open spec fn ordering(&self, l: T, r: T) -> Ordering {
        Ordering::Equal
    }

    /// Compare `l` against `r`.
    fn compare(&self, l: &T, r: &T) -> (o: Ordering)
        requires
            self.accepts(*l, *r),
        ensures
            o == self.ordering(*l, *r),
    ;
}

/// The comparator accepts every pair: it is a total function.
pub open spec fn obeys<T, C: Compare<T>>(c: &C) -> bool {
    forall|l: T, r: T| #[trigger] c.accepts(l, r)
}

/// `a` is chosen strictly before `b` under `c`.
pub open spec fn outranks<T, C: Compare<T>>(c: &C, a: T, b: T) -> bool {
    c.ordering(a, b) == Ordering::Greater
}

/// The orderings under which a merge of sorted inputs is sorted.
///
/// An item that is chosen strictly before another is answered `Less` when the
/// two are compared the other way round, and "is not chosen strictly before"
/// is transitive. Together they make that relation a total preorder. The
/// comparison of an item with an equal-ranked one may answer anything but
/// `Greater`.
pub open spec fn consistent<T, C: Compare<T>>(c: &C) -> bool {
    &&& forall|a: T, b: T| #[trigger]
        c.ordering(a, b) == Ordering::Greater ==> c.ordering(b, a) == Ordering::Less
    &&& forall|a: T, b: T, d: T|
        #[trigger] c.ordering(a, b) != Ordering::Greater && #[trigger] c.ordering(b, d)
            != Ordering::Greater ==> c.ordering(a, d) != Ordering::Greater
}

/// No item of `s` is chosen strictly before an item that stands earlier in `s`.
pub open spec fn sorted_by<T, C: Compare<T>>(c: &C, s: Seq<T>) -> bool {
    forall|i: int, j: int| 0 <= i < j < s.len() ==> !outranks(c, #[trigger] s[j], #[trigger] s[i])
}

/// Sort merge in descending order
pub struct Descending;

impl<T> Compare<T> for Descending where T: Ord {
    open spec fn accepts(&self, l: T, r: T) -> bool {
        T::obeys_cmp_spec()
    }

    open spec fn ordering(&self, l: T, r: T) -> Ordering {
        l.cmp_spec(&r)
    }

    fn compare(&self, l: &T, r: &T) -> (o: Ordering) {
        l.cmp(r)
    }
}

/// Sort merge in ascending order
pub struct Ascending;

impl<T> Compare<T> for Ascending where T: Ord {
    open spec fn accepts(&self, l: T, r: T) -> bool {
        T::obeys_cmp_spec()
    }

    open spec fn ordering(&self, l: T, r: T) -> Ordering {
        r.cmp_spec(&l)
    }

    fn compare(&self, l: &T, r: &T) -> (o: Ordering) {
        r.cmp(l)
    }
}

/// A wrapper of choosing function `Fn(&D, &D) -> bool` to implement `Compare<D>`.
///
/// The function answers `true` for `(a, b)` when `a` is ordered before `b`.
pub struct FnCmp<F>(pub F);

impl<D, F> Compare<D> for FnCmp<F> where F: Fn(&D, &D) -> bool {
    open spec fn accepts(&self, l: D, r: D) -> bool {
        &&& call_requires(self.0, (&l, &r))
        &&& !(call_ensures(self.0, (&l, &r), true) && call_ensures(self.0, (&l, &r), false))
    }

    open spec fn ordering(&self, l: D, r: D) -> Ordering {
        if call_ensures(self.0, (&l, &r), true) {
            Ordering::Greater
        } else {
            Ordering::Less
        }
    }

    fn compare(&self, l: &D, r: &D) -> (o: Ordering) {
        if (self.0)(l, r) {
            Ordering::Greater
        } else {
            Ordering::Less
        }
    }
}

/// A choosing function that may be called with every pair, and that has one
/// answer for each pair, makes a comparator that accepts every pair.
pub proof fn lemma_fn_cmp_obeys<D, F: Fn(&D, &D) -> bool>(c: &FnCmp<F>)
    requires
        forall|l: D, r: D| #[trigger] call_requires(c.0, (&l, &r)),
        forall|l: D, r: D|
            !(#[trigger] call_ensures(c.0, (&l, &r), true) && call_ensures(c.0, (&l, &r), false)),
    ensures
        obeys::<D, FnCmp<F>>(c),
{
    assert forall|l: D, r: D| #[trigger] c.accepts(l, r) by {
        assert(call_requires(c.0, (&l, &r)));
        assert(!(call_ensures(c.0, (&l, &r), true) && call_ensures(c.0, (&l, &r), false)));
    }
}

/// What a comparator made of a choosing function answers: `Greater` where the
/// function may answer `true`, and `Less` everywhere else; so `Less` for an
/// accepted pair for which the function may answer `false`.
pub proof fn lemma_fn_cmp_ordering<D, F: Fn(&D, &D) -> bool>(c: &FnCmp<F>, l: D, r: D)
    ensures
        call_ensures(c.0, (&l, &r), true) ==> c.ordering(l, r) == Ordering::Greater,
        !call_ensures(c.0, (&l, &r), true) ==> c.ordering(l, r) == Ordering::Less,
        c.accepts(l, r) && call_ensures(c.0, (&l, &r), false) ==> c.ordering(l, r)
            == Ordering::Less,
        c.accepts(l, r) <==> call_requires(c.0, (&l, &r)) && !(call_ensures(c.0, (&l, &r), true)
            && call_ensures(c.0, (&l, &r), false)),
{
}

/// The natural orders accept every pair of a type whose `Ord` is specified.
pub proof fn lemma_natural_orders_obey<T: Ord>()
    requires
        T::obeys_cmp_spec(),
    ensures
        obeys::<T, Descending>(&Descending),
        obeys::<T, Ascending>(&Ascending),
{
    assert forall|l: T, r: T| #[trigger] Compare::<T>::accepts(&Descending, l, r) by {}
    assert forall|l: T, r: T| #[trigger] Compare::<T>::accepts(&Ascending, l, r) by {}
}

/// The natural order of a type whose `Ord` keeps the laws of a total order is
/// consistent in both directions.
pub proof fn lemma_natural_orders_consistent<T: Ord>()
    requires
        obeys_cmp::<T>(),
    ensures
        consistent::<T, Descending>(&Descending),
        consistent::<T, Ascending>(&Ascending),
{
    reveal(obeys_eq_spec_properties);
    reveal(obeys_cmp_ord);
    reveal(obeys_cmp_partial_ord);
    reveal(obeys_partial_cmp_spec_properties);
    assert forall|a: T, b: T| #[trigger] a.cmp_spec(&b) == Ordering::Greater implies b.cmp_spec(&a)
        == Ordering::Less by {
        assert(a.partial_cmp_spec(&b) == Some(a.cmp_spec(&b)));
        assert(b.partial_cmp_spec(&a) == Some(b.cmp_spec(&a)));
    }
    assert forall|a: T, b: T, d: T|
        #[trigger] a.cmp_spec(&b) != Ordering::Greater && #[trigger] b.cmp_spec(&d)
            != Ordering::Greater implies a.cmp_spec(&d) != Ordering::Greater by {
        assert(a.partial_cmp_spec(&b) == Some(a.cmp_spec(&b)));
        assert(b.partial_cmp_spec(&d) == Some(b.cmp_spec(&d)));
        assert(a.partial_cmp_spec(&d) == Some(a.cmp_spec(&d)));
        assert(d.partial_cmp_spec(&a) == Some(d.cmp_spec(&a)));
        assert(b.partial_cmp_spec(&a) == Some(b.cmp_spec(&a)));
        assert(d.partial_cmp_spec(&b) == Some(d.cmp_spec(&b)));
        if a.cmp_spec(&d) == Ordering::Greater {
            assert(d.partial_cmp_spec(&a) == Some(Ordering::Less));
            if a.cmp_spec(&b) == Ordering::Less {
                assert(d.partial_cmp_spec(&b) == Some(Ordering::Less));
            } else if b.cmp_spec(&d) == Ordering::Less {
                assert(b.partial_cmp_spec(&a) == Some(Ordering::Less));
            } else {
                assert(a.eq_spec(&b) && b.eq_spec(&d));
                assert(a.eq_spec(&d));
            }
        }
    }
    assert forall|a: T, b: T, d: T|
        #[trigger] Ascending.ordering(a, b) != Ordering::Greater && #[trigger] Ascending.ordering(
            b,
            d,
        ) != Ordering::Greater implies Ascending.ordering(a, d) != Ordering::Greater by {
        assert(d.cmp_spec(&b) != Ordering::Greater && b.cmp_spec(&a) != Ordering::Greater);
    }
}

/// A choosing function that is a strict weak order makes a consistent
/// comparator: it never puts two items before each other, and "is not ordered
/// before" is transitive.
pub proof fn lemma_fn_cmp_consistent<D, F: Fn(&D, &D) -> bool>(c: &FnCmp<F>)
    requires
        forall|a: D, b: D|
            #![trigger call_ensures(c.0, (&a, &b), true)]
            call_ensures(c.0, (&a, &b), true) ==> !call_ensures(c.0, (&b, &a), true),
        forall|a: D, b: D, d: D|
            !(#[trigger] call_ensures(c.0, (&a, &b), true)) && !(#[trigger] call_ensures(
                c.0,
                (&b, &d),
                true,
            )) ==> !call_ensures(c.0, (&a, &d), true),
    ensures
        consistent::<D, FnCmp<F>>(c),
{
}

} // verus!
