//! What it means that one sequence is an interleaving of several others.

use vstd::multiset::Multiset;
use vstd::prelude::*;

verus! {

/// `out` is an interleaving of the sequences in `parts`: it takes every item
/// of every part exactly once, and the items of each part in their order.
///
/// Step by step: the first item of `out` is the first item of some part, and
/// the rest of `out` interleaves the parts with that item taken off. At the
/// end of `out` nothing is left in any part.
pub open spec fn interleaves<D>(out: Seq<D>, parts: Multiset<Seq<D>>) -> bool
    decreases out.len(),
{
    if out.len() == 0 {
        forall|p: Seq<D>| #[trigger] parts.contains(p) ==> p.len() == 0
    } else {
        exists|p: Seq<D>|
            #[trigger] parts.contains(p) && p.len() > 0 && p[0] == out[0] && interleaves(
                out.drop_first(),
                parts.remove(p).insert(p.drop_first()),
            )
    }
}

/// The part from which an interleaving takes its first item.
pub open spec fn first_part<D>(out: Seq<D>, parts: Multiset<Seq<D>>) -> Seq<D> {
    choose|p: Seq<D>|
        #[trigger] parts.contains(p) && p.len() > 0 && p[0] == out[0] && interleaves(
            out.drop_first(),
            parts.remove(p).insert(p.drop_first()),
        )
}

/// A part without items changes nothing.
pub proof fn lemma_interleaves_with_empty_part<D>(out: Seq<D>, parts: Multiset<Seq<D>>)
    requires
        interleaves(out, parts),
    ensures
        interleaves(out, parts.insert(Seq::<D>::empty())),
    decreases out.len(),
{
    let e = Seq::<D>::empty();
    let more = parts.insert(e);
    if out.len() == 0 {
        assert forall|p: Seq<D>| #[trigger] more.contains(p) implies p.len() == 0 by {
            if p != e {
                assert(parts.contains(p));
            }
        }
    } else {
        let p = first_part(out, parts);
        let left = parts.remove(p).insert(p.drop_first());
        lemma_interleaves_with_empty_part(out.drop_first(), left);
        assert(more.remove(p).insert(p.drop_first()) =~= left.insert(e));
        assert(more.contains(p));
    }
}

/// What holds of every item of every part holds of every item of an
/// interleaving.
pub proof fn lemma_interleaves_members<D>(
    out: Seq<D>,
    parts: Multiset<Seq<D>>,
    good: spec_fn(D) -> bool,
)
    requires
        interleaves(out, parts),
        forall|p: Seq<D>, i: int| #[trigger]
            parts.contains(p) && 0 <= i < p.len() ==> good(#[trigger] p[i]),
    ensures
        forall|j: int| 0 <= j < out.len() ==> good(#[trigger] out[j]),
    decreases out.len(),
{
    if out.len() > 0 {
        let p = first_part(out, parts);
        let left = parts.remove(p).insert(p.drop_first());
        assert forall|q: Seq<D>, i: int| #[trigger]
            left.contains(q) && 0 <= i < q.len() implies good(#[trigger] q[i]) by {
            if q == p.drop_first() {
                assert(q[i] == p[i + 1]);
            } else {
                assert(parts.contains(q));
            }
        }
        lemma_interleaves_members(out.drop_first(), left, good);
        assert forall|j: int| 0 <= j < out.len() implies good(#[trigger] out[j]) by {
            if j == 0 {
                assert(good(p[0]));
            } else {
                assert(out[j] == out.drop_first()[j - 1]);
            }
        }
    }
}

} // verus!
