//! What the entries of a merge still owe: the sequence of each entry, and all
//! their items together.

use crate::comparators::sorted_by;
use crate::comparators::Compare;
use crate::kmerge::heap_entry::HeapEntry;
use crate::kmerge::heap_entry::HeapEntryCmp;
use crate::kmerge::ranking::champion;
use crate::kmerge::ranking::lemma_champion_in_range;
use crate::kmerge::ranking::promoted;
use crate::kmerge::ranking::reranked;
use crate::kmerge::scripted::owed;
use crate::polled::Polled;
use vstd::multiset::Multiset;
use vstd::prelude::*;
use vstd::seq_lib::to_multiset_contains;
use vstd::seq_lib::to_multiset_insert;
use vstd::seq_lib::to_multiset_remove;
use vstd::seq_lib::to_multiset_update;

verus! {

/// The sequences that the entries will still give, one for each entry.
pub open spec fn parts<D>(lanes: Seq<HeapEntry<D, Seq<Polled<D>>>>) -> Multiset<Seq<D>> {
    lanes.map_values(|lane: HeapEntry<D, Seq<Polled<D>>>| owed(lane)).to_multiset()
}

/// All the items that the entries will still give, each as often as it will
/// be given.
pub open spec fn owed_items<D>(lanes: Seq<HeapEntry<D, Seq<Polled<D>>>>) -> Multiset<D> {
    union_of(lanes.map_values(|lane: HeapEntry<D, Seq<Polled<D>>>| owed(lane).to_multiset()))
}

/// The sum of the multisets in `bags`.
pub open spec fn union_of<D>(bags: Seq<Multiset<D>>) -> Multiset<D>
    decreases bags.len(),
{
    if bags.len() == 0 {
        Multiset::empty()
    } else {
        union_of(bags.drop_last()).add(bags.last())
    }
}

/// What every entry will still give is sorted.
pub open spec fn lanes_sorted<D, C: Compare<D>>(
    c: &C,
    lanes: Seq<HeapEntry<D, Seq<Polled<D>>>>,
) -> bool {
    forall|i: int| 0 <= i < lanes.len() ==> sorted_by(c, owed(#[trigger] lanes[i]))
}

/// Each part belongs to an entry.
pub proof fn lemma_parts_member<D>(lanes: Seq<HeapEntry<D, Seq<Polled<D>>>>, p: Seq<D>)
    requires
        parts(lanes).contains(p),
    ensures
        exists|i: int| 0 <= i < lanes.len() && owed(#[trigger] lanes[i]) == p,
{
    let each = lanes.map_values(|lane: HeapEntry<D, Seq<Polled<D>>>| owed(lane));
    to_multiset_contains(each, p);
    let i = choose|i: int| 0 <= i < each.len() && each[i] == p;
    assert(owed(lanes[i]) == p);
}

/// Each entry has its part.
pub proof fn lemma_parts_has<D>(lanes: Seq<HeapEntry<D, Seq<Polled<D>>>>, i: int)
    requires
        0 <= i < lanes.len(),
    ensures
        parts(lanes).contains(owed(lanes[i])),
{
    let each = lanes.map_values(|lane: HeapEntry<D, Seq<Polled<D>>>| owed(lane));
    to_multiset_contains(each, owed(lanes[i]));
    assert(each[i] == owed(lanes[i]));
}

/// The parts after an entry has been put in place of another.
pub proof fn lemma_parts_update<D>(
    lanes: Seq<HeapEntry<D, Seq<Polled<D>>>>,
    i: int,
    lane: HeapEntry<D, Seq<Polled<D>>>,
)
    requires
        0 <= i < lanes.len(),
    ensures
        parts(lanes.update(i, lane)) == parts(lanes).remove(owed(lanes[i])).insert(owed(lane)),
{
    let f = |lane: HeapEntry<D, Seq<Polled<D>>>| owed(lane);
    let each = lanes.map_values(f);
    to_multiset_update(each, i, owed(lane));
    lemma_parts_has(lanes, i);
    assert(lanes.update(i, lane).map_values(f) =~= each.update(i, owed(lane)));
    assert(parts(lanes).insert(owed(lane)).remove(owed(lanes[i])) =~= parts(lanes).remove(
        owed(lanes[i]),
    ).insert(owed(lane)));
}

/// The parts after an entry has left.
pub proof fn lemma_parts_remove<D>(lanes: Seq<HeapEntry<D, Seq<Polled<D>>>>, i: int)
    requires
        0 <= i < lanes.len(),
    ensures
        parts(lanes.remove(i)) == parts(lanes).remove(owed(lanes[i])),
{
    let f = |lane: HeapEntry<D, Seq<Polled<D>>>| owed(lane);
    let each = lanes.map_values(f);
    to_multiset_remove(each, i);
    assert(lanes.remove(i).map_values(f) =~= each.remove(i));
}

/// The parts after an entry has entered.
pub proof fn lemma_parts_insert<D>(
    lanes: Seq<HeapEntry<D, Seq<Polled<D>>>>,
    i: int,
    lane: HeapEntry<D, Seq<Polled<D>>>,
)
    requires
        0 <= i <= lanes.len(),
    ensures
        parts(lanes.insert(i, lane)) == parts(lanes).insert(owed(lane)),
{
    let f = |lane: HeapEntry<D, Seq<Polled<D>>>| owed(lane);
    let each = lanes.map_values(f);
    to_multiset_insert(each, i, owed(lane));
    assert(lanes.insert(i, lane).map_values(f) =~= each.insert(i, owed(lane)));
}

/// Ranking anew keeps the parts, and keeps them sorted.
pub proof fn lemma_reranked_keeps_parts<D, C: Compare<D>>(
    k: &HeapEntryCmp<D, C>,
    lanes: Seq<HeapEntry<D, Seq<Polled<D>>>>,
)
    ensures
        parts(reranked(k, lanes)) == parts(lanes),
        lanes_sorted(&k.items(), lanes) ==> lanes_sorted(&k.items(), reranked(k, lanes)),
{
    if lanes.len() > 0 {
        let c = champion(k, lanes);
        lemma_champion_in_range(k, lanes);
        lemma_parts_remove(lanes, c);
        lemma_parts_insert(lanes.remove(c), 0, lanes[c]);
        lemma_parts_has(lanes, c);
        assert(parts(lanes).remove(owed(lanes[c])).insert(owed(lanes[c])) =~= parts(lanes));
        let r = reranked(k, lanes);
        if lanes_sorted(&k.items(), lanes) {
            assert forall|i: int| 0 <= i < r.len() implies sorted_by(
                &k.items(),
                owed(#[trigger] r[i]),
            ) by {
                if i == 0 {
                    assert(r[i] == lanes[c]);
                } else if i <= c {
                    assert(r[i] == lanes[i - 1]);
                } else {
                    assert(r[i] == lanes[i]);
                }
            }
        }
    }
}

/// A multiset that enters a sequence adds to its sum.
pub proof fn lemma_union_insert<D>(bags: Seq<Multiset<D>>, i: int, bag: Multiset<D>)
    requires
        0 <= i <= bags.len(),
    ensures
        union_of(bags.insert(i, bag)) == union_of(bags).add(bag),
    decreases bags.len(),
{
    let grown = bags.insert(i, bag);
    if i == bags.len() {
        assert(grown.drop_last() =~= bags);
    } else {
        lemma_union_insert(bags.drop_last(), i, bag);
        assert(grown.drop_last() =~= bags.drop_last().insert(i, bag));
        assert(union_of(bags.drop_last()).add(bag).add(bags.last()) =~= union_of(
            bags.drop_last(),
        ).add(bags.last()).add(bag));
    }
}

/// A multiset that leaves a sequence is taken from its sum.
pub proof fn lemma_union_remove<D>(bags: Seq<Multiset<D>>, i: int)
    requires
        0 <= i < bags.len(),
    ensures
        union_of(bags.remove(i)).add(bags[i]) == union_of(bags),
{
    lemma_union_insert(bags.remove(i), i, bags[i]);
    assert(bags.remove(i).insert(i, bags[i]) =~= bags);
}

/// Equal multisets stay equal when the same multiset is taken from both.
pub proof fn lemma_cancel<D>(a: Multiset<D>, b: Multiset<D>, x: Multiset<D>)
    requires
        a.add(x) == b.add(x),
    ensures
        a == b,
{
    assert forall|v: D| a.count(v) == b.count(v) by {
        assert(a.add(x).count(v) == a.count(v) + x.count(v));
        assert(b.add(x).count(v) == b.count(v) + x.count(v));
    }
    assert(a =~= b);
}

/// The items that are owed after an entry has been put in place of another.
pub proof fn lemma_owed_items_update<D>(
    lanes: Seq<HeapEntry<D, Seq<Polled<D>>>>,
    i: int,
    lane: HeapEntry<D, Seq<Polled<D>>>,
)
    requires
        0 <= i < lanes.len(),
    ensures
        owed_items(lanes.update(i, lane)).add(owed(lanes[i]).to_multiset()) == owed_items(
            lanes,
        ).add(owed(lane).to_multiset()),
{
    let f = |lane: HeapEntry<D, Seq<Polled<D>>>| owed(lane).to_multiset();
    let bags = lanes.map_values(f);
    lemma_union_remove(bags, i);
    lemma_union_insert(bags.remove(i), i, f(lane));
    assert(lanes.update(i, lane).map_values(f) =~= bags.remove(i).insert(i, f(lane)));
    assert(union_of(bags.remove(i)).add(f(lane)).add(bags[i]) =~= union_of(bags.remove(i)).add(
        bags[i],
    ).add(f(lane)));
}

/// The items that are owed after an entry has left.
pub proof fn lemma_owed_items_remove<D>(lanes: Seq<HeapEntry<D, Seq<Polled<D>>>>, i: int)
    requires
        0 <= i < lanes.len(),
    ensures
        owed_items(lanes.remove(i)).add(owed(lanes[i]).to_multiset()) == owed_items(lanes),
{
    let f = |lane: HeapEntry<D, Seq<Polled<D>>>| owed(lane).to_multiset();
    let bags = lanes.map_values(f);
    lemma_union_remove(bags, i);
    assert(lanes.remove(i).map_values(f) =~= bags.remove(i));
}

/// Ranking anew moves entries and changes none, so the same items are owed.
pub proof fn lemma_owed_items_reranked<D, C: Compare<D>>(
    k: &HeapEntryCmp<D, C>,
    lanes: Seq<HeapEntry<D, Seq<Polled<D>>>>,
)
    ensures
        owed_items(reranked(k, lanes)) == owed_items(lanes),
{
    if lanes.len() > 0 {
        let c = champion(k, lanes);
        lemma_champion_in_range(k, lanes);
        let f = |lane: HeapEntry<D, Seq<Polled<D>>>| owed(lane).to_multiset();
        let bags = lanes.map_values(f);
        lemma_union_remove(bags, c);
        lemma_union_insert(bags.remove(c), 0, bags[c]);
        assert(promoted(lanes, c).map_values(f) =~= bags.remove(c).insert(0, bags[c]));
    }
}

} // verus!
