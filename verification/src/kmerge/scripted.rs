//! A merge that is driven against scripted producers until it ends.
//!
//! The driver does what every caller of a merge does: it asks
//! [`ready_step`], and where that gives no answer it polls the producer of
//! the first entry and hands the answer to [`resume_step`]. After "not ready"
//! it simply asks again.

use crate::comparators::Compare;
use crate::kmerge::engine::ready_step;
use crate::kmerge::engine::resume_step;
use crate::kmerge::heap_entry::HeapEntry;
use crate::kmerge::heap_entry::HeapEntryCmp;
use crate::kmerge::ranking::champion;
use crate::kmerge::ranking::lemma_champion_in_range;
use crate::kmerge::ranking::promoted;
use crate::kmerge::ranking::reranked;
use crate::peeked::Peeked;
use crate::polled::Polled;
use crate::script::answer;
use crate::script::items;
use crate::script::rest;
use vstd::prelude::*;

verus! {

/// The items that an entry with a scripted producer will still give: the
/// peeked one, then those of the script.
pub open spec fn owed<D>(lane: HeapEntry<D, Seq<Polled<D>>>) -> Seq<D> {
    match lane.peeked {
        Peeked::Yes(v) => seq![v] + items(lane.stream),
        Peeked::No => items(lane.stream),
    }
}

/// The entries after the producer of the first one has been polled once.
pub open spec fn asked<D>(lanes: Seq<HeapEntry<D, Seq<Polled<D>>>>) -> Seq<
    HeapEntry<D, Seq<Polled<D>>>,
> {
    lanes.update(0, HeapEntry { stream: rest(lanes[0].stream), ..lanes[0] })
}

/// One round of the driver: the entries it leaves and the answer to the
/// caller, if there is one.
pub open spec fn round<D, C: Compare<D>>(
    k: &HeapEntryCmp<D, C>,
    lanes: Seq<HeapEntry<D, Seq<Polled<D>>>>,
) -> (Seq<HeapEntry<D, Seq<Polled<D>>>>, Option<Polled<D>>) {
    let at_once = ready_step(lanes);
    if at_once.1 is Some {
        at_once
    } else {
        resume_step(k, asked(lanes), answer(lanes[0].stream))
    }
}

/// A bound on the rounds that one entry can still take part in.
pub open spec fn lane_weight<D>(lane: HeapEntry<D, Seq<Polled<D>>>) -> nat {
    if lane.peeked is Yes {
        2 * lane.stream.len() + 2
    } else {
        2 * lane.stream.len() + 1
    }
}

/// The sum of the numbers in `w`.
pub open spec fn total(w: Seq<nat>) -> nat
    decreases w.len(),
{
    if w.len() == 0 {
        0
    } else {
        total(w.drop_last()) + w.last()
    }
}

/// A bound on the rounds that are left before the merge ends.
pub open spec fn weight<D>(lanes: Seq<HeapEntry<D, Seq<Polled<D>>>>) -> nat {
    total(lanes.map_values(|lane: HeapEntry<D, Seq<Polled<D>>>| lane_weight(lane)))
}

/// A number that enters a sequence adds to its sum.
pub proof fn lemma_total_insert(w: Seq<nat>, i: int, x: nat)
    requires
        0 <= i <= w.len(),
    ensures
        total(w.insert(i, x)) == total(w) + x,
    decreases w.len(),
{
    let grown = w.insert(i, x);
    if i == w.len() {
        assert(grown.drop_last() =~= w);
    } else {
        lemma_total_insert(w.drop_last(), i, x);
        assert(grown.drop_last() =~= w.drop_last().insert(i, x));
    }
}

/// A number that leaves a sequence is taken from its sum.
pub proof fn lemma_total_remove(w: Seq<nat>, i: int)
    requires
        0 <= i < w.len(),
    ensures
        total(w.remove(i)) + w[i] == total(w),
{
    lemma_total_insert(w.remove(i), i, w[i]);
    assert(w.remove(i).insert(i, w[i]) =~= w);
}

/// The weight after an entry has been put in place of another.
pub proof fn lemma_weight_update<D>(
    lanes: Seq<HeapEntry<D, Seq<Polled<D>>>>,
    i: int,
    lane: HeapEntry<D, Seq<Polled<D>>>,
)
    requires
        0 <= i < lanes.len(),
    ensures
        weight(lanes.update(i, lane)) + lane_weight(lanes[i]) == weight(lanes) + lane_weight(lane),
{
    let f = |lane: HeapEntry<D, Seq<Polled<D>>>| lane_weight(lane);
    let w = lanes.map_values(f);
    lemma_total_remove(w, i);
    lemma_total_insert(w.remove(i), i, lane_weight(lane));
    assert(lanes.update(i, lane).map_values(f) =~= w.remove(i).insert(i, lane_weight(lane)));
}

/// The weight after an entry has left.
pub proof fn lemma_weight_remove<D>(lanes: Seq<HeapEntry<D, Seq<Polled<D>>>>, i: int)
    requires
        0 <= i < lanes.len(),
    ensures
        weight(lanes.remove(i)) + lane_weight(lanes[i]) == weight(lanes),
{
    let f = |lane: HeapEntry<D, Seq<Polled<D>>>| lane_weight(lane);
    let w = lanes.map_values(f);
    lemma_total_remove(w, i);
    assert(lanes.remove(i).map_values(f) =~= w.remove(i));
}

/// Ranking anew moves entries and changes none, so the weight stays.
pub proof fn lemma_weight_reranked<D, C: Compare<D>>(
    k: &HeapEntryCmp<D, C>,
    lanes: Seq<HeapEntry<D, Seq<Polled<D>>>>,
)
    ensures
        weight(reranked(k, lanes)) == weight(lanes),
{
    if lanes.len() > 0 {
        let c = champion(k, lanes);
        lemma_champion_in_range(k, lanes);
        let f = |lane: HeapEntry<D, Seq<Polled<D>>>| lane_weight(lane);
        let w = lanes.map_values(f);
        lemma_total_remove(w, c);
        lemma_total_insert(w.remove(c), 0, w[c]);
        assert(promoted(lanes, c).map_values(f) =~= w.remove(c).insert(0, w[c]));
    }
}

/// Every round that does not end the merge brings it nearer to its end.
pub proof fn lemma_round_shrinks<D, C: Compare<D>>(
    k: &HeapEntryCmp<D, C>,
    lanes: Seq<HeapEntry<D, Seq<Polled<D>>>>,
)
    ensures
        round(k, lanes).1 != Some(Polled::<D>::End) ==> weight(round(k, lanes).0) < weight(lanes),
        round(k, lanes).1 == Some(Polled::<D>::End) <==> lanes.len() == 0,
{
    if lanes.len() > 0 {
        match lanes[0].peeked {
            Peeked::Yes(v) => {
                lemma_weight_update(lanes, 0, HeapEntry { peeked: Peeked::No, ..lanes[0] });
            },
            Peeked::No => {
                let polled = lanes.update(0, HeapEntry { stream: rest(lanes[0].stream), ..lanes[0] });
                lemma_weight_update(lanes, 0, polled[0]);
                match answer(lanes[0].stream) {
                    Polled::Pending => {},
                    Polled::Item(t) => {
                        let filled = polled.update(
                            0,
                            HeapEntry { peeked: Peeked::Yes(t), ..polled[0] },
                        );
                        lemma_weight_update(polled, 0, filled[0]);
                        lemma_weight_reranked(k, filled);
                    },
                    Polled::End => {
                        lemma_weight_remove(polled, 0);
                        lemma_weight_reranked(k, polled.remove(0));
                    },
                }
            },
        }
    }
}

/// The items that the merge hands out, in their order, until it ends.
pub open spec fn drained<D, C: Compare<D>>(
    k: &HeapEntryCmp<D, C>,
    lanes: Seq<HeapEntry<D, Seq<Polled<D>>>>,
) -> Seq<D>
    decreases weight(lanes),
    via drained_terminates::<D, C>
{
    let after = round(k, lanes);
    match after.1 {
        Some(Polled::End) => Seq::empty(),
        Some(Polled::Item(v)) => seq![v] + drained(k, after.0),
        _ => drained(k, after.0),
    }
}

#[via_fn]
proof fn drained_terminates<D, C: Compare<D>>(
    k: &HeapEntryCmp<D, C>,
    lanes: Seq<HeapEntry<D, Seq<Polled<D>>>>,
) {
    lemma_round_shrinks(k, lanes);
}

} // verus!
