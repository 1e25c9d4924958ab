//! What a merge hands out, proved of every merge that is driven to its end.

use crate::comparators::consistent;
use crate::comparators::sorted_by;
use crate::comparators::Compare;
use crate::interleave::interleaves;
use crate::interleave::lemma_interleaves_members;
use crate::interleave::lemma_interleaves_with_empty_part;
use crate::kmerge::engine::ready_step;
use crate::kmerge::engine::resume_step;
use crate::kmerge::heap_entry::lemma_entry_order_consistent;
use crate::kmerge::heap_entry::HeapEntry;
use crate::kmerge::heap_entry::HeapEntryCmp;
use crate::kmerge::parts::lanes_sorted;
use crate::kmerge::parts::lemma_cancel;
use crate::kmerge::parts::lemma_owed_items_remove;
use crate::kmerge::parts::lemma_owed_items_reranked;
use crate::kmerge::parts::lemma_owed_items_update;
use crate::kmerge::parts::lemma_parts_has;
use crate::kmerge::parts::lemma_parts_insert;
use crate::kmerge::parts::lemma_parts_member;
use crate::kmerge::parts::lemma_parts_remove;
use crate::kmerge::parts::lemma_parts_update;
use crate::kmerge::parts::lemma_reranked_keeps_parts;
use crate::kmerge::parts::owed_items;
use crate::kmerge::parts::parts;
use crate::kmerge::ranking::attached;
use crate::kmerge::ranking::champion;
use crate::kmerge::ranking::enters_first;
use crate::kmerge::ranking::lemma_attached_unrivalled;
use crate::kmerge::ranking::lemma_champion_in_range;
use crate::kmerge::ranking::lemma_reranked_unrivalled;
use crate::kmerge::ranking::reranked;
use crate::kmerge::ranking::unrivalled;
use crate::kmerge::scripted::asked;
use crate::kmerge::scripted::drained;
use crate::kmerge::scripted::lemma_round_shrinks;
use crate::kmerge::scripted::owed;
use crate::kmerge::scripted::round;
use crate::kmerge::scripted::weight;
use crate::peeked::Peeked;
use crate::polled::Polled;
use crate::script::answer;
use crate::script::calm;
use crate::script::items;
use crate::script::lemma_calm_unfolds;
use crate::script::rest;
use std::cmp::Ordering;
use vstd::multiset::Multiset;
use vstd::prelude::*;
use vstd::relations::total_ordering;
use vstd::seq_lib::lemma_sorted_unique;
use vstd::seq_lib::to_multiset_contains;
use vstd::seq_lib::to_multiset_insert;
use vstd::seq_lib::to_multiset_remove;

verus! {

/// A merge of no producer is at its end at once.
pub proof fn lemma_merge_of_nothing<D, C: Compare<D>>(k: &HeapEntryCmp<D, C>)
    ensures
        ready_step(Seq::<HeapEntry<D, Seq<Polled<D>>>>::empty()).1 == Some(Polled::<D>::End),
        drained(k, Seq::<HeapEntry<D, Seq<Polled<D>>>>::empty()) == Seq::<D>::empty(),
{
}

/// A merge of one producer hands out the items of that producer, in their
/// order, whatever the order of the merge is and whether or not the items are
/// sorted.
pub proof fn lemma_merge_of_one<D, C: Compare<D>>(
    k: &HeapEntryCmp<D, C>,
    lane: HeapEntry<D, Seq<Polled<D>>>,
)
    ensures
        drained(k, seq![lane]) == owed(lane),
    decreases weight(seq![lane]),
{
    let lanes = seq![lane];
    lemma_round_shrinks(k, lanes);
    let after = round(k, lanes);
    match lane.peeked {
        Peeked::Yes(v) => {
            let emptied = HeapEntry { peeked: Peeked::No, ..lane };
            assert(after.0 =~= seq![emptied]);
            lemma_merge_of_one(k, emptied);
            assert(drained(k, lanes) == seq![v] + drained(k, after.0));
            assert(drained(k, lanes) =~= owed(lane));
        },
        Peeked::No => {
            let polled = HeapEntry { stream: rest(lane.stream), ..lane };
            assert(asked(lanes) =~= seq![polled]);
            match answer(lane.stream) {
                Polled::Pending => {
                    lemma_merge_of_one(k, polled);
                    assert(drained(k, lanes) =~= owed(lane));
                },
                Polled::Item(t) => {
                    let filled = HeapEntry { peeked: Peeked::Yes(t), ..polled };
                    assert(seq![polled].update(0, filled) =~= seq![filled]);
                    assert(reranked(k, seq![filled]) =~= seq![filled]);
                    lemma_merge_of_one(k, filled);
                    assert(drained(k, lanes) =~= owed(lane));
                },
                Polled::End => {
                    let none = Seq::<HeapEntry<D, Seq<Polled<D>>>>::empty();
                    assert(seq![polled].remove(0) =~= none);
                    assert(reranked(k, none) =~= none);
                    assert(owed(lane) =~= Seq::<D>::empty());
                    assert(drained(k, none) =~= Seq::<D>::empty());
                    assert(drained(k, lanes) =~= owed(lane));
                },
            }
        },
    }
}

/// A merge that is driven to its end hands out every item that its
/// producers give, each as often as it is given, and nothing else. This holds
/// under every order, and whether or not the producers are sorted.
pub proof fn lemma_merge_hands_out_every_item<D, C: Compare<D>>(
    k: &HeapEntryCmp<D, C>,
    lanes: Seq<HeapEntry<D, Seq<Polled<D>>>>,
)
    ensures
        drained(k, lanes).to_multiset() == owed_items(lanes),
    decreases weight(lanes),
{
    lemma_round_shrinks(k, lanes);
    let next = round(k, lanes).0;
    let out = drained(k, lanes);
    if lanes.len() == 0 {
        assert(out.to_multiset() =~= Multiset::<D>::empty()) by {
            vstd::seq_lib::to_multiset_len(out);
        }
        assert(lanes.map_values(|lane: HeapEntry<D, Seq<Polled<D>>>| owed(lane).to_multiset())
            =~= Seq::<Multiset<D>>::empty());
    } else {
        lemma_merge_hands_out_every_item(k, next);
        match lanes[0].peeked {
            Peeked::Yes(v) => {
                let emptied = HeapEntry { peeked: Peeked::No, ..lanes[0] };
                let tail = drained(k, next);
                lemma_owed_items_update(lanes, 0, emptied);
                assert(out =~= tail.insert(0, v));
                to_multiset_insert(tail, 0, v);
                assert(owed(lanes[0]) =~= owed(emptied).insert(0, v));
                to_multiset_insert(owed(emptied), 0, v);
                let rest_of_first = owed(emptied).to_multiset();
                assert(owed_items(next).add(rest_of_first.insert(v)) == owed_items(lanes).add(
                    rest_of_first,
                ));
                assert(owed_items(next).insert(v).add(rest_of_first) =~= owed_items(next).add(
                    rest_of_first.insert(v),
                ));
                lemma_cancel(owed_items(next).insert(v), owed_items(lanes), rest_of_first);
            },
            Peeked::No => {
                let polled = asked(lanes);
                lemma_owed_items_update(lanes, 0, polled[0]);
                match answer(lanes[0].stream) {
                    Polled::Pending => {
                        assert(owed(polled[0]) == owed(lanes[0]));
                        lemma_cancel(
                            owed_items(next),
                            owed_items(lanes),
                            owed(lanes[0]).to_multiset(),
                        );
                    },
                    Polled::Item(t) => {
                        let filled = polled.update(
                            0,
                            HeapEntry { peeked: Peeked::Yes(t), ..polled[0] },
                        );
                        assert(owed(filled[0]) =~= owed(lanes[0]));
                        assert(filled =~= lanes.update(0, filled[0]));
                        lemma_owed_items_update(lanes, 0, filled[0]);
                        lemma_owed_items_reranked(k, filled);
                        lemma_cancel(
                            owed_items(filled),
                            owed_items(lanes),
                            owed(lanes[0]).to_multiset(),
                        );
                    },
                    Polled::End => {
                        assert(polled.remove(0) =~= lanes.remove(0));
                        assert(owed(lanes[0]) =~= Seq::<D>::empty());
                        assert(owed(lanes[0]).to_multiset() =~= Multiset::<D>::empty()) by {
                            vstd::seq_lib::to_multiset_len(owed(lanes[0]));
                        }
                        lemma_owed_items_remove(lanes, 0);
                        lemma_owed_items_reranked(k, lanes.remove(0));
                        assert(owed_items(lanes.remove(0)).add(Multiset::<D>::empty())
                            =~= owed_items(lanes.remove(0)));
                    },
                }
            },
        }
    }
}

/// While the first entry holds an item, nothing that any entry will still
/// give is chosen strictly before that item.
proof fn lemma_nothing_before_the_first<D, C: Compare<D>>(
    k: &HeapEntryCmp<D, C>,
    lanes: Seq<HeapEntry<D, Seq<Polled<D>>>>,
    i: int,
    j: int,
)
    requires
        consistent::<D, C>(&k.items()),
        unrivalled(k, lanes),
        lanes_sorted(&k.items(), lanes),
        lanes.len() > 0,
        lanes[0].peeked is Yes,
        0 <= i < lanes.len(),
        0 <= j < owed(lanes[i]).len(),
    ensures
        k.items().ordering(owed(lanes[i])[j], lanes[0].peeked->Yes_0) != Ordering::Greater,
{
    let c = k.items();
    let v = lanes[0].peeked->Yes_0;
    assert(k.ordering(lanes[i], lanes[0]) != Ordering::Greater);
    let h = lanes[i].peeked->Yes_0;
    let due = owed(lanes[i]);
    assert(due[0] == h);
    assert(c.ordering(h, v) != Ordering::Greater);
    if j > 0 {
        assert(sorted_by(&c, due));
        assert(c.ordering(due[j], due[0]) != Ordering::Greater);
    }
}

/// What a merge hands out is an interleaving of what its producers give:
/// every item of every producer once, and the items of each producer in
/// their order. This holds of every merge, under every order, and whether or
/// not the producers are sorted.
pub proof fn lemma_merge_interleaves<D, C: Compare<D>>(
    k: &HeapEntryCmp<D, C>,
    lanes: Seq<HeapEntry<D, Seq<Polled<D>>>>,
)
    ensures
        interleaves(drained(k, lanes), parts(lanes)),
    decreases weight(lanes),
{
    lemma_round_shrinks(k, lanes);
    let next = round(k, lanes).0;
    let out = drained(k, lanes);
    if lanes.len() == 0 {
        assert forall|p: Seq<D>| #[trigger] parts(lanes).contains(p) implies p.len() == 0 by {
            lemma_parts_member(lanes, p);
        }
    } else {
        lemma_parts_has(lanes, 0);
        lemma_merge_interleaves(k, next);
        match lanes[0].peeked {
            Peeked::Yes(v) => {
                let emptied = HeapEntry { peeked: Peeked::No, ..lanes[0] };
                let due = owed(lanes[0]);
                assert(owed(emptied) =~= due.drop_first());
                assert(out.drop_first() =~= drained(k, next));
                lemma_parts_update(lanes, 0, emptied);
                assert(parts(lanes).contains(due));
                assert(due[0] == out[0]);
            },
            Peeked::No => {
                let polled = asked(lanes);
                lemma_parts_update(lanes, 0, polled[0]);
                match answer(lanes[0].stream) {
                    Polled::Pending => {
                        assert(owed(polled[0]) == owed(lanes[0]));
                        assert(parts(next) =~= parts(lanes));
                    },
                    Polled::Item(t) => {
                        let filled = polled.update(
                            0,
                            HeapEntry { peeked: Peeked::Yes(t), ..polled[0] },
                        );
                        assert(owed(filled[0]) =~= owed(lanes[0]));
                        lemma_parts_update(polled, 0, filled[0]);
                        lemma_parts_has(polled, 0);
                        assert(parts(filled) =~= parts(lanes));
                        lemma_reranked_keeps_parts(k, filled);
                    },
                    Polled::End => {
                        let left = polled.remove(0);
                        assert(left =~= lanes.remove(0));
                        assert(owed(lanes[0]) =~= Seq::<D>::empty());
                        lemma_parts_remove(lanes, 0);
                        lemma_reranked_keeps_parts(k, left);
                        lemma_interleaves_with_empty_part(out, parts(next));
                        assert(parts(next).insert(Seq::<D>::empty()) =~= parts(lanes));
                    },
                }
            },
        }
    }
}

/// Merging sorted producers under a consistent order hands out a sorted
/// sequence.
///
/// This holds of a merge in every state that it can reach, so also of one to
/// which producers were added after items had left: what is handed out from
/// then on is sorted. A producer may answer "not ready" any number of times,
/// and what it answers after its end does not count.
pub proof fn lemma_merge_sorted<D, C: Compare<D>>(
    k: &HeapEntryCmp<D, C>,
    lanes: Seq<HeapEntry<D, Seq<Polled<D>>>>,
)
    requires
        consistent::<D, C>(&k.items()),
        unrivalled(k, lanes),
        lanes_sorted(&k.items(), lanes),
    ensures
        sorted_by(&k.items(), drained(k, lanes)),
    decreases weight(lanes),
{
    let c = k.items();
    lemma_round_shrinks(k, lanes);
    lemma_entry_order_consistent::<D, Seq<Polled<D>>, C>(k);
    let next = round(k, lanes).0;
    let out = drained(k, lanes);
    if lanes.len() > 0 {
        match lanes[0].peeked {
            Peeked::Yes(v) => {
                let emptied = HeapEntry { peeked: Peeked::No, ..lanes[0] };
                let due = owed(lanes[0]);
                assert(owed(emptied) =~= due.drop_first());
                assert forall|i: int| 0 <= i < next.len() implies sorted_by(
                    &c,
                    owed(#[trigger] next[i]),
                ) by {
                    if i == 0 {
                        assert(sorted_by(&c, due));
                        assert forall|a: int, b: int|
                            0 <= a < b < owed(emptied).len() implies c.ordering(
                            #[trigger] owed(emptied)[b],
                            #[trigger] owed(emptied)[a],
                        ) != Ordering::Greater by {
                            assert(owed(emptied)[b] == due[b + 1]);
                            assert(owed(emptied)[a] == due[a + 1]);
                        }
                    } else {
                        assert(next[i] == lanes[i]);
                    }
                }
                lemma_merge_sorted(k, next);
                lemma_merge_interleaves(k, next);
                let tail = drained(k, next);
                assert(out == seq![v] + tail);
                let good = |x: D| c.ordering(x, v) != Ordering::Greater;
                assert forall|p: Seq<D>, j: int| #[trigger]
                    parts(next).contains(p) && 0 <= j < p.len() implies good(#[trigger] p[j]) by {
                    lemma_parts_member(next, p);
                    let i = choose|i: int| 0 <= i < next.len() && owed(#[trigger] next[i]) == p;
                    if i == 0 {
                        assert(p[j] == due[j + 1]);
                        lemma_nothing_before_the_first(k, lanes, 0, j + 1);
                    } else {
                        assert(next[i] == lanes[i]);
                        lemma_nothing_before_the_first(k, lanes, i, j);
                    }
                }
                lemma_interleaves_members(tail, parts(next), good);
                assert forall|a: int, b: int| 0 <= a < b < out.len() implies c.ordering(
                    #[trigger] out[b],
                    #[trigger] out[a],
                ) != Ordering::Greater by {
                    assert(out[b] == tail[b - 1]);
                    if a == 0 {
                        assert(good(tail[b - 1]));
                    } else {
                        assert(out[a] == tail[a - 1]);
                    }
                }
            },
            Peeked::No => {
                let polled = asked(lanes);
                match answer(lanes[0].stream) {
                    Polled::Pending => {
                        assert(owed(polled[0]) == owed(lanes[0]));
                        assert forall|i: int| 0 <= i < next.len() implies sorted_by(
                            &c,
                            owed(#[trigger] next[i]),
                        ) by {
                            if i > 0 {
                                assert(next[i] == lanes[i]);
                            }
                        }
                        assert forall|i: int| 0 <= i < next.len() implies k.ordering(
                            #[trigger] next[i],
                            next[0],
                        ) != Ordering::Greater by {}
                        lemma_merge_sorted(k, next);
                    },
                    Polled::Item(t) => {
                        let filled = polled.update(
                            0,
                            HeapEntry { peeked: Peeked::Yes(t), ..polled[0] },
                        );
                        assert(owed(filled[0]) =~= owed(lanes[0]));
                        assert forall|i: int| 0 <= i < filled.len() implies sorted_by(
                            &c,
                            owed(#[trigger] filled[i]),
                        ) by {
                            if i > 0 {
                                assert(filled[i] == lanes[i]);
                            }
                        }
                        lemma_reranked_keeps_parts(k, filled);
                        lemma_reranked_unrivalled(k, filled);
                        lemma_merge_sorted(k, next);
                    },
                    Polled::End => {
                        let left = polled.remove(0);
                        assert forall|i: int| 0 <= i < left.len() implies sorted_by(
                            &c,
                            owed(#[trigger] left[i]),
                        ) by {
                            assert(left[i] == lanes[i + 1]);
                        }
                        lemma_reranked_keeps_parts(k, left);
                        lemma_reranked_unrivalled(k, left);
                        lemma_merge_sorted(k, next);
                    },
                }
            },
        }
    }
}

/// The merge of sorted producers under a consistent order is sorted, and it
/// is an interleaving of the sequences that the producers stand for.
///
/// The entries are those of a merge to which the producers were added and
/// that was not asked yet: nothing is peeked. How often a producer answers
/// "not ready" makes no difference.
pub proof fn lemma_merge_of_sorted_producers<D, C: Compare<D>>(
    k: &HeapEntryCmp<D, C>,
    lanes: Seq<HeapEntry<D, Seq<Polled<D>>>>,
)
    requires
        consistent::<D, C>(&k.items()),
        forall|i: int| 0 <= i < lanes.len() ==> (#[trigger] lanes[i]).peeked is No,
        forall|i: int| 0 <= i < lanes.len() ==> sorted_by(&k.items(), items(#[trigger] lanes[i].stream)),
    ensures
        sorted_by(&k.items(), drained(k, lanes)),
        interleaves(
            drained(k, lanes),
            lanes.map_values(|lane: HeapEntry<D, Seq<Polled<D>>>| items(lane.stream)).to_multiset(),
        ),
{
    assert forall|i: int| 0 <= i < lanes.len() implies sorted_by(
        &k.items(),
        owed(#[trigger] lanes[i]),
    ) by {
        assert(lanes[i].peeked is No);
        assert(sorted_by(&k.items(), items(lanes[i].stream)));
    }
    assert forall|i: int| 0 <= i < lanes.len() implies k.ordering(#[trigger] lanes[i], lanes[0])
        != Ordering::Greater by {
        assert(lanes[i].peeked is No);
        assert(lanes[0].peeked is No);
    }
    lemma_merge_sorted(k, lanes);
    lemma_merge_interleaves(k, lanes);
    assert(lanes.map_values(|lane: HeapEntry<D, Seq<Polled<D>>>| items(lane.stream))
        =~= lanes.map_values(|lane: HeapEntry<D, Seq<Polled<D>>>| owed(lane)));
}

/// Under a consistent order that leaves no two different items at equal
/// rank, the merge of sorted producers is the one sorted sequence of all their
/// items: every sorted sequence of the same items is equal to it.
pub proof fn lemma_merge_is_the_sorted_sequence<D, C: Compare<D>>(
    k: &HeapEntryCmp<D, C>,
    lanes: Seq<HeapEntry<D, Seq<Polled<D>>>>,
    other: Seq<D>,
)
    requires
        consistent::<D, C>(&k.items()),
        forall|a: D, b: D|
            #[trigger] k.items().ordering(a, b) != Ordering::Greater && k.items().ordering(b, a)
                != Ordering::Greater ==> a == b,
        unrivalled(k, lanes),
        lanes_sorted(&k.items(), lanes),
        sorted_by(&k.items(), other),
        other.to_multiset() == owed_items(lanes),
    ensures
        other == drained(k, lanes),
{
    let c = k.items();
    let out = drained(k, lanes);
    lemma_merge_sorted(k, lanes);
    lemma_merge_hands_out_every_item(k, lanes);
    let leq = |a: D, b: D| c.ordering(b, a) != Ordering::Greater;
    assert(total_ordering(leq)) by {
        assert forall|a: D| #[trigger] leq(a, a) by {
            assert(c.ordering(a, a) == Ordering::Greater ==> c.ordering(a, a) == Ordering::Less);
        }
        assert forall|a: D, b: D| #[trigger] leq(a, b) || leq(b, a) by {
            assert(c.ordering(b, a) == Ordering::Greater ==> c.ordering(a, b) == Ordering::Less);
        }
        assert forall|a: D, b: D, d: D| #[trigger] leq(a, b) && #[trigger] leq(b, d) implies leq(
            a,
            d,
        ) by {
            assert(c.ordering(d, b) != Ordering::Greater && c.ordering(b, a) != Ordering::Greater);
        }
        assert forall|a: D, b: D| #[trigger] leq(a, b) && #[trigger] leq(b, a) implies a == b by {
            assert(c.ordering(b, a) != Ordering::Greater && c.ordering(a, b) != Ordering::Greater);
        }
    }
    assert(vstd::relations::sorted_by(other, leq));
    assert(vstd::relations::sorted_by(out, leq));
    lemma_sorted_unique(other, out, leq);
}

/// A producer that is added to a merge at any time, also after items have
/// left, is merged into all that has not left yet: what is handed out from
/// then on is a sorted interleaving of what the entries still owed and of
/// the items of the new producer.
pub proof fn lemma_merge_after_polling<D, C: Compare<D>>(
    k: &HeapEntryCmp<D, C>,
    lanes: Seq<HeapEntry<D, Seq<Polled<D>>>>,
    newcomer: HeapEntry<D, Seq<Polled<D>>>,
)
    requires
        consistent::<D, C>(&k.items()),
        unrivalled(k, lanes),
        lanes_sorted(&k.items(), lanes),
        newcomer.peeked is No,
        sorted_by(&k.items(), items(newcomer.stream)),
    ensures
        sorted_by(&k.items(), drained(k, attached(k, lanes, newcomer))),
        interleaves(
            drained(k, attached(k, lanes, newcomer)),
            parts(lanes).insert(items(newcomer.stream)),
        ),
{
    let joined = attached(k, lanes, newcomer);
    lemma_entry_order_consistent::<D, Seq<Polled<D>>, C>(k);
    lemma_attached_unrivalled(k, lanes, newcomer);
    if enters_first(k, lanes, newcomer) {
        lemma_parts_insert(lanes, 0, newcomer);
        assert forall|i: int| 0 <= i < joined.len() implies sorted_by(
            &k.items(),
            owed(#[trigger] joined[i]),
        ) by {
            if i > 0 {
                assert(joined[i] == lanes[i - 1]);
            }
        }
    } else {
        assert(joined =~= lanes.insert(lanes.len() as int, newcomer));
        lemma_parts_insert(lanes, lanes.len() as int, newcomer);
        assert forall|i: int| 0 <= i < joined.len() implies sorted_by(
            &k.items(),
            owed(#[trigger] joined[i]),
        ) by {
            if i < lanes.len() {
                assert(joined[i] == lanes[i]);
            }
        }
    }
    lemma_merge_sorted(k, joined);
    lemma_merge_interleaves(k, joined);
}

/// The entries with every producer made calm: each gives the same items, is
/// always ready, and answers nothing after its end.
pub open spec fn calmed<D>(lanes: Seq<HeapEntry<D, Seq<Polled<D>>>>) -> Seq<
    HeapEntry<D, Seq<Polled<D>>>,
> {
    lanes.map_values(
        |lane: HeapEntry<D, Seq<Polled<D>>>| HeapEntry { stream: calm(lane.stream), ..lane },
    )
}

/// The scan settles on the same entry when the producers are made calm: it
/// looks at the peeked items only.
pub proof fn lemma_calmed_champion<D, C: Compare<D>>(
    k: &HeapEntryCmp<D, C>,
    lanes: Seq<HeapEntry<D, Seq<Polled<D>>>>,
)
    ensures
        champion(k, calmed(lanes)) == champion(k, lanes),
    decreases lanes.len(),
{
    if lanes.len() > 1 {
        lemma_calmed_champion(k, lanes.drop_last());
        lemma_champion_in_range(k, lanes.drop_last());
        assert(calmed(lanes).drop_last() =~= calmed(lanes.drop_last()));
    }
}

/// Ranking anew and making the producers calm can be done in either order.
pub proof fn lemma_calmed_reranked<D, C: Compare<D>>(
    k: &HeapEntryCmp<D, C>,
    lanes: Seq<HeapEntry<D, Seq<Polled<D>>>>,
)
    ensures
        reranked(k, calmed(lanes)) == calmed(reranked(k, lanes)),
{
    if lanes.len() > 0 {
        lemma_calmed_champion(k, lanes);
        lemma_champion_in_range(k, lanes);
    }
    assert(reranked(k, calmed(lanes)) =~= calmed(reranked(k, lanes)));
}

/// What a merge hands out does not depend on how often its producers answer
/// "not ready", nor on what they answer after their end: the merge never
/// reads an answer that comes after the end of a producer.
///
/// This holds under every order, consistent or not.
pub proof fn lemma_stalls_and_late_answers_do_not_count<D, C: Compare<D>>(
    k: &HeapEntryCmp<D, C>,
    lanes: Seq<HeapEntry<D, Seq<Polled<D>>>>,
)
    ensures
        drained(k, lanes) == drained(k, calmed(lanes)),
    decreases weight(lanes),
{
    lemma_round_shrinks(k, lanes);
    let quiet = calmed(lanes);
    let next = round(k, lanes).0;
    if lanes.len() > 0 {
        match lanes[0].peeked {
            Peeked::Yes(v) => {
                lemma_stalls_and_late_answers_do_not_count(k, next);
                assert(round(k, quiet).0 =~= calmed(next));
            },
            Peeked::No => {
                let script = lanes[0].stream;
                lemma_calm_unfolds(script);
                let polled = asked(lanes);
                match answer(script) {
                    Polled::Pending => {
                        lemma_stalls_and_late_answers_do_not_count(k, next);
                        assert(calmed(next) =~= quiet);
                    },
                    Polled::Item(t) => {
                        let filled = polled.update(
                            0,
                            HeapEntry { peeked: Peeked::Yes(t), ..polled[0] },
                        );
                        let hushed = asked(quiet).update(
                            0,
                            HeapEntry { peeked: Peeked::Yes(t), ..asked(quiet)[0] },
                        );
                        assert(calm(script).drop_first() =~= calm(script.drop_first()));
                        assert(hushed =~= calmed(filled));
                        lemma_calmed_reranked(k, filled);
                        lemma_stalls_and_late_answers_do_not_count(k, next);
                    },
                    Polled::End => {
                        assert(answer(quiet[0].stream) == Polled::<D>::End);
                        assert(asked(quiet).remove(0) =~= calmed(polled.remove(0)));
                        lemma_calmed_reranked(k, polled.remove(0));
                        lemma_stalls_and_late_answers_do_not_count(k, next);
                    },
                }
            },
        }
    } else {
        assert(quiet =~= lanes);
    }
}

/// A producer that has ended is gone: its entry leaves the merge with the
/// answer, so nothing can poll that producer again. The other entries stay,
/// each as it was.
pub proof fn lemma_ended_producer_leaves<D, S, C: Compare<D>>(
    k: &HeapEntryCmp<D, C>,
    s: Seq<HeapEntry<D, S>>,
)
    requires
        s.len() > 0,
    ensures
        resume_step(k, s, Polled::End).1 is None,
        resume_step(k, s, Polled::End).0.len() == s.len() - 1,
        resume_step(k, s, Polled::End).0.to_multiset() == s.to_multiset().remove(s[0]),
{
    let left = s.remove(0);
    to_multiset_remove(s, 0);
    if left.len() > 0 {
        let c = champion(k, left);
        lemma_champion_in_range(k, left);
        to_multiset_remove(left, c);
        to_multiset_insert(left.remove(c), 0, left[c]);
        to_multiset_contains(left, left[c]);
        assert(left.to_multiset().remove(left[c]).insert(left[c]) =~= left.to_multiset());
    }
}

} // verus!
