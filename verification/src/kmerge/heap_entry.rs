use crate::comparators::consistent;
use crate::comparators::obeys;
use crate::comparators::Compare;
use crate::kmerge::ranking::attached;
use crate::kmerge::ranking::champion;
use crate::kmerge::ranking::lemma_champion_in_range;
use crate::kmerge::ranking::reranked;
use crate::peeked::Peeked;
use std::cmp::Ordering;
use std::marker::PhantomData;
use vstd::prelude::*;

verus! {

/// An entry of a merge: one producer together with its peeked item.
///
/// The order of two entries is decided only by their [`Peeked`] cells.
pub struct HeapEntry<D, S> {
    /// Contains the peeked item of the producer.
    pub peeked: Peeked<D>,
    /// The producer.
    pub stream: S,
    /// Id for diagnostics, starts from 1 in a merge.
    pub id: String,
}

impl<D, S> HeapEntry<D, S> {
    /// Holds of the entry that a merge makes for its `count`-th producer
    /// `stream`: nothing is peeked, and the id is `count` written out.
    pub open spec fn is_newcomer(self, stream: S, count: u64) -> bool {
        &&& self.peeked is No
        &&& self.stream == stream
        &&& vstd::string::to_string_from_display_ensures::<u64>(&count, self.id)
    }

    /// An entry for `stream` that has not been peeked and has no id.
    pub fn new(stream: S) -> (entry: Self)
        ensures
            entry.peeked is No,
            entry.stream == stream,
            entry.id@ == Seq::<char>::empty(),
    {
        Self { peeked: Peeked::No, stream, id: String::new() }
    }

    /// The same entry under the id `id`.
    pub fn with_id(self, id: String) -> (entry: Self)
        ensures
            entry == (HeapEntry { id, ..self }),
    {
        let mut entry = self;
        entry.id = id;
        entry
    }
}

/// The order of two lookahead cells under the item order `c`.
///
/// A cell that holds nothing ranks above every cell that holds an item, so the
/// producers that were never asked come first. Two empty cells rank equal, and
/// two cells that hold items rank as `c` ranks the items.
pub open spec fn rank<D, C: Compare<D>>(c: &C, l: Peeked<D>, r: Peeked<D>) -> Ordering {
    match (l, r) {
        (Peeked::No, Peeked::No) => Ordering::Equal,
        (Peeked::No, Peeked::Yes(_)) => Ordering::Greater,
        (Peeked::Yes(_), Peeked::No) => Ordering::Less,
        (Peeked::Yes(a), Peeked::Yes(b)) => c.ordering(a, b),
    }
}

/// The pairs of cells that can be compared under the item order `c`: the
/// items are compared only where both cells hold one, so `c` has to accept
/// only those.
pub open spec fn rank_accepts<D, C: Compare<D>>(c: &C, l: Peeked<D>, r: Peeked<D>) -> bool {
    match (l, r) {
        (Peeked::Yes(a), Peeked::Yes(b)) => c.accepts(a, b),
        _ => true,
    }
}

/// A [`Compare`] implementation that compares [`Peeked`] values and the
/// entries that contain them.
///
/// It always puts `Peeked::No` before `Peeked::Yes(_)`, so that a merge always
/// turns to the producers that were not peeked first.
///
/// If two values are both `Peeked::Yes(_)`, then it compares the inner values
/// by the `Compare<D>` implementation.
pub struct HeapEntryCmp<D, C: Compare<D>> {
    pub cmp: C,
    _p: PhantomData<D>,
}

impl<D, C: Compare<D>> HeapEntryCmp<D, C> {
    /// The order of the items, by which two filled cells are compared.
    pub closed spec fn items(&self) -> C {
        self.cmp
    }

    pub fn new(cmp: C) -> (entry_cmp: Self)
        ensures
            entry_cmp.items() == cmp,
    {
        Self { cmp, _p: PhantomData }
    }
}

impl<D, C: Compare<D>> Compare<Peeked<D>> for HeapEntryCmp<D, C> {
    open spec fn accepts(&self, l: Peeked<D>, r: Peeked<D>) -> bool {
        rank_accepts(&self.items(), l, r)
    }

    open spec fn ordering(&self, l: Peeked<D>, r: Peeked<D>) -> Ordering {
        rank(&self.items(), l, r)
    }

    fn compare(&self, l: &Peeked<D>, r: &Peeked<D>) -> (o: Ordering) {
        // This type orders cells and entries alike: say which order is meant.
        assert(Compare::<Peeked<D>>::accepts(self, *l, *r));
        let o = match (l, &r) {
            (Peeked::No, Peeked::No) => Ordering::Equal,
            (Peeked::No, Peeked::Yes(_)) => Ordering::Greater,
            (Peeked::Yes(_), Peeked::No) => Ordering::Less,
            (Peeked::Yes(a), Peeked::Yes(b)) => self.cmp.compare(a, b),
        };
        assert(o == Compare::<Peeked<D>>::ordering(self, *l, *r));
        o
    }
}

impl<D, S, C: Compare<D>> Compare<HeapEntry<D, S>> for HeapEntryCmp<D, C> {
    open spec fn accepts(&self, l: HeapEntry<D, S>, r: HeapEntry<D, S>) -> bool {
        rank_accepts(&self.items(), l.peeked, r.peeked)
    }

    open spec fn ordering(&self, l: HeapEntry<D, S>, r: HeapEntry<D, S>) -> Ordering {
        rank(&self.items(), l.peeked, r.peeked)
    }

    fn compare(&self, l: &HeapEntry<D, S>, r: &HeapEntry<D, S>) -> (o: Ordering) {
        assert(Compare::<HeapEntry<D, S>>::accepts(self, *l, *r));
        assert(Compare::<Peeked<D>>::accepts(self, l.peeked, r.peeked));
        let o = self.compare(&l.peeked, &r.peeked);
        assert(o == Compare::<Peeked<D>>::ordering(self, l.peeked, r.peeked));
        assert(o == Compare::<HeapEntry<D, S>>::ordering(self, *l, *r));
        o
    }
}

/// Where the order of the items accepts every pair, so do the order of the
/// cells and the order of the entries.
pub proof fn lemma_entry_order_obeys<D, S, C: Compare<D>>(entry_cmp: &HeapEntryCmp<D, C>)
    requires
        obeys::<D, C>(&entry_cmp.items()),
    ensures
        obeys::<Peeked<D>, HeapEntryCmp<D, C>>(entry_cmp),
        obeys::<HeapEntry<D, S>, HeapEntryCmp<D, C>>(entry_cmp),
{
    assert forall|l: Peeked<D>, r: Peeked<D>| #[trigger] entry_cmp.accepts(l, r) by {
        match (l, r) {
            (Peeked::Yes(a), Peeked::Yes(b)) => {
                assert(entry_cmp.items().accepts(a, b));
            },
            _ => {},
        }
    }
    assert forall|l: HeapEntry<D, S>, r: HeapEntry<D, S>| #[trigger] entry_cmp.accepts(l, r) by {
        match (l.peeked, r.peeked) {
            (Peeked::Yes(a), Peeked::Yes(b)) => {
                assert(entry_cmp.items().accepts(a, b));
            },
            _ => {},
        }
    }
}

/// Under a consistent order of the items, the order of the cells and the
/// order of the entries are consistent too.
pub proof fn lemma_entry_order_consistent<D, S, C: Compare<D>>(entry_cmp: &HeapEntryCmp<D, C>)
    requires
        consistent::<D, C>(&entry_cmp.items()),
    ensures
        consistent::<Peeked<D>, HeapEntryCmp<D, C>>(entry_cmp),
        consistent::<HeapEntry<D, S>, HeapEntryCmp<D, C>>(entry_cmp),
{
}

/// Every producer is peeked before an item leaves: where the first entry
/// holds an item, all entries do.
pub open spec fn primed<D, S>(s: Seq<HeapEntry<D, S>>) -> bool {
    s.len() > 0 && s[0].peeked is Yes ==> forall|i: int|
        0 <= i < s.len() ==> (#[trigger] s[i]).peeked is Yes
}

/// The scan settles on an entry that is not peeked wherever there is one,
/// whatever the order of the items is.
pub proof fn lemma_champion_is_due<D, S, C: Compare<D>>(
    entry_cmp: &HeapEntryCmp<D, C>,
    s: Seq<HeapEntry<D, S>>,
    i: int,
)
    requires
        0 <= i < s.len(),
        s[i].peeked is No,
    ensures
        s[champion(entry_cmp, s)].peeked is No,
    decreases s.len(),
{
    if s.len() > 1 {
        let t = s.drop_last();
        lemma_champion_in_range(entry_cmp, t);
        if i < t.len() {
            lemma_champion_is_due(entry_cmp, t, i);
        }
    }
}

/// Entries that were ranked anew are primed, whatever the order of the items is.
pub proof fn lemma_reranked_primed<D, S, C: Compare<D>>(
    entry_cmp: &HeapEntryCmp<D, C>,
    s: Seq<HeapEntry<D, S>>,
)
    ensures
        primed(reranked(entry_cmp, s)),
{
    let r = reranked(entry_cmp, s);
    if s.len() > 0 && r[0].peeked is Yes {
        let c = champion(entry_cmp, s);
        lemma_champion_in_range(entry_cmp, s);
        assert forall|i: int| 0 <= i < r.len() implies (#[trigger] r[i]).peeked is Yes by {
            let j = if i == 0 {
                c
            } else if i <= c {
                i - 1
            } else {
                i
            };
            assert(r[i] == s[j]);
            if s[j].peeked is No {
                lemma_champion_is_due(entry_cmp, s, j);
            }
        }
    }
}

/// A newcomer that is not peeked leaves the entries primed: it goes in front
/// of a first entry that holds an item.
pub proof fn lemma_attached_primed<D, S, C: Compare<D>>(
    entry_cmp: &HeapEntryCmp<D, C>,
    s: Seq<HeapEntry<D, S>>,
    newcomer: HeapEntry<D, S>,
)
    requires
        newcomer.peeked is No,
    ensures
        primed(attached(entry_cmp, s, newcomer)),
{
    if s.len() > 0 {
        assert(entry_cmp.ordering(newcomer, s[0]) == rank(
            &entry_cmp.items(),
            newcomer.peeked,
            s[0].peeked,
        ));
    }
}

} // verus!
