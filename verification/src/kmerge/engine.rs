use crate::comparators::consistent;
use crate::comparators::obeys;
use crate::comparators::Ascending;
use crate::comparators::Compare;
use crate::comparators::Descending;
use crate::comparators::FnCmp;
use crate::kmerge::heap_entry::lemma_attached_primed;
use crate::kmerge::heap_entry::lemma_entry_order_consistent;
use crate::kmerge::heap_entry::lemma_reranked_primed;
use crate::kmerge::heap_entry::primed;
use crate::kmerge::heap_entry::HeapEntry;
use crate::kmerge::heap_entry::HeapEntryCmp;
use crate::kmerge::ranking::attached;
use crate::kmerge::ranking::champion;
use crate::kmerge::ranking::leading;
use crate::kmerge::ranking::lemma_attached_unrivalled;
use crate::kmerge::ranking::lemma_champion_next;
use crate::kmerge::ranking::lemma_reranked_unrivalled;
use crate::kmerge::ranking::reranked;
use crate::kmerge::ranking::unrivalled;
use crate::peeked::Peeked;
use crate::polled::Polled;
use std::cmp::Ordering;
use vstd::prelude::*;

verus! {

/// What a merge over the entries `s` answers without polling, and the entries
/// it is left with.
///
/// With no entry the merge is over. With an item in the first entry, that
/// item is handed out and its cell is emptied. Otherwise there is no answer
/// yet: the producer of the first entry has to be polled.
pub open spec fn ready_step<D, S>(s: Seq<HeapEntry<D, S>>) -> (
    Seq<HeapEntry<D, S>>,
    Option<Polled<D>>,
) {
    if s.len() == 0 {
        (s, Some(Polled::End))
    } else {
        match s[0].peeked {
            Peeked::Yes(v) => (
                s.update(0, HeapEntry { peeked: Peeked::No, ..s[0] }),
                Some(Polled::Item(v)),
            ),
            Peeked::No => (s, None),
        }
    }
}

/// What a merge over the entries `s` does with the answer `polled` of the
/// producer of its first entry.
///
/// "Not ready" is passed on and nothing changes. An item fills the cell of the
/// first entry, and the end of the producer removes the first entry; in both
/// cases the entries are ranked anew and the caller is not answered yet.
pub open spec fn resume_step<D, S, C: Compare<D>>(
    k: &HeapEntryCmp<D, C>,
    s: Seq<HeapEntry<D, S>>,
    polled: Polled<D>,
) -> (Seq<HeapEntry<D, S>>, Option<Polled<D>>) {
    match polled {
        Polled::Pending => (s, Some(Polled::Pending)),
        Polled::Item(t) => (
            reranked(k, s.update(0, HeapEntry { peeked: Peeked::Yes(t), ..s[0] })),
            None,
        ),
        Polled::End => (reranked(k, s.remove(0)), None),
    }
}

/// A merge of several producers in an order that the caller gives.
///
/// Each producer sits in an entry with its peeked item. The entry at the front
/// is the one that is due: an entry that was not peeked yet, so that every
/// producer is peeked before any item is handed out, and else the entry whose
/// item the order chooses first.
///
/// The merge never polls. [`KMerge::ready`] answers what can be answered from
/// the peeked items; where it cannot, [`KMerge::awaited`] hands out the
/// producer to poll and [`KMerge::resume`] takes what the poll answered.
///
/// To do a merge sort, the producers **should** give their items in the
/// order that `C` decides, otherwise the order of the result is undefined.
pub struct KMerge<C, D, S> where C: Compare<D> {
    curr_id: u64,
    cmp: HeapEntryCmp<D, C>,
    heap: Vec<HeapEntry<D, S>>,
}

impl<F, D, S> KMerge<FnCmp<F>, D, S> where F: Fn(&D, &D) -> bool {
    /// An empty merge in the order of the function `first`.
    ///
    /// `first` is called with two items `a`, `b` and answers `true` if `a` is
    /// ordered before `b`.
    pub fn by_fn(first: F) -> (m: Self)
        requires
            obeys::<D, FnCmp<F>>(&FnCmp(first)),
        ensures
            m.wf(),
            m.entries().len() == 0,
            m.merged() == 0,
            m.comparator().items() == FnCmp(first),
    {
        Self::by_cmp(FnCmp(first))
    }
}

impl<D, S> KMerge<Descending, D, S> where D: Ord {
    /// An empty merge that hands out the greatest item first.
    pub fn max() -> (m: Self)
        requires
            obeys::<D, Descending>(&Descending),
        ensures
            m.wf(),
            m.entries().len() == 0,
            m.merged() == 0,
            m.comparator().items() == Descending,
    {
        Self::by_cmp(Descending)
    }
}

impl<D, S> KMerge<Ascending, D, S> where D: Ord {
    /// An empty merge that hands out the least item first.
    pub fn min() -> (m: Self)
        requires
            obeys::<D, Ascending>(&Ascending),
        ensures
            m.wf(),
            m.entries().len() == 0,
            m.merged() == 0,
            m.comparator().items() == Ascending,
    {
        Self::by_cmp(Ascending)
    }
}

impl<D, S, C> KMerge<C, D, S> where C: Compare<D> {
    /// The entries, the one that is due first.
    pub closed spec fn entries(&self) -> Seq<HeapEntry<D, S>> {
        self.heap@
    }

    /// How many producers were merged so far.
    pub closed spec fn spec_merged(&self) -> u64 {
        self.curr_id
    }

    /// How many producers were merged so far. [`KMerge::merge`] takes one
    /// more as long as this is below `u64::MAX`.
    #[verifier::when_used_as_spec(spec_merged)]
    pub fn merged(&self) -> (count: u64)
        ensures
            count == self.merged(),
    {
        self.curr_id
    }

    /// The order of the entries.
    pub closed spec fn comparator(&self) -> HeapEntryCmp<D, C> {
        self.cmp
    }

    /// The comparator can be called, no item leaves before every producer
    /// is peeked, and under a consistent order of the items no entry is chosen
    /// strictly before the first one.
    pub open spec fn wf(&self) -> bool {
        &&& obeys::<D, C>(&self.comparator().items())
        &&& primed(self.entries())
        &&& consistent::<D, C>(&self.comparator().items()) ==> unrivalled(
            &self.comparator(),
            self.entries(),
        )
    }

    /// An empty merge in the order of `cmp`: if `cmp` answers `Greater` for
    /// `a` against `b`, `a` is chosen prior to `b`.
    pub fn by_cmp(cmp: C) -> (m: Self)
        requires
            obeys::<D, C>(&cmp),
        ensures
            m.wf(),
            m.entries().len() == 0,
            m.merged() == 0,
            m.comparator().items() == cmp,
    {
        KMerge { curr_id: 0, cmp: HeapEntryCmp::new(cmp), heap: Vec::new() }
    }

    /// Append another producer to the merge.
    ///
    /// This method can be called any time after the merge is created. The new
    /// entry is not peeked, so it goes in front of a first entry that holds an
    /// item, and to the end otherwise.
    pub fn merge(self, stream: S) -> (m: Self)
        requires
            self.wf(),
            self.merged() < u64::MAX,
        ensures
            m.wf(),
            m.merged() == self.merged() + 1,
            m.comparator() == self.comparator(),
            exists|entry: HeapEntry<D, S>| #[trigger]
                entry.is_newcomer(stream, m.merged()) && m.entries() == attached(
                    &self.comparator(),
                    self.entries(),
                    entry,
                ),
    {
        let mut m = self;
        m.curr_id = m.curr_id + 1;
        let entry = HeapEntry::new(stream).with_id(m.curr_id.to_string());
        let ghost newcomer = entry;
        let first = if m.heap.len() > 0 {
            match m.cmp.compare(&entry, &m.heap[0]) {
                Ordering::Greater => true,
                _ => false,
            }
        } else {
            false
        };
        if first {
            m.heap.insert(0, entry);
        } else {
            m.heap.push(entry);
        }
        proof {
            assert(newcomer.is_newcomer(stream, m.merged()));
            assert(m.entries() == attached(&self.comparator(), self.entries(), newcomer));
            lemma_attached_primed(&self.comparator(), self.entries(), newcomer);
            if consistent::<D, C>(&self.comparator().items()) {
                lemma_entry_order_consistent::<D, S, C>(&self.comparator());
                lemma_attached_unrivalled(&self.comparator(), self.entries(), newcomer);
            }
        }
        m
    }

    /// Answer from what is peeked, if that is possible.
    ///
    /// `Some(Polled::End)`: no producer is left. `Some(Polled::Item(v))`: the
    /// first entry held `v`, which is taken out of it. `None`: the first entry
    /// is not peeked, so its producer has to be polled.
    pub fn ready(&mut self) -> (out: Option<Polled<D>>)
        requires
            old(self).wf(),
        ensures
            final(self).wf(),
            final(self).merged() == old(self).merged(),
            final(self).comparator() == old(self).comparator(),
            (final(self).entries(), out) == ready_step(old(self).entries()),
    {
        if self.heap.len() == 0 {
            return Some(Polled::End);
        }
        match self.heap[0].peeked.take() {
            Some(v) => Some(Polled::Item(v)),
            None => None,
        }
    }

    /// The producer that has to be polled now: that of the first entry, if
    /// that entry is not peeked. Else there is none.
    pub fn awaited(&mut self) -> (due: Option<&mut S>)
        requires
            old(self).wf(),
        ensures
            final(self).wf(),
            final(self).merged() == old(self).merged(),
            final(self).comparator() == old(self).comparator(),
            due is Some <==> old(self).entries().len() > 0 && old(self).entries()[0].peeked is No,
            match due {
                Some(stream) => *stream == old(self).entries()[0].stream && final(self).entries()
                    == old(self).entries().update(
                    0,
                    HeapEntry { stream: *final(stream), ..old(self).entries()[0] },
                ),
                None => final(self).entries() == old(self).entries(),
            },
    {
        if self.heap.len() == 0 {
            None
        } else if self.heap[0].peeked.has_peeked() {
            None
        } else {
            Some(&mut self.heap[0].stream)
        }
    }

    /// Take the answer `polled` of the producer that [`KMerge::awaited`] handed out.
    ///
    /// `Some(Polled::Pending)`: the producer was not ready, nothing has
    /// changed, and the caller is told so. `None`: the answer is taken in and
    /// the merge goes on.
    pub fn resume(&mut self, polled: Polled<D>) -> (out: Option<Polled<D>>)
        requires
            old(self).wf(),
            old(self).entries().len() > 0,
            old(self).entries()[0].peeked is No,
        ensures
            final(self).wf(),
            final(self).merged() == old(self).merged(),
            final(self).comparator() == old(self).comparator(),
            (final(self).entries(), out) == resume_step(
                &old(self).comparator(),
                old(self).entries(),
                polled,
            ),
    {
        match polled {
            Polled::Pending => Some(Polled::Pending),
            Polled::Item(t) => {
                self.heap[0].peeked = Peeked::Yes(t);
                self.rerank();
                None
            },
            Polled::End => {
                let _ = self.heap.remove(0);
                self.rerank();
                None
            },
        }
    }

    /// Bring the entry that is due to the front.
    fn rerank(&mut self)
        requires
            obeys::<D, C>(&old(self).comparator().items()),
        ensures
            final(self).wf(),
            final(self).merged() == old(self).merged(),
            final(self).comparator() == old(self).comparator(),
            final(self).entries() == reranked(&old(self).comparator(), old(self).entries()),
    {
        let n = self.heap.len();
        if n > 1 {
            let mut best: usize = 0;
            let mut j: usize = 1;
            while j < n
                invariant
                    n == self.heap@.len(),
                    1 <= j <= n,
                    best < j,
                    best == champion(&self.cmp, leading(self.heap@, j)),
                    obeys::<D, C>(&self.cmp.items()),
                decreases n - j,
            {
                let o = self.cmp.compare(&self.heap[best], &self.heap[j]);
                let next = j + 1;
                proof {
                    lemma_champion_next(&self.cmp, self.heap@, j, next, best);
                }
                if let Ordering::Less = o {
                    best = j;
                }
                j = next;
            }
            assert(leading(self.heap@, n) == self.heap@);
            let entry = self.heap.remove(best);
            self.heap.insert(0, entry);
        }
        proof {
            lemma_reranked_primed(&old(self).comparator(), old(self).entries());
            if consistent::<D, C>(&self.comparator().items()) {
                lemma_entry_order_consistent::<D, S, C>(&self.comparator());
                lemma_reranked_unrivalled(&old(self).comparator(), old(self).entries());
            }
        }
    }
}

} // verus!
