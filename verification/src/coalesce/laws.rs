//! What a coalescer hands out, proved of every coalescer that is driven
//! against a scripted producer until it ends.

use crate::coalesce::engine::fuse;
use crate::polled::Polled;
use crate::script::answer;
use crate::script::calm;
use crate::script::items;
use crate::script::lemma_calm_unfolds;
use crate::script::rest;
use vstd::prelude::*;

verus! {

/// What the combining function `f` makes of the item held back and the item
/// that arrives. It counts only where there are both.
pub open spec fn combined_by<T>(
    f: spec_fn(T, T) -> Result<T, (T, T)>,
    prev: Option<T>,
    current: Polled<T>,
) -> Result<T, (T, T)> {
    match (prev, current) {
        (Some(p), Polled::Item(c)) => f(p, c),
        _ => arbitrary(),
    }
}

/// The items that a coalescer hands out, in their order, however long its
/// caller goes on asking.
///
/// The coalescer holds `prev` back, has or has not recorded the end of its
/// producer, and combines by `f`. Its driver does what a caller may do: as
/// long as the coalescer hands its producer out, the producer is polled and
/// the answer is handed to [`fuse`]. The driver does not stop by itself when
/// it is told that the coalescer is at its end, nor after "not ready": it
/// stops only when the producer is handed out no more, which is when the end
/// is recorded.
pub open spec fn coalesced<T>(
    prev: Option<T>,
    finished: bool,
    script: Seq<Polled<T>>,
    f: spec_fn(T, T) -> Result<T, (T, T)>,
) -> Seq<T>
    decreases script.len(), (if finished { 0nat } else { 1nat }),
{
    if finished {
        Seq::empty()
    } else {
        let current = answer(script);
        let after = fuse(prev, current, combined_by(f, prev, current));
        match after.out {
            Some(Polled::Item(x)) => seq![x] + coalesced(
                after.prev,
                after.finished,
                rest(script),
                f,
            ),
            _ => coalesced(after.prev, after.finished, rest(script), f),
        }
    }
}

/// A producer that gives no further item leaves the output to the item that
/// is held back: it is handed out as it is, and where nothing is held back,
/// nothing is handed out.
pub proof fn lemma_coalesce_of_nothing<T>(
    prev: Option<T>,
    script: Seq<Polled<T>>,
    f: spec_fn(T, T) -> Result<T, (T, T)>,
)
    requires
        items(script).len() == 0,
    ensures
        coalesced(prev, false, script, f) == match prev {
            Some(p) => seq![p],
            None => Seq::<T>::empty(),
        },
    decreases script.len(),
{
    if script.len() > 0 {
        match script[0] {
            Polled::Pending => {
                lemma_coalesce_of_nothing(prev, script.drop_first(), f);
            },
            Polled::Item(v) => {
                assert(items(script)[0] == v);
            },
            Polled::End => {
                assert(coalesced(None::<T>, true, rest(script), f) == Seq::<T>::empty());
            },
        }
    } else {
        assert(coalesced(None::<T>, true, rest(script), f) == Seq::<T>::empty());
    }
    match prev {
        Some(p) => {
            assert(coalesced(prev, false, script, f) =~= seq![p]);
        },
        None => {},
    }
}

/// A producer that gives one item has that item handed out unchanged, and
/// the combining function is never asked.
pub proof fn lemma_coalesce_of_one<T>(
    script: Seq<Polled<T>>,
    x: T,
    f: spec_fn(T, T) -> Result<T, (T, T)>,
)
    requires
        items(script) == seq![x],
    ensures
        coalesced(None, false, script, f) == seq![x],
    decreases script.len(),
{
    assert(items(script).len() == 1);
    match script[0] {
        Polled::Pending => {
            lemma_coalesce_of_one(script.drop_first(), x, f);
        },
        Polled::Item(v) => {
            let later = items(script.drop_first());
            assert(items(script) == seq![v] + later);
            assert(items(script)[0] == v);
            assert(later.len() == 0);
            lemma_coalesce_of_nothing(Some(x), script.drop_first(), f);
        },
        Polled::End => {},
    }
}

/// What a coalescer hands out does not depend on how often its producer
/// answers "not ready", nor on what the producer answers after its end. The
/// end is recorded when it is met ([`lemma_end_is_recorded`]), and after that
/// no answer is read.
pub proof fn lemma_coalesce_reads_nothing_after_the_end<T>(
    prev: Option<T>,
    finished: bool,
    script: Seq<Polled<T>>,
    f: spec_fn(T, T) -> Result<T, (T, T)>,
)
    ensures
        coalesced(prev, finished, script, f) == coalesced(prev, finished, calm(script), f),
    decreases script.len(),
{
    lemma_calm_unfolds(script);
    if !finished && script.len() > 0 {
        let quiet = calm(script);
        let later = script.drop_first();
        match script[0] {
            Polled::Pending => {
                lemma_coalesce_reads_nothing_after_the_end(prev, false, later, f);
                assert(coalesced(prev, finished, script, f) == coalesced(prev, false, later, f));
            },
            Polled::Item(c) => {
                let after = fuse(prev, script[0], combined_by(f, prev, script[0]));
                assert(quiet.drop_first() =~= calm(later));
                assert(quiet[0] == script[0]);
                lemma_coalesce_reads_nothing_after_the_end(after.prev, after.finished, later, f);
                assert(coalesced(prev, finished, script, f) == coalesced(prev, finished, quiet, f));
            },
            Polled::End => {
                assert(coalesced(None::<T>, true, later, f) == Seq::<T>::empty());
                assert(coalesced(None::<T>, true, quiet, f) == Seq::<T>::empty());
                assert(coalesced(prev, finished, script, f) == coalesced(prev, finished, quiet, f));
            },
        }
    } else if !finished {
        assert(script =~= calm(script));
    }
}

/// The end of the producer is always recorded, whether or not an item is
/// held back: whatever was held back is handed out, nothing is held back any
/// more, and a coalescer that has recorded the end hands out nothing further.
/// From then on [`Coalesce::awaited`](crate::coalesce::Coalesce::awaited)
/// gives no producer, so the producer is never polled again.
pub proof fn lemma_end_is_recorded<T>(prev: Option<T>, combined: Result<T, (T, T)>)
    ensures
        fuse(prev, Polled::End, combined).finished,
        fuse(prev, Polled::End, combined).prev is None,
        fuse(prev, Polled::End, combined).out == Some(
            match prev {
                Some(p) => Polled::Item(p),
                None => Polled::End,
            },
        ),
        forall|held: Option<T>, script: Seq<Polled<T>>, f: spec_fn(T, T) -> Result<T, (T, T)>|
            coalesced(held, true, script, f) == Seq::<T>::empty(),
{
}

/// No answer but the end of the producer is recorded as its end.
pub proof fn lemma_only_the_end_is_recorded<T>(
    prev: Option<T>,
    current: Polled<T>,
    combined: Result<T, (T, T)>,
)
    ensures
        fuse(prev, current, combined).finished <==> current is End,
{
}

/// The greedy fusion of `items` from the left, with `prev` held back at the
/// start: each item is combined with what is held back as long as `f` agrees;
/// where `f` rejects a pair, the first of the rejected pair is given and the
/// second is held back. What is held back at the end is given last.
pub open spec fn fusion<T>(
    prev: Option<T>,
    items: Seq<T>,
    f: spec_fn(T, T) -> Result<T, (T, T)>,
) -> Seq<T>
    decreases items.len(),
{
    if items.len() == 0 {
        match prev {
            Some(p) => seq![p],
            None => Seq::empty(),
        }
    } else {
        match prev {
            None => fusion(Some(items[0]), items.drop_first(), f),
            Some(p) => match f(p, items[0]) {
                Ok(x) => fusion(Some(x), items.drop_first(), f),
                Err((a, b)) => seq![a] + fusion(Some(b), items.drop_first(), f),
            },
        }
    }
}

/// A coalescer that is driven to its end hands out the greedy fusion of the
/// items of its producer, whatever the producer and the combining function
/// are.
pub proof fn lemma_coalesce_is_the_fusion<T>(
    prev: Option<T>,
    script: Seq<Polled<T>>,
    f: spec_fn(T, T) -> Result<T, (T, T)>,
)
    ensures
        coalesced(prev, false, script, f) == fusion(prev, items(script), f),
    decreases script.len(),
{
    let out = coalesced(prev, false, script, f);
    if script.len() > 0 {
        let later = script.drop_first();
        match script[0] {
            Polled::Pending => {
                lemma_coalesce_is_the_fusion(prev, later, f);
            },
            Polled::Item(c) => {
                let after = fuse(prev, script[0], combined_by(f, prev, script[0]));
                lemma_coalesce_is_the_fusion(after.prev, later, f);
                assert(items(script)[0] == c);
                assert(items(script).drop_first() =~= items(later));
            },
            Polled::End => {
                assert(coalesced(None::<T>, true, rest(script), f) == Seq::<T>::empty());
                if prev is Some {
                    assert(out =~= seq![prev->Some_0]);
                }
            },
        }
    } else {
        assert(coalesced(None::<T>, true, rest(script), f) == Seq::<T>::empty());
        if prev is Some {
            assert(out =~= seq![prev->Some_0]);
        }
    }
}

/// A combining function that rejects every pair as it is leaves the sequence
/// of the producer unchanged: the item held back comes first, then the items
/// of the producer in their order.
pub proof fn lemma_coalesce_without_combining<T>(
    prev: Option<T>,
    script: Seq<Polled<T>>,
    f: spec_fn(T, T) -> Result<T, (T, T)>,
)
    requires
        forall|p: T, c: T| #[trigger] f(p, c) == Err::<T, (T, T)>((p, c)),
    ensures
        coalesced(prev, false, script, f) == match prev {
            Some(p) => seq![p] + items(script),
            None => items(script),
        },
    decreases script.len(),
{
    let out = coalesced(prev, false, script, f);
    if script.len() > 0 {
        let later = script.drop_first();
        match script[0] {
            Polled::Pending => {
                lemma_coalesce_without_combining(prev, later, f);
            },
            Polled::Item(c) => {
                lemma_coalesce_without_combining(Some(c), later, f);
                match prev {
                    Some(p) => {
                        assert(f(p, c) == Err::<T, (T, T)>((p, c)));
                        assert(out =~= seq![p] + items(script));
                    },
                    None => {},
                }
            },
            Polled::End => {
                assert(coalesced(None::<T>, true, rest(script), f) == Seq::<T>::empty());
                if prev is Some {
                    assert(out =~= seq![prev->Some_0] + items(script));
                }
            },
        }
    } else {
        assert(coalesced(None::<T>, true, rest(script), f) == Seq::<T>::empty());
        if prev is Some {
            assert(out =~= seq![prev->Some_0] + items(script));
        }
    }
}

} // verus!
