//! Producers as scripts.
//!
//! What a producer will answer, poll after poll, written down as a sequence.
//! The laws of this crate speak of engines that are driven against such
//! scripts: a script stands for any producer, well-behaved or not, since it
//! may hold "not ready" anywhere and further answers after its end.

use crate::polled::Polled;
use vstd::prelude::*;

verus! {

/// What a producer with the script `script` answers to the next poll. A
/// script that has run out answers that the producer is at its end.
pub open spec fn answer<D>(script: Seq<Polled<D>>) -> Polled<D> {
    if script.len() == 0 {
        Polled::End
    } else {
        script[0]
    }
}

/// The script that is left after one poll.
pub open spec fn rest<D>(script: Seq<Polled<D>>) -> Seq<Polled<D>> {
    if script.len() == 0 {
        script
    } else {
        script.drop_first()
    }
}

/// The items that a producer gives before its end: the sequence that it stands for.
pub open spec fn items<D>(script: Seq<Polled<D>>) -> Seq<D>
    decreases script.len(),
{
    if script.len() == 0 {
        Seq::empty()
    } else {
        match script[0] {
            Polled::Pending => items(script.drop_first()),
            Polled::Item(v) => seq![v] + items(script.drop_first()),
            Polled::End => Seq::empty(),
        }
    }
}

/// The script of a producer that gives the same items, is always ready, and
/// answers nothing after its end.
pub open spec fn calm<D>(script: Seq<Polled<D>>) -> Seq<Polled<D>> {
    items(script).map_values(|v: D| Polled::Item(v))
}

/// A calm script starts with the first item of the script, if there is one.
pub proof fn lemma_calm_unfolds<D>(script: Seq<Polled<D>>)
    ensures
        script.len() == 0 ==> calm(script) == Seq::<Polled<D>>::empty(),
        script.len() > 0 ==> calm(script) == match script[0] {
            Polled::Pending => calm(script.drop_first()),
            Polled::Item(v) => seq![Polled::Item(v)] + calm(script.drop_first()),
            Polled::End => Seq::<Polled<D>>::empty(),
        },
{
    if script.len() > 0 {
        match script[0] {
            Polled::Item(v) => {
                assert(calm(script) =~= seq![Polled::Item(v)] + calm(script.drop_first()));
            },
            Polled::Pending => {},
            Polled::End => {
                assert(calm(script) =~= Seq::<Polled<D>>::empty());
            },
        }
    } else {
        assert(calm(script) =~= Seq::<Polled<D>>::empty());
    }
}

/// A calm script stands for the same items.
pub proof fn lemma_calm_keeps_items<D>(script: Seq<Polled<D>>)
    ensures
        items(calm(script)) == items(script),
    decreases script.len(),
{
    lemma_calm_unfolds(script);
    if script.len() > 0 {
        lemma_calm_keeps_items(script.drop_first());
        match script[0] {
            Polled::Item(v) => {
                let c = calm(script);
                assert(c.drop_first() =~= calm(script.drop_first()));
            },
            _ => {},
        }
    }
}

} // verus!
