use crate::polled::Polled;
use vstd::prelude::*;

verus! {

/// What a coalescer is left with, and what it answers, after one answer of its
/// producer.
pub struct Fused<T> {
    /// The item that is held back.
    pub prev: Option<T>,
    /// Whether the end of the producer has been recorded.
    pub finished: bool,
    /// The answer to the caller; `None` when the producer has to be polled again.
    pub out: Option<Polled<T>>,
}

/// What a coalescer that holds back `prev` does with the answer `current` of
/// its producer, where `combined` is what the combining function made of
/// `prev` and the item of `current`.
///
/// "Not ready" is passed on and nothing changes. The end of the producer is
/// recorded, whatever is held back: the item held back is handed out, and
/// with nothing held back the end is passed on. A first item is held back. A
/// further item is combined with the one held back: `Ok(x)` holds `x` back in
/// place of both, and `Err((a, b))` hands `a` out and holds `b` back.
/// `combined` counts only where an item is held back and another one arrives.
pub open spec fn fuse<T>(prev: Option<T>, current: Polled<T>, combined: Result<T, (T, T)>) -> Fused<
    T,
> {
    match (prev, current) {
        (_, Polled::Pending) => Fused { prev, finished: false, out: Some(Polled::Pending) },
        (None, Polled::End) => Fused { prev: None, finished: true, out: Some(Polled::End) },
        (Some(p), Polled::End) => Fused { prev: None, finished: true, out: Some(Polled::Item(p)) },
        (None, Polled::Item(c)) => Fused { prev: Some(c), finished: false, out: None },
        (Some(_), Polled::Item(_)) => match combined {
            Ok(x) => Fused { prev: Some(x), finished: false, out: None },
            Err((a, b)) => Fused { prev: Some(b), finished: false, out: Some(Polled::Item(a)) },
        },
    }
}

/// `combined` is something that `f` may make of the item held back and the
/// item that arrives. Where there are not both, `f` is not asked and
/// `combined` is free.
pub open spec fn may_combine<T, F: FnMut(T, T) -> Result<T, (T, T)>>(
    f: F,
    prev: Option<T>,
    current: Polled<T>,
    combined: Result<T, (T, T)>,
) -> bool {
    prev is Some && current is Item ==> call_ensures(f, (prev->Some_0, current->Item_0), combined)
}

/// `f` may be called with every pair of items.
pub open spec fn combines_all<T, F: FnMut(T, T) -> Result<T, (T, T)>>(f: F) -> bool {
    forall|p: T, c: T| #[trigger] call_requires(f, (p, c))
}

/// An adapter over one producer that merges consecutive items by a function
/// of the caller.
///
/// The function `f` is passed two items `previous` and `current` and may
/// return either `Ok(combined)` to merge the two values, or
/// `Err((previous, current))` to say that they can't be merged. In the second
/// case the first item of the pair is handed out. Either `combined` or the
/// second item of the pair becomes the previous value when the coalescer goes
/// on with the next item. The value that remains at the end is handed out too.
///
/// The coalescer never polls. [`Coalesce::ready`] answers once the end of
/// the producer is recorded, and from then on the producer is never handed
/// out again; before that, [`Coalesce::awaited`] hands out the producer to poll
/// and [`Coalesce::resume`] takes what the poll answered.
pub struct Coalesce<T, F, S> {
    prev: Option<T>,
    finished: bool,
    inner: S,
    f: F,
}

impl<T, F, S> Coalesce<T, F, S> where F: FnMut(T, T) -> Result<T, (T, T)> {
    /// The item that is held back.
    pub closed spec fn pending(&self) -> Option<T> {
        self.prev
    }

    /// Whether the end of the producer has been recorded.
    pub closed spec fn finished(&self) -> bool {
        self.finished
    }

    /// The producer.
    pub closed spec fn producer(&self) -> S {
        self.inner
    }

    /// The combining function.
    pub closed spec fn combiner(&self) -> F {
        self.f
    }

    /// The combining function may be called with every pair of items.
    pub open spec fn wf(&self) -> bool {
        combines_all::<T, F>(self.combiner())
    }

    /// A coalescer over `stream` that holds nothing back yet.
    pub fn new(stream: S, f: F) -> (coalesce: Self)
        requires
            combines_all::<T, F>(f),
        ensures
            coalesce.wf(),
            coalesce.pending() is None,
            !coalesce.finished(),
            coalesce.producer() == stream,
            coalesce.combiner() == f,
    {
        Coalesce { prev: None, finished: false, inner: stream, f }
    }

    /// Answer without polling, if that is possible: once the end of the
    /// producer is recorded, the coalescer is at its end too.
    pub fn ready(&self) -> (out: Option<Polled<T>>)
        ensures
            out == if self.finished() {
                Some(Polled::<T>::End)
            } else {
                None
            },
    {
        if self.finished {
            Some(Polled::End)
        } else {
            None
        }
    }

    /// The producer, to be polled now. Once its end is recorded it is handed
    /// out no more.
    pub fn awaited(&mut self) -> (due: Option<&mut S>)
        ensures
            due is Some <==> !old(self).finished(),
            final(self).pending() == old(self).pending(),
            final(self).finished() == old(self).finished(),
            final(self).combiner() == old(self).combiner(),
            match due {
                Some(stream) => *stream == old(self).producer() && final(self).producer()
                    == *final(stream),
                None => final(self).producer() == old(self).producer(),
            },
    {
        if self.finished {
            None
        } else {
            Some(&mut self.inner)
        }
    }

    /// Take the answer `current` of the producer that [`Coalesce::awaited`]
    /// handed out.
    ///
    /// `Some(..)` is the answer to the caller. `None`: the item is taken in
    /// and the producer has to be polled again.
    pub fn resume(&mut self, current: Polled<T>) -> (out: Option<Polled<T>>)
        requires
            old(self).wf(),
            !old(self).finished(),
        ensures
            final(self).wf(),
            final(self).producer() == old(self).producer(),
            final(self).combiner() == old(self).combiner(),
            exists|combined: Result<T, (T, T)>|
                {
                    &&& #[trigger] may_combine(
                        old(self).combiner(),
                        old(self).pending(),
                        current,
                        combined,
                    )
                    &&& fuse(old(self).pending(), current, combined) == (Fused {
                        prev: final(self).pending(),
                        finished: final(self).finished(),
                        out,
                    })
                },
    {
        let ghost answer = current;
        let ghost mut combined: Result<T, (T, T)> = arbitrary();
        let out = match current {
            Polled::Pending => Some(Polled::Pending),
            Polled::End => {
                self.finished = true;
                match self.prev.take() {
                    Some(p) => Some(Polled::Item(p)),
                    None => Some(Polled::End),
                }
            },
            Polled::Item(c) => match self.prev.take() {
                None => {
                    self.prev = Some(c);
                    None
                },
                Some(p) => {
                    assert(call_requires(old(self).combiner(), (p, c)));
                    let res = (self.f)(p, c);
                    proof {
                        combined = res;
                    }
                    match res {
                        Ok(x) => {
                            self.prev = Some(x);
                            None
                        },
                        Err((prev, current)) => {
                            self.prev = Some(current);
                            Some(Polled::Item(prev))
                        },
                    }
                },
            },
        };
        assert(may_combine(old(self).combiner(), old(self).pending(), answer, combined));
        out
    }
}

} // verus!
