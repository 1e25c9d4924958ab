use vstd::prelude::*;

verus! {

/// What one poll of a producer, or of an engine of this crate, answers.
#[derive(Debug, PartialEq, Eq)]
pub enum Polled<D> {
    /// Nothing is ready yet; the same poll has to be made again later.
    Pending,
    /// The next item of the sequence.
    Item(D),
    /// The sequence is over.
    End,
}

} // verus!
