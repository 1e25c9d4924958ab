use vstd::prelude::*;

verus! {

/// The lookahead cell of one producer: either nothing has been fetched yet, or
/// exactly one item is held back until the merge hands it out.
pub enum Peeked<D = ()> {
    /// Not yet peeked.
    No,
    /// Peeked some value.
    Yes(D),
}

impl<D> Peeked<D> {
    /// The item that the cell holds, if it holds one.
    pub open spec fn held(self) -> Option<D> {
        match self {
            Peeked::Yes(v) => Some(v),
            Peeked::No => None,
        }
    }

    /// Return `true` if it has been filled with a peeked value.
    pub fn has_peeked(&self) -> (b: bool)
        ensures
            b == (*self is Yes),
    {
        match &self {
            Peeked::Yes(_) => true,
            Peeked::No => false,
        }
    }

    /// Take the peeked value, and reset it to [`Peeked::No`] state.
    pub fn take(&mut self) -> (v: Option<D>)
        ensures
            v == old(self).held(),
            *final(self) is No,
    {
        let mut taken = Peeked::No;
        std::mem::swap(self, &mut taken);
        match taken {
            Peeked::Yes(v) => Some(v),
            Peeked::No => None,
        }
    }
}

} // verus!
