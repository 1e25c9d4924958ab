//! How the merge keeps the element that is due next at the front of its list.
//!
//! The list has no order but this one: its first element is the element on
//! which a scan from the front settles. After the key of the first element
//! has changed, or the first element has left, one scan and one move to the
//! front restore it.

use crate::comparators::consistent;
use crate::comparators::Compare;
use std::cmp::Ordering;
use vstd::prelude::*;

verus! {

/// The index on which a scan of `s` settles.
///
/// The scan starts with the first element as its candidate and walks to the
/// end. An element replaces the candidate when the candidate is answered
/// `Less` against it. So of two elements that rank equal, the one that stands
/// first stays.
pub open spec fn champion<E, K: Compare<E>>(k: &K, s: Seq<E>) -> int
    decreases s.len(),
{
    if s.len() <= 1 {
        0
    } else {
        let b = champion(k, s.drop_last());
        if k.ordering(s[b], s.last()) == Ordering::Less {
            s.len() - 1
        } else {
            b
        }
    }
}

/// `s` with the element at `i` moved to the front; the others keep their order.
pub open spec fn promoted<E>(s: Seq<E>, i: int) -> Seq<E> {
    s.remove(i).insert(0, s[i])
}

/// `s` with its champion moved to the front.
pub open spec fn reranked<E, K: Compare<E>>(k: &K, s: Seq<E>) -> Seq<E> {
    if s.len() == 0 {
        s
    } else {
        promoted(s, champion(k, s))
    }
}

/// A newcomer `e` enters `s` at the front when it is chosen strictly before
/// the first element, else at the end.
pub open spec fn enters_first<E, K: Compare<E>>(k: &K, s: Seq<E>, e: E) -> bool {
    s.len() > 0 && k.ordering(e, s[0]) == Ordering::Greater
}

/// `s` with the newcomer `e`.
pub open spec fn attached<E, K: Compare<E>>(k: &K, s: Seq<E>, e: E) -> Seq<E> {
    if enters_first(k, s, e) {
        s.insert(0, e)
    } else {
        s.push(e)
    }
}

/// The first `n` elements of `s`.
pub open spec fn leading<E>(s: Seq<E>, n: usize) -> Seq<E> {
    s.take(n as int)
}

/// The element of `s` at `n`.
pub open spec fn nth<E>(s: Seq<E>, n: usize) -> E {
    s[n as int]
}

/// No element of `s` is chosen strictly before its first element.
pub open spec fn unrivalled<E, K: Compare<E>>(k: &K, s: Seq<E>) -> bool {
    forall|i: int| 0 <= i < s.len() ==> k.ordering(#[trigger] s[i], s[0]) != Ordering::Greater
}

/// The champion of a list is one of its elements.
pub proof fn lemma_champion_in_range<E, K: Compare<E>>(k: &K, s: Seq<E>)
    requires
        s.len() > 0,
    ensures
        0 <= champion(k, s) < s.len(),
    decreases s.len(),
{
    if s.len() > 1 {
        lemma_champion_in_range(k, s.drop_last());
    }
}

/// One step of the scan: from the champion `best` of the first `j` elements
/// to the champion of the first `next = j + 1`.
pub proof fn lemma_champion_next<E, K: Compare<E>>(
    k: &K,
    s: Seq<E>,
    j: usize,
    next: usize,
    best: usize,
)
    requires
        1 <= j < s.len(),
        next == j + 1,
        best < j,
        best == champion(k, leading(s, j)),
    ensures
        champion(k, leading(s, next)) == if k.ordering(nth(s, best), nth(s, j))
            == Ordering::Less {
            j
        } else {
            best
        },
{
    let grown = leading(s, next);
    assert(grown.drop_last() == leading(s, j));
    assert(grown.last() == nth(s, j));
    assert(grown[champion(k, leading(s, j))] == nth(s, best));
}

/// Under a consistent order no element is chosen strictly before the champion.
pub proof fn lemma_champion_unrivalled<E, K: Compare<E>>(k: &K, s: Seq<E>)
    requires
        consistent::<E, K>(k),
        s.len() > 0,
    ensures
        forall|i: int|
            0 <= i < s.len() ==> k.ordering(#[trigger] s[i], s[champion(k, s)])
                != Ordering::Greater,
    decreases s.len(),
{
    let c = champion(k, s);
    lemma_champion_in_range(k, s);
    if s.len() == 1 {
        assert(k.ordering(s[0], s[0]) == Ordering::Greater ==> k.ordering(s[0], s[0])
            == Ordering::Less);
    } else {
        let t = s.drop_last();
        let b = champion(k, t);
        lemma_champion_in_range(k, t);
        lemma_champion_unrivalled(k, t);
        let last = s.last();
        assert forall|i: int| 0 <= i < s.len() implies k.ordering(#[trigger] s[i], s[c])
            != Ordering::Greater by {
            if i < t.len() {
                assert(t[i] == s[i]);
                assert(k.ordering(t[i], t[b]) != Ordering::Greater);
                if c != b {
                    assert(k.ordering(s[b], last) != Ordering::Greater);
                }
            } else {
                if c == b {
                    assert(k.ordering(last, s[b]) == Ordering::Greater ==> k.ordering(s[b], last)
                        == Ordering::Less);
                } else {
                    assert(k.ordering(last, last) == Ordering::Greater ==> k.ordering(last, last)
                        == Ordering::Less);
                }
            }
        }
    }
}

/// Under a consistent order a list that was ranked anew has the element that
/// is due next at its front.
pub proof fn lemma_reranked_unrivalled<E, K: Compare<E>>(k: &K, s: Seq<E>)
    requires
        consistent::<E, K>(k),
    ensures
        unrivalled(k, reranked(k, s)),
{
    if s.len() > 0 {
        let c = champion(k, s);
        lemma_champion_in_range(k, s);
        lemma_champion_unrivalled(k, s);
        let r = reranked(k, s);
        assert forall|i: int| 0 <= i < r.len() implies k.ordering(#[trigger] r[i], r[0])
            != Ordering::Greater by {
            if i == 0 {
                assert(r[i] == s[c]);
            } else if i <= c {
                assert(r[i] == s[i - 1]);
            } else {
                assert(r[i] == s[i]);
            }
        }
    }
}

/// A newcomer leaves the element that is due next at the front, under a
/// consistent order.
pub proof fn lemma_attached_unrivalled<E, K: Compare<E>>(k: &K, s: Seq<E>, e: E)
    requires
        consistent::<E, K>(k),
        unrivalled(k, s),
    ensures
        unrivalled(k, attached(k, s, e)),
{
    let r = attached(k, s, e);
    assert forall|i: int| 0 <= i < r.len() implies k.ordering(#[trigger] r[i], r[0])
        != Ordering::Greater by {
        if enters_first(k, s, e) {
            if i == 0 {
                assert(k.ordering(e, e) == Ordering::Greater ==> k.ordering(e, e)
                    == Ordering::Less);
            } else {
                assert(r[i] == s[i - 1]);
                assert(k.ordering(s[i - 1], s[0]) != Ordering::Greater);
                assert(k.ordering(s[0], e) == Ordering::Less);
            }
        } else if s.len() == 0 {
            assert(k.ordering(e, e) == Ordering::Greater ==> k.ordering(e, e)
                == Ordering::Less);
        } else {
            if i < s.len() {
                assert(r[i] == s[i]);
            }
        }
    }
}

} // verus!
