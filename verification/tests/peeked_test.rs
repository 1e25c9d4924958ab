use std::cmp::Ordering;

use stream_more::comparators::Ascending;
use stream_more::comparators::Descending;
use stream_more::comparators::FnCmp;
use stream_more::kmerge::heap_entry::HeapEntry;
use stream_more::kmerge::heap_entry::HeapEntryCmp;
use stream_more::peeked::Peeked;
use stream_more::peeked::Peeked::No;
use stream_more::peeked::Peeked::Yes;
use stream_more::Compare;

#[test]
fn test_peeked_cmp() -> anyhow::Result<()> {
    // no vs yes
    {
        assert_eq!(HeapEntryCmp::new(Descending).compare(&No, &Yes(())), Ordering::Greater);
        assert_eq!(HeapEntryCmp::new(Ascending).compare(&No, &Yes(())), Ordering::Greater);
    }

    // no vs no
    {
        assert_eq!(HeapEntryCmp::<(), _>::new(Descending).compare(&No, &No), Ordering::Equal);
        assert_eq!(HeapEntryCmp::<(), _>::new(Ascending).compare(&No, &No), Ordering::Equal);
    }

    // yes vs no
    {
        assert_eq!(HeapEntryCmp::new(Descending).compare(&Yes(()), &No), Ordering::Less);
        assert_eq!(HeapEntryCmp::new(Ascending).compare(&Yes(()), &No), Ordering::Less);
    }

    // yes vs yes
    {
        assert_eq!(HeapEntryCmp::new(Descending).compare(&Yes(()), &Yes(())), Ordering::Equal);
        assert_eq!(HeapEntryCmp::new(Descending).compare(&Yes(1), &Yes(1)), Ordering::Equal);
        assert_eq!(HeapEntryCmp::new(Descending).compare(&Yes(2), &Yes(1)), Ordering::Greater);
        assert_eq!(HeapEntryCmp::new(Descending).compare(&Yes(2), &Yes(3)), Ordering::Less);

        assert_eq!(HeapEntryCmp::new(Ascending).compare(&Yes(()), &Yes(())), Ordering::Equal);
        assert_eq!(HeapEntryCmp::new(Ascending).compare(&Yes(1), &Yes(1)), Ordering::Equal);
        assert_eq!(HeapEntryCmp::new(Ascending).compare(&Yes(2), &Yes(1)), Ordering::Less);
        assert_eq!(HeapEntryCmp::new(Ascending).compare(&Yes(2), &Yes(3)), Ordering::Greater);
    }
    Ok(())
}

#[test]
fn test_peeked_take_empties_the_cell() {
    let mut cell = Yes(7u64);
    assert!(cell.has_peeked());
    assert_eq!(Some(7), cell.take());
    assert!(!cell.has_peeked());
    assert_eq!(None, cell.take());
    assert!(!cell.has_peeked());

    let mut empty: Peeked<u64> = No;
    assert!(!empty.has_peeked());
    assert_eq!(None, empty.take());
}

#[test]
fn test_natural_orders() {
    assert_eq!(Ordering::Less, Descending.compare(&1u64, &2u64));
    assert_eq!(Ordering::Equal, Descending.compare(&2u64, &2u64));
    assert_eq!(Ordering::Greater, Descending.compare(&3u64, &2u64));

    assert_eq!(Ordering::Greater, Ascending.compare(&1u64, &2u64));
    assert_eq!(Ordering::Equal, Ascending.compare(&2u64, &2u64));
    assert_eq!(Ordering::Less, Ascending.compare(&3u64, &2u64));
}

#[test]
fn test_fn_cmp_never_answers_equal() {
    let before = FnCmp(|a: &u64, b: &u64| a < b);
    assert_eq!(Ordering::Greater, before.compare(&1, &2));
    assert_eq!(Ordering::Less, before.compare(&2, &1));
    assert_eq!(Ordering::Less, before.compare(&2, &2));
}

#[test]
fn test_entries_compare_by_their_cells() {
    let order = HeapEntryCmp::new(Descending);
    let mut low = HeapEntry::new(());
    low.peeked = Yes(1u64);
    let mut high = HeapEntry::new(());
    high.peeked = Yes(9u64);
    let fresh: HeapEntry<u64, ()> = HeapEntry::new(());

    assert_eq!(Ordering::Less, order.compare(&low, &high));
    assert_eq!(Ordering::Greater, order.compare(&high, &low));
    assert_eq!(Ordering::Equal, order.compare(&high, &high));
    assert_eq!(Ordering::Greater, order.compare(&fresh, &high));
    assert_eq!(Ordering::Less, order.compare(&low, &fresh));
    assert_eq!(Ordering::Equal, order.compare(&fresh, &fresh));
}

#[test]
fn test_entry_ids() {
    let entry: HeapEntry<u64, ()> = HeapEntry::new(());
    assert_eq!("", entry.id);
    assert!(!entry.peeked.has_peeked());
    let entry = entry.with_id(12.to_string());
    assert_eq!("12", entry.id);
    assert!(!entry.peeked.has_peeked());
}
