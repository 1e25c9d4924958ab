use std::pin::Pin;
use std::task::Context;
use std::task::Poll;

use futures::executor::block_on;
use futures::stream;
use futures::stream::iter;
use futures::stream::BoxStream;
use futures::Stream;
use futures::StreamExt;

use stream_more::comparators::Ascending;
use stream_more::comparators::Descending;
use stream_more::Compare;
use stream_more::KMerge;
use stream_more::Polled;

/// Drives a merge of boxed streams: polls the stream that the merge asks for
/// and hands the answer back.
struct Driven<'a, C: Compare<D>, D>(KMerge<C, D, BoxStream<'a, D>>);

impl<'a, C, D> Stream for Driven<'a, C, D>
where
    C: Compare<D> + Unpin,
    D: Unpin,
{
    type Item = D;

    fn poll_next(mut self: Pin<&mut Self>, cx: &mut Context<'_>) -> Poll<Option<D>> {
        loop {
            if let Some(out) = self.0.ready() {
                return answer(out);
            }
            let polled = match self.0.awaited() {
                Some(stream) => match stream.as_mut().poll_next(cx) {
                    Poll::Pending => Polled::Pending,
                    Poll::Ready(Some(item)) => Polled::Item(item),
                    Poll::Ready(None) => Polled::End,
                },
                None => unreachable!(),
            };
            if let Some(out) = self.0.resume(polled) {
                return answer(out);
            }
        }
    }
}

fn answer<D>(out: Polled<D>) -> Poll<Option<D>> {
    match out {
        Polled::Pending => Poll::Pending,
        Polled::Item(item) => Poll::Ready(Some(item)),
        Polled::End => Poll::Ready(None),
    }
}

#[test]
fn test_ref_item() -> anyhow::Result<()> {
    struct Foo {
        i: u64,
    }

    fn build_it(foo: &Foo) -> BoxStream<&u64> {
        iter(vec![&foo.i]).boxed()
    }

    let f1 = Foo { i: 3 };
    let f2 = Foo { i: 4 };

    let x = build_it(&f1);
    let y = build_it(&f2);

    let z = Driven(KMerge::max().merge(x).merge(y));
    let got = block_on(z.collect::<Vec<&u64>>());
    assert_eq!(vec![&4, &3], got);

    Ok(())
}

#[test]
fn test_kmerge_max() -> anyhow::Result<()> {
    let x = iter([2, 4, 5]);
    let y = iter([1, 3, 6]);

    let z = Driven(KMerge::max().merge(x.boxed()).merge(y.boxed()));
    let got = block_on(z.collect::<Vec<u64>>());
    assert_eq!(vec![2, 4, 5, 1, 3, 6], got);

    //

    let x = iter([5, 4, 2]);
    let y = iter([6, 3, 1]);

    let z = Driven(KMerge::max().merge(x.boxed()).merge(y.boxed()));
    let got = block_on(z.collect::<Vec<u64>>());
    assert_eq!(vec![6, 5, 4, 3, 2, 1], got);

    Ok(())
}

#[test]
fn test_kmerge_min() -> anyhow::Result<()> {
    let x = iter([5, 4, 2]);
    let y = iter([6, 3, 1]);

    let z = Driven(KMerge::min().merge(x.boxed()).merge(y.boxed()));
    let got = block_on(z.collect::<Vec<u64>>());

    assert_eq!(vec![5, 4, 2, 6, 3, 1], got);

    //

    let x = iter([2, 4, 5]);
    let y = iter([1, 3, 6]);

    let z = Driven(KMerge::min().merge(x.boxed()).merge(y.boxed()));
    let got = block_on(z.collect::<Vec<u64>>());

    assert_eq!(vec![1, 2, 3, 4, 5, 6], got);
    Ok(())
}

#[test]
fn test_kmerge_by() -> anyhow::Result<()> {
    let x = iter([4, 5, 2]);
    let y = iter([6, 3, 1]);

    let z = Driven(KMerge::by_fn(|a: &u64, b: &u64| a % 3 < b % 3).merge(x.boxed()).merge(y.boxed()));
    let got = block_on(z.collect::<Vec<u64>>());

    assert_eq!(
        vec![
            //
            6, // 0
            3, // 0
            4, // 1
            1, // 1
            5, // 2
            2, // 2
        ],
        got
    );
    Ok(())
}

#[test]
fn test_kmerge_struct_by() -> anyhow::Result<()> {
    let x = iter([4, 5, 2]);
    let y = iter([6, 3, 1]);

    let z = Driven(KMerge::by_fn(|a: &u64, b: &u64| a < b).merge(x.boxed()).merge(y.boxed()));
    let got = block_on(z.collect::<Vec<u64>>());

    assert_eq!(vec![4, 5, 2, 6, 3, 1], got);

    Ok(())
}

#[test]
fn test_kmerge_struct_by_cmp() -> anyhow::Result<()> {
    let x = iter([4, 5, 2]);
    let y = iter([6, 3, 1]);

    let z = Driven(KMerge::by_cmp(Descending).merge(x.boxed()).merge(y.boxed()));
    let got = block_on(z.collect::<Vec<u64>>());

    assert_eq!(vec![6, 4, 5, 3, 2, 1], got);

    Ok(())
}

#[test]
fn test_3_way_kmerge() -> anyhow::Result<()> {
    let x = iter([2, 5, 7]);
    let y = iter([1, 3, 6]);
    let w = iter([2, 4, 8]);

    let z = Driven(KMerge::min().merge(x.boxed()).merge(y.boxed()).merge(w.boxed()));

    let got = block_on(z.collect::<Vec<u64>>());

    assert_eq!(vec![1, 2, 2, 3, 4, 5, 6, 7, 8], got);
    Ok(())
}

#[test]
fn test_pending() -> anyhow::Result<()> {
    let mut poll_results = vec![
        Poll::Pending,
        Poll::Ready(Some(8)),
        Poll::Pending,
        Poll::Ready(Some(4)),
        Poll::Pending,
        Poll::Ready(None),
    ];
    let x = stream::poll_fn(move |ctx: &mut Context<'_>| {
        // Wake up the runtime after a Pending
        ctx.waker().wake_by_ref();
        poll_results.remove(0)
    });

    let y = iter([6, 3, 1]);

    let z = Driven(KMerge::max().merge(x.boxed()).merge(y.boxed()));
    let got = block_on(z.collect::<Vec<u64>>());

    assert_eq!(vec![8, 6, 4, 3, 1], got);

    Ok(())
}

#[test]
fn test_no_more_polling_after_none() -> anyhow::Result<()> {
    let mut poll_results = vec![Poll::Ready(Some(4)), Poll::Ready(None), Poll::Ready(Some(1))];

    let x = stream::poll_fn(move |_ctx: &mut Context<'_>| poll_results.remove(0));

    let y = iter([3, 1]);

    let z = Driven(KMerge::max().merge(x.boxed()).merge(y.boxed()));
    let got = block_on(z.collect::<Vec<u64>>());
    assert_eq!(vec![4, 3, 1], got);

    Ok(())
}

#[test]
fn test_continue_append_more_streams_after_polling() -> anyhow::Result<()> {
    let mut z = Driven(KMerge::min().merge(iter([1, 3]).boxed()).merge(iter([2, 4]).boxed()));

    let cx = &mut Context::from_waker(futures::task::noop_waker_ref());

    assert_eq!(Poll::Ready(Some(1)), Pin::new(&mut z).poll_next(cx));
    assert_eq!(Poll::Ready(Some(2)), Pin::new(&mut z).poll_next(cx));

    let z = Driven(z.0.merge(iter([1, 5]).boxed()));

    let got = block_on(z.collect::<Vec<_>>());
    assert_eq!(vec![1, 3, 4, 5], got);
    Ok(())
}

#[test]
fn test_merge_of_nothing_ends_at_once() {
    let mut m: KMerge<Ascending, u64, BoxStream<u64>> = KMerge::min();
    assert_eq!(Some(Polled::End), m.ready());
    assert!(m.awaited().is_none());
    assert_eq!(Some(Polled::End), m.ready());

    let z: Driven<Descending, u64> = Driven(KMerge::max());
    assert_eq!(Vec::<u64>::new(), block_on(z.collect::<Vec<u64>>()));
}

#[test]
fn test_merge_of_one_producer_is_that_producer() {
    let z = Driven(KMerge::min().merge(iter([3, 1, 2, 2, 9, 0]).boxed()));
    assert_eq!(vec![3, 1, 2, 2, 9, 0], block_on(z.collect::<Vec<u64>>()));

    let z = Driven(KMerge::by_fn(|a: &u64, b: &u64| a > b).merge(iter([3, 1, 2]).boxed()));
    assert_eq!(vec![3, 1, 2], block_on(z.collect::<Vec<u64>>()));
}

#[test]
fn test_every_producer_is_peeked_before_the_first_item() {
    let mut m = KMerge::min().merge(iter([5u64]).boxed()).merge(iter([1u64]).boxed());

    // Nothing is peeked: no answer, and the first producer is due.
    assert_eq!(None, m.ready());
    assert!(m.awaited().is_some());
    assert_eq!(None, m.resume(Polled::Item(5)));

    // One producer is peeked, the other is due before 5 may leave.
    assert_eq!(None, m.ready());
    assert!(m.awaited().is_some());
    assert_eq!(None, m.resume(Polled::Item(1)));

    assert_eq!(Some(Polled::Item(1)), m.ready());
    assert_eq!(None, m.ready());
    assert_eq!(None, m.resume(Polled::End));
    assert_eq!(Some(Polled::Item(5)), m.ready());
    assert_eq!(None, m.resume(Polled::End));
    assert_eq!(Some(Polled::End), m.ready());
}

#[test]
fn test_not_ready_changes_nothing() {
    let mut m = KMerge::max().merge(iter([7u64]).boxed());
    assert_eq!(None, m.ready());
    assert_eq!(Some(Polled::Pending), m.resume(Polled::Pending));
    assert_eq!(Some(Polled::Pending), m.resume(Polled::Pending));
    assert_eq!(None, m.ready());
    assert!(m.awaited().is_some());
    assert_eq!(None, m.resume(Polled::Item(7)));
    assert_eq!(Some(Polled::Item(7)), m.ready());
}

#[test]
fn test_no_producer_is_handed_out_while_an_item_is_held() {
    let mut m = KMerge::max().merge(iter([7u64]).boxed());
    assert_eq!(None, m.resume(Polled::Item(7)));
    assert!(m.awaited().is_none());
    assert_eq!(Some(Polled::Item(7)), m.ready());
    assert!(m.awaited().is_some());
}

#[test]
fn test_a_producer_that_ended_is_gone() {
    let mut m: KMerge<Descending, u64, BoxStream<u64>> = KMerge::max().merge(iter([7u64]).boxed());
    assert_eq!(None, m.resume(Polled::End));
    assert!(m.awaited().is_none());
    assert_eq!(Some(Polled::End), m.ready());
}

#[test]
fn test_a_newcomer_goes_before_a_held_item() {
    let mut m = KMerge::min().merge(iter([4u64, 6]).boxed());
    let cx = &mut Context::from_waker(futures::task::noop_waker_ref());

    // Peek 4, then attach a producer whose first item is smaller.
    assert_eq!(None, m.ready());
    let peeked = match m.awaited() {
        Some(stream) => stream.as_mut().poll_next(cx),
        None => unreachable!(),
    };
    assert_eq!(Poll::Ready(Some(4)), peeked);
    assert_eq!(None, m.resume(Polled::Item(4)));
    let mut m = m.merge(iter([1u64, 5]).boxed());
    assert_eq!(None, m.ready());
    let first = match m.awaited() {
        Some(stream) => stream.as_mut().poll_next(cx),
        None => unreachable!(),
    };
    assert_eq!(Poll::Ready(Some(1)), first);
    assert_eq!(None, m.resume(Polled::Item(1)));
    assert_eq!(Some(Polled::Item(1)), m.ready());

    let got = block_on(Driven(m).collect::<Vec<u64>>());
    assert_eq!(vec![4, 5, 6], got);
}

#[test]
fn test_equal_items_all_come_out() {
    let x = iter([1u64, 1, 2]);
    let y = iter([1u64, 2, 2]);
    let w = iter([1u64]);
    let z = Driven(KMerge::min().merge(x.boxed()).merge(y.boxed()).merge(w.boxed()));
    assert_eq!(vec![1, 1, 1, 1, 2, 2, 2], block_on(z.collect::<Vec<u64>>()));
}

#[test]
fn test_four_way_merge_in_descending_order() {
    let a = iter([9u64, 5, 1]);
    let b = iter([8u64, 4]);
    let c = iter([7u64, 3]);
    let d = iter([6u64, 2, 0]);
    let z = Driven(KMerge::by_cmp(Descending).merge(a.boxed()).merge(b.boxed()).merge(c.boxed()).merge(d.boxed()));
    assert_eq!(vec![9, 8, 7, 6, 5, 4, 3, 2, 1, 0], block_on(z.collect::<Vec<u64>>()));
}

/// Sorted runs made from a fixed seed; `step` bounds the gap between items.
fn sorted_run(seed: &mut u64, len: usize, step: u64) -> Vec<u64> {
    let mut run = Vec::new();
    let mut item = 0u64;
    for _ in 0..len {
        *seed = seed.wrapping_mul(6364136223846793005).wrapping_add(1442695040888963407);
        item += (*seed >> 33) % step;
        run.push(item);
    }
    run
}

#[test]
fn test_merge_of_sorted_inputs_is_their_sorted_union() {
    let mut seed = 7u64;
    for k in 0..6usize {
        let mut inputs = Vec::new();
        for i in 0..k {
            inputs.push(sorted_run(&mut seed, (i * 3 + k) % 7, 4));
        }
        let mut expected: Vec<u64> = inputs.iter().flatten().copied().collect();
        expected.sort();

        let mut m = KMerge::min();
        for input in inputs.iter() {
            m = m.merge(iter(input.clone()).boxed());
        }
        assert_eq!(k as u64, m.merged());
        assert_eq!(expected, block_on(Driven(m).collect::<Vec<u64>>()));

        expected.reverse();
        let mut m = KMerge::max();
        for input in inputs.iter() {
            let mut falling = input.clone();
            falling.reverse();
            m = m.merge(iter(falling).boxed());
        }
        assert_eq!(expected, block_on(Driven(m).collect::<Vec<u64>>()));
    }
}

#[test]
fn test_stalling_producers_give_the_same_merge() {
    let answers = |items: Vec<u64>| -> Vec<Poll<Option<u64>>> {
        let mut script = Vec::new();
        for item in items {
            script.push(Poll::Pending);
            script.push(Poll::Pending);
            script.push(Poll::Ready(Some(item)));
        }
        script.push(Poll::Pending);
        script.push(Poll::Ready(None));
        // A producer that is asked after its end would hand these out.
        script.push(Poll::Ready(Some(0)));
        script.push(Poll::Ready(Some(99)));
        script
    };
    let mut first = answers(vec![1, 4, 7]);
    let mut second = answers(vec![2, 3, 8, 9]);
    let x = stream::poll_fn(move |ctx: &mut Context<'_>| {
        ctx.waker().wake_by_ref();
        first.remove(0)
    });
    let y = stream::poll_fn(move |ctx: &mut Context<'_>| {
        ctx.waker().wake_by_ref();
        second.remove(0)
    });
    let z = Driven(KMerge::min().merge(x.boxed()).merge(y.boxed()));
    assert_eq!(vec![1, 2, 3, 4, 7, 8, 9], block_on(z.collect::<Vec<u64>>()));
}

#[test]
fn test_merged_counts_the_producers() {
    let m: KMerge<Ascending, u64, BoxStream<u64>> = KMerge::min();
    assert_eq!(0, m.merged());
    let m = m.merge(iter([1u64]).boxed());
    assert_eq!(1, m.merged());
    let mut m = m.merge(iter([2u64]).boxed());
    assert_eq!(2, m.merged());
    assert_eq!(None, m.resume(Polled::End));
    assert_eq!(2, m.merged());
    let m = m.merge(iter([3u64]).boxed());
    assert_eq!(3, m.merged());
}
