use std::pin::Pin;
use std::task::Context;
use std::task::Poll;

use futures::executor::block_on;
use futures::stream;
use futures::stream::iter;
use futures::stream::BoxStream;
use futures::Stream;
use futures::StreamExt;

use stream_more::Coalesce;
use stream_more::Polled;

/// Drives a coalescer of a boxed stream: polls the stream while the coalescer
/// asks for it and hands each answer back.
struct Driven<'a, T, F>(Coalesce<T, F, BoxStream<'a, T>>);

impl<'a, T, F> Stream for Driven<'a, T, F>
where
    T: Unpin,
    F: FnMut(T, T) -> Result<T, (T, T)> + Unpin,
{
    type Item = T;

    fn poll_next(mut self: Pin<&mut Self>, cx: &mut Context<'_>) -> Poll<Option<T>> {
        loop {
            if let Some(out) = self.0.ready() {
                return answer(out);
            }
            let polled = match self.0.awaited() {
                Some(stream) => match stream.as_mut().poll_next(cx) {
                    Poll::Pending => Polled::Pending,
                    Poll::Ready(Some(item)) => Polled::Item(item),
                    Poll::Ready(None) => Polled::End,
                },
                None => unreachable!(),
            };
            if let Some(out) = self.0.resume(polled) {
                return answer(out);
            }
        }
    }
}

fn answer<T>(out: Polled<T>) -> Poll<Option<T>> {
    match out {
        Polled::Pending => Poll::Pending,
        Polled::Item(item) => Poll::Ready(Some(item)),
        Polled::End => Poll::Ready(None),
    }
}

#[test]
fn test_coalesce_empty() -> anyhow::Result<()> {
    let data = iter(vec![]);
    let got = Driven(Coalesce::new(data.boxed(), |x: u64, y| Ok(x + y))).collect::<Vec<_>>();

    let got = block_on(got);
    assert_eq!(0, got.len());
    Ok(())
}

#[test]
fn test_coalesce_one_item() -> anyhow::Result<()> {
    let data = iter(vec![1u64]);
    let got = Driven(Coalesce::new(data.boxed(), |x: u64, y| Ok(x + y))).collect::<Vec<_>>();

    let got = block_on(got);
    assert_eq!(vec![1u64], got);
    Ok(())
}

#[test]
fn test_coalesce_basic() -> anyhow::Result<()> {
    let data = iter(vec![-1., -2., -3., 3., 1., 0., -1.]);
    let got = Driven(Coalesce::new(data.boxed(), |x: f64, y: f64| {
        //
        if (x >= 0.) == (y >= 0.) {
            Ok(x + y)
        } else {
            Err((x, y))
        }
    }))
    .collect::<Vec<_>>();

    let got = block_on(got);
    assert_eq!(vec![-6., 4., -1.], got);
    Ok(())
}

#[test]
fn test_coalesce_pending() -> anyhow::Result<()> {
    let mut poll_results = vec![
        Poll::Pending,
        Poll::Ready(Some(8)),
        Poll::Pending,
        Poll::Ready(Some(4)),
        Poll::Pending,
        Poll::Ready(None),
    ];
    let x = stream::poll_fn(move |ctx: &mut Context<'_>| {
        // Wake up the runtime after a Pending
        ctx.waker().wake_by_ref();
        poll_results.remove(0)
    });

    let z = Driven(Coalesce::new(x.boxed(), |x: u64, y| Ok(x + y)));
    let got = block_on(z.collect::<Vec<u64>>());

    assert_eq!(vec![12], got);

    Ok(())
}

#[test]
fn test_coalesce_no_more_polling_after_none() -> anyhow::Result<()> {
    let mut poll_results = vec![Poll::Ready(Some(4)), Poll::Ready(None), Poll::Ready(Some(1))];

    let x = stream::poll_fn(move |_ctx: &mut Context<'_>| poll_results.remove(0));

    let z = Driven(Coalesce::new(x.boxed(), |x, y| Ok(x + y)));
    let got = block_on(z.collect::<Vec<u64>>());
    assert_eq!(vec![4], got);

    Ok(())
}

#[test]
fn test_coalesce_same_sign_runs_of_integers() {
    let data = iter(vec![-1i64, -2, -3, 3, 1, 0, -1]);
    let z = Driven(Coalesce::new(data.boxed(), |x: i64, y: i64| {
        if (x >= 0) == (y >= 0) {
            Ok(x + y)
        } else {
            Err((x, y))
        }
    }));
    assert_eq!(vec![-6, 4, -1], block_on(z.collect::<Vec<i64>>()));
}

#[test]
fn test_coalesce_steps() {
    let mut c = Coalesce::new(iter(Vec::<u64>::new()).boxed(), |x: u64, y: u64| {
        if x == y {
            Ok(x + y)
        } else {
            Err((x, y))
        }
    });

    // Nothing is held back, the first item is kept.
    assert_eq!(None, c.ready());
    assert_eq!(None, c.resume(Polled::Item(2)));
    // Not ready: passed on, and the item stays.
    assert_eq!(Some(Polled::Pending), c.resume(Polled::Pending));
    // 2 and 2 combine to 4, 4 and 4 to 8.
    assert_eq!(None, c.resume(Polled::Item(2)));
    assert_eq!(None, c.resume(Polled::Item(4)));
    // 8 and 3 do not combine: 8 leaves, 3 is kept.
    assert_eq!(Some(Polled::Item(8)), c.resume(Polled::Item(3)));
    assert_eq!(None, c.ready());
    assert!(c.awaited().is_some());
    // The end hands out what is kept and is recorded.
    assert_eq!(Some(Polled::Item(3)), c.resume(Polled::End));
    assert_eq!(Some(Polled::End), c.ready());
    assert!(c.awaited().is_none());
    assert_eq!(Some(Polled::End), c.ready());
}

#[test]
fn test_coalesce_end_with_nothing_held_back() {
    let mut c = Coalesce::new(iter(Vec::<u64>::new()).boxed(), |x: u64, y: u64| Ok(x + y));
    assert_eq!(None, c.ready());
    assert!(c.awaited().is_some());
    assert_eq!(Some(Polled::End), c.resume(Polled::End));
    // The end is recorded: the producer is never handed out again.
    assert_eq!(Some(Polled::End), c.ready());
    assert!(c.awaited().is_none());
    assert_eq!(Some(Polled::End), c.ready());
    assert!(c.awaited().is_none());
}

#[test]
fn test_coalesce_of_an_empty_producer_that_would_go_on() {
    let mut polls = 0u32;
    let mut poll_results = vec![Poll::Ready(None), Poll::Ready(Some(1u64)), Poll::Ready(Some(2))];
    let x = stream::poll_fn(move |_ctx: &mut Context<'_>| {
        polls += 1;
        assert_eq!(1, polls);
        poll_results.remove(0)
    });
    let mut z = Driven(Coalesce::new(x.boxed(), |x: u64, y: u64| Ok(x + y)));
    let cx = &mut Context::from_waker(futures::task::noop_waker_ref());
    assert_eq!(Poll::Ready(None), Pin::new(&mut z).poll_next(cx));
    assert_eq!(Poll::Ready(None), Pin::new(&mut z).poll_next(cx));
    assert_eq!(Poll::Ready(None), Pin::new(&mut z).poll_next(cx));
}

#[test]
fn test_coalesce_ends_for_good_after_the_last_item() {
    let mut poll_results = vec![Poll::Ready(Some(4u64)), Poll::Ready(None), Poll::Ready(Some(1))];
    let x = stream::poll_fn(move |_ctx: &mut Context<'_>| poll_results.remove(0));
    let mut z = Driven(Coalesce::new(x.boxed(), |x: u64, y: u64| Ok(x + y)));
    let cx = &mut Context::from_waker(futures::task::noop_waker_ref());
    assert_eq!(Poll::Ready(Some(4)), Pin::new(&mut z).poll_next(cx));
    assert_eq!(Poll::Ready(None), Pin::new(&mut z).poll_next(cx));
    assert_eq!(Poll::Ready(None), Pin::new(&mut z).poll_next(cx));
}

#[test]
fn test_coalesce_rejection_may_reshape_the_pair() {
    let data = iter(vec![1u64, 2, 3]);
    let z = Driven(Coalesce::new(data.boxed(), |x: u64, y: u64| Err((x * 10, y * 100))));
    // 1,2 -> out 10, keep 200; 200,3 -> out 2000, keep 300; end -> 300
    assert_eq!(vec![10, 2000, 300], block_on(z.collect::<Vec<u64>>()));
}

#[test]
fn test_coalesce_never_combining_keeps_the_items() {
    let data = iter(vec![5u64, 5, 6]);
    let z = Driven(Coalesce::new(data.boxed(), |x: u64, y: u64| Err((x, y))));
    assert_eq!(vec![5, 5, 6], block_on(z.collect::<Vec<u64>>()));
}

#[test]
fn test_coalesce_stalls_and_late_answers_do_not_count() {
    let mut poll_results = vec![
        Poll::Pending,
        Poll::Ready(Some(1u64)),
        Poll::Pending,
        Poll::Pending,
        Poll::Ready(Some(1)),
        Poll::Ready(Some(5)),
        Poll::Pending,
        Poll::Ready(None),
        Poll::Ready(Some(5)),
        Poll::Ready(Some(7)),
    ];
    let x = stream::poll_fn(move |ctx: &mut Context<'_>| {
        ctx.waker().wake_by_ref();
        poll_results.remove(0)
    });
    let z = Driven(Coalesce::new(x.boxed(), |x: u64, y: u64| if x == y { Ok(x + y) } else { Err((x, y)) }));
    assert_eq!(vec![2, 5], block_on(z.collect::<Vec<u64>>()));
}
