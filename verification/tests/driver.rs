use bit_set::BitSet;
use futures::channel::oneshot;
use futures::future::FutureExt;
use futures::stream::Stream;
use futures::task::noop_waker_ref;
use futures::task::LocalFutureObj;
use op_driver::driver::after_first_poll;
use op_driver::driver::inflight_stats;
use op_driver::driver::settle_fallible;
use op_driver::driver::settle_infallible;
use op_driver::driver::FirstPoll;
use op_driver::driver::FuturesUnorderedDriver;
use op_driver::driver::Ops;
use op_driver::driver::Settled;
use op_driver::op_futures::OpFuture;
use op_driver::op_futures::OpWork;
use op_driver::op_results::OpError;
use op_driver::op_results::OpResult;
use op_driver::op_results::OpValue;
use op_driver::op_results::PendingOp;
use op_driver::op_results::PendingOpInfo;
use std::cell::Cell;
use std::future::ready;
use std::future::Future;
use std::pin::Pin;
use std::rc::Rc;
use std::sync::atomic::AtomicUsize;
use std::sync::atomic::Ordering;
use std::sync::Arc;
use std::task::Context;
use std::task::Poll;
use std::task::Wake;
use std::task::Waker;

fn value(v: OpValue) -> LocalFutureObj<'static, OpValue> {
    LocalFutureObj::new(Box::new(ready(v)))
}

fn fallible(result: OpResult) -> LocalFutureObj<'static, OpResult> {
    LocalFutureObj::new(Box::new(ready(result)))
}

fn error(key: u64) -> OpError {
    OpError { key }
}

fn later() -> (oneshot::Sender<OpValue>, LocalFutureObj<'static, OpValue>) {
    let (tx, rx) = oneshot::channel();
    (tx, LocalFutureObj::new(Box::new(rx.map(|v| v.unwrap()))))
}

fn later_fallible() -> (
    oneshot::Sender<OpResult>,
    LocalFutureObj<'static, OpResult>,
) {
    let (tx, rx) = oneshot::channel();
    (tx, LocalFutureObj::new(Box::new(rx.map(|v| v.unwrap()))))
}

/// A future that counts how often it is polled and is done the first time.
fn counted(polls: &Rc<Cell<usize>>, v: OpValue) -> LocalFutureObj<'static, OpValue> {
    let polls = polls.clone();
    LocalFutureObj::new(Box::new(std::future::poll_fn(move |_| {
        polls.set(polls.get() + 1);
        Poll::Ready(v)
    })))
}

fn poll_value(driver: &mut FuturesUnorderedDriver) -> Option<(i32, u16, OpValue)> {
    let cx = &mut Context::from_waker(noop_waker_ref());
    match driver.poll_ready(cx) {
        Poll::Ready((promise_id, op_id, Ok(v))) => Some((promise_id, op_id, v)),
        Poll::Ready((_, _, Err(_))) => panic!("an op failed"),
        Poll::Pending => None,
    }
}

/// Starts a poll, so that the ops are out.
fn take_ops(driver: &mut FuturesUnorderedDriver) -> Ops {
    let cx = &mut Context::from_waker(noop_waker_ref());
    driver.begin_poll_ready(cx).unwrap()
}

#[test]
fn done_op_is_returned_at_once() {
    let mut driver = FuturesUnorderedDriver::default();
    let r = driver.submit_op_infallible::<false, false>(3, 1, value(42));
    assert_eq!(r, Some(42));
    assert_eq!(driver.len(), 0);
    assert_eq!(poll_value(&mut driver), None);
}

#[test]
fn deferred_op_is_delivered_later() {
    let mut driver = FuturesUnorderedDriver::default();
    let r = driver.submit_op_infallible::<false, true>(3, 1, value(42));
    assert_eq!(r, None);
    assert_eq!(driver.len(), 1);
    assert_eq!(poll_value(&mut driver), Some((1, 3, 42)));
    assert_eq!(driver.len(), 0);
    assert_eq!(poll_value(&mut driver), None);
}

#[test]
fn deferred_work_is_polled_at_submission_and_not_again() {
    let polls = Rc::new(Cell::new(0));
    let mut driver = FuturesUnorderedDriver::default();
    driver.submit_op_infallible::<false, true>(3, 1, counted(&polls, 9));
    assert_eq!(polls.get(), 1);
    assert_eq!(Rc::strong_count(&polls), 1);
    assert_eq!(poll_value(&mut driver), Some((1, 3, 9)));
    assert_eq!(polls.get(), 1);
}

#[test]
fn lazy_op_is_not_polled_at_submission() {
    let polls = Rc::new(Cell::new(0));
    let mut driver = FuturesUnorderedDriver::default();
    let r = driver.submit_op_infallible::<true, false>(3, 1, counted(&polls, 9));
    assert_eq!(r, None);
    assert_eq!(polls.get(), 0);
    assert_eq!(driver.len(), 1);
    assert_eq!(poll_value(&mut driver), Some((1, 3, 9)));
    assert_eq!(polls.get(), 1);
}

#[test]
fn lazy_fallible_op_is_delivered_later() {
    let mut driver = FuturesUnorderedDriver::default();
    let r = driver.submit_op_fallible::<true, true>(3, 1, fallible(Ok(5)));
    assert!(r.is_none());
    assert_eq!(poll_value(&mut driver), Some((1, 3, 5)));
}

#[test]
fn unfinished_op_is_delivered_when_it_is_done() {
    let mut driver = FuturesUnorderedDriver::default();
    let (tx, work) = later();
    let r = driver.submit_op_infallible::<false, false>(3, 1, work);
    assert_eq!(r, None);
    assert_eq!(driver.len(), 1);
    assert_eq!(poll_value(&mut driver), None);
    assert_eq!(driver.len(), 1);
    tx.send(8).unwrap();
    assert_eq!(poll_value(&mut driver), Some((1, 3, 8)));
    assert_eq!(driver.len(), 0);
}

#[test]
fn failing_op_is_returned_at_once() {
    let mut driver = FuturesUnorderedDriver::default();
    let r = driver.submit_op_fallible::<false, false>(3, 1, fallible(Err(error(7))));
    assert_eq!(r, Some(Err(error(7))));
    assert_eq!(driver.len(), 0);
}

#[test]
fn failing_op_is_delivered_with_its_error() {
    let mut driver = FuturesUnorderedDriver::default();
    let (tx, work) = later_fallible();
    assert!(driver.submit_op_fallible::<false, false>(30, 10, work).is_none());
    assert!(driver
        .submit_op_fallible::<false, true>(31, 11, fallible(Err(error(8))))
        .is_none());
    let cx = &mut Context::from_waker(noop_waker_ref());
    assert_eq!(driver.poll_ready(cx), Poll::Ready((11, 31, Err(error(8)))));
    assert!(tx.send(Err(error(9))).is_ok());
    assert_eq!(driver.poll_ready(cx), Poll::Ready((10, 30, Err(error(9)))));
}

#[test]
fn every_op_is_delivered_once() {
    let mut driver = FuturesUnorderedDriver::default();
    let mut senders = Vec::new();
    for i in 0..5 {
        let (tx, work) = later();
        senders.push(tx);
        assert!(driver.submit_op_infallible::<false, false>(i, i as i32 * 10, work).is_none());
    }
    assert_eq!(driver.len(), 5);
    for (i, tx) in senders.into_iter().enumerate().rev() {
        tx.send(100 + i as u64).unwrap();
    }
    let mut delivered = Vec::new();
    while let Some(op) = poll_value(&mut driver) {
        delivered.push(op);
    }
    delivered.sort();
    assert_eq!(
        delivered,
        vec![(0, 0, 100), (10, 1, 101), (20, 2, 102), (30, 3, 103), (40, 4, 104)]
    );
    assert_eq!(driver.len(), 0);
}

#[test]
fn shutdown_drops_what_is_in_flight_and_what_is_buffered() {
    let mut driver = FuturesUnorderedDriver::default();
    let (tx, work) = later();
    driver.submit_op_infallible::<false, false>(3, 1, work);

    // Submit one more while the ops are out, so that it is buffered.
    let ops = take_ops(&mut driver);
    let (buffered_tx, buffered_work) = later();
    driver.submit_op_infallible::<false, false>(4, 2, buffered_work);
    assert!(driver.finish_poll_ready(ops, Poll::Pending).is_pending());
    assert_eq!(driver.len(), 2);

    driver.shutdown();
    assert!(tx.is_canceled());
    assert!(buffered_tx.is_canceled());
    assert_eq!(poll_value(&mut driver), None);
    // Dropped ops still count.
    assert_eq!(driver.len(), 2);
}

#[test]
fn shutdown_hands_out_what_it_drops() {
    let mut driver = FuturesUnorderedDriver::default();
    let (tx, work) = later();
    driver.submit_op_infallible::<false, false>(3, 1, work);
    let mut ops = driver.begin_shutdown();
    assert!(driver.is_polling());
    // An op submitted as the others are dropped goes to the buffer and is dropped too.
    let (late_tx, late_work) = later();
    driver.submit_op_infallible::<false, false>(4, 2, late_work);
    assert_eq!(poll_value(&mut driver), None);
    ops.clear();
    assert!(tx.is_canceled());
    let dropped = driver.finish_shutdown(ops);
    assert_eq!(dropped.len(), 1);
    assert_eq!(dropped[0].context(), PendingOpInfo(2, 4));
    assert!(!late_tx.is_canceled());
    drop(dropped);
    assert!(late_tx.is_canceled());
    assert!(!driver.is_polling());
    assert_eq!(driver.len(), 2);
    assert_eq!(poll_value(&mut driver), None);

    // The driver goes on with what is submitted after.
    driver.submit_op_infallible::<false, true>(5, 3, value(9));
    assert_eq!(poll_value(&mut driver), Some((3, 5, 9)));
    assert_eq!(driver.len(), 2);
}

#[test]
fn history_of_calls_adds_up() {
    let mut driver = FuturesUnorderedDriver::default();
    let none = BitSet::new();
    let mut unanswered = Vec::new();
    let mut delivered = Vec::new();
    for i in 0..20u16 {
        let promise_id = 100 - i as i32;
        let answered = match i % 4 {
            0 => driver.submit_op_infallible::<false, false>(i, promise_id, value(1)).is_some(),
            1 => driver.submit_op_infallible::<false, true>(i, promise_id, value(2)).is_some(),
            2 => driver
                .submit_op_fallible::<false, false>(i, promise_id, after_polls(3, |_| Ok(3)))
                .is_some(),
            _ => driver
                .submit_op_fallible::<true, false>(i, promise_id, fallible(Ok(4)))
                .is_some(),
        };
        if !answered {
            unanswered.push((promise_id, i, 1 + (i % 4) as u64));
        }
        assert_eq!(driver.stats(&none).ops.len(), driver.len());
        if i % 3 == 0 {
            delivered.extend(poll_value(&mut driver));
        }
        assert_eq!(driver.len(), unanswered.len() - delivered.len());
    }
    // Work that wakes nobody is polled again when more is submitted.
    while driver.len() > 0 {
        match poll_value(&mut driver) {
            Some(op) => delivered.push(op),
            None => break,
        }
    }
    delivered.sort();
    unanswered.sort();
    let due: Vec<_> = unanswered.iter().filter(|op| op.2 != 3).cloned().collect();
    let done: Vec<_> = delivered.iter().filter(|op| op.2 != 3).cloned().collect();
    assert_eq!(done, due);
    assert!(delivered.iter().all(|op| unanswered.contains(op)));
}

#[test]
fn stats_leave_out_excluded_and_buffered_ops() {
    let mut driver = FuturesUnorderedDriver::default();
    let mut senders = Vec::new();
    for (op_id, promise_id) in [(1, 10), (2, 20), (3, 30), (2, 21)] {
        let (tx, work) = later();
        senders.push(tx);
        driver.submit_op_infallible::<true, false>(op_id, promise_id, work);
    }
    let ops = take_ops(&mut driver);
    let (tx, work) = later();
    senders.push(tx);
    driver.submit_op_infallible::<true, false>(5, 50, work);
    assert!(driver.finish_poll_ready(ops, Poll::Pending).is_pending());

    let none = BitSet::new();
    let mut all: Vec<i32> = driver.stats(&none).ops.iter().map(|info| info.0).collect();
    all.sort();
    assert_eq!(all, vec![10, 20, 21, 30]);

    let mut exclusions = BitSet::new();
    exclusions.insert(2);
    let mut some: Vec<i32> = driver.stats(&exclusions).ops.iter().map(|info| info.0).collect();
    some.sort();
    assert_eq!(some, vec![10, 30]);
}

#[test]
fn stats_keep_the_order_of_contexts() {
    let contexts = vec![
        PendingOpInfo(5, 1),
        PendingOpInfo(4, 2),
        PendingOpInfo(3, 65535),
        PendingOpInfo(2, 1),
    ];
    let mut exclusions = BitSet::new();
    exclusions.insert(2);
    exclusions.insert(70000);
    let stats = inflight_stats(&contexts, &exclusions);
    assert_eq!(
        stats.ops,
        vec![PendingOpInfo(5, 1), PendingOpInfo(3, 65535), PendingOpInfo(2, 1)]
    );
    exclusions.insert(65535);
    exclusions.insert(1);
    assert_eq!(inflight_stats(&contexts, &exclusions).ops, vec![]);
}

#[test]
fn first_poll_decides() {
    assert!(matches!(
        after_first_poll::<u8, false>(Poll::Pending),
        FirstPoll::Spawn
    ));
    assert!(matches!(
        after_first_poll::<u8, true>(Poll::Pending),
        FirstPoll::Spawn
    ));
    assert!(matches!(
        after_first_poll::<u8, false>(Poll::Ready(1)),
        FirstPoll::Return(1)
    ));
    assert!(matches!(
        after_first_poll::<u8, true>(Poll::Ready(1)),
        FirstPoll::SpawnDone(1)
    ));
}

/// What is launched, as its context and its result if it is done; or what is returned.
fn launched<R>(settled: Settled<R>) -> Result<(PendingOpInfo, Option<OpResult>), R> {
    match settled {
        Settled::Launch(op) => match op.work {
            OpWork::Done(result) => Ok((op.info, result)),
            OpWork::Fallible(_) | OpWork::Infallible(_) => Ok((op.info, None)),
        },
        Settled::Return(result) => Err(result),
    }
}

#[test]
fn settled_op_follows_its_first_poll() {
    let info = PendingOpInfo(1, 2);
    let r = settle_infallible::<false>(info, Poll::Ready(5), value(6));
    assert_eq!(launched(r), Err(5));
    let r = settle_infallible::<true>(info, Poll::Ready(5), value(6));
    assert_eq!(launched(r), Ok((info, Some(Ok(5)))));
    let r = settle_infallible::<true>(info, Poll::Pending, value(6));
    assert_eq!(launched(r), Ok((info, None)));

    let r = settle_fallible::<false>(info, Poll::Ready(Err(error(5))), fallible(Ok(6)));
    assert_eq!(launched(r), Err(Err(error(5))));
    let r = settle_fallible::<true>(info, Poll::Ready(Err(error(5))), fallible(Ok(6)));
    assert_eq!(launched(r), Ok((info, Some(Err(error(5))))));
    let r = settle_fallible::<false>(info, Poll::Pending, fallible(Ok(6)));
    assert_eq!(launched(r), Ok((info, None)));
}

#[test]
fn settled_work_that_is_done_is_dropped() {
    let polls = Rc::new(Cell::new(0));
    let info = PendingOpInfo(1, 2);
    let done = settle_infallible::<true>(info, Poll::Ready(5), counted(&polls, 5));
    assert_eq!(Rc::strong_count(&polls), 1);
    drop(done);
    let returned = settle_infallible::<false>(info, Poll::Ready(5), counted(&polls, 5));
    assert_eq!(Rc::strong_count(&polls), 1);
    drop(returned);
    let kept = settle_infallible::<false>(info, Poll::Pending, counted(&polls, 5));
    assert_eq!(Rc::strong_count(&polls), 2);
    drop(kept);
}

/// Work that is done at its poll number `polls`, with what `done` makes of it.
fn after_polls<R: 'static>(polls: usize, done: fn(usize) -> R) -> LocalFutureObj<'static, R> {
    let mut polled = 0;
    LocalFutureObj::new(Box::new(std::future::poll_fn(move |_| {
        polled += 1;
        if polled < polls {
            Poll::Pending
        } else {
            Poll::Ready(done(polled))
        }
    })))
}

#[test]
fn op_comes_to_what_its_work_comes_to_after_several_polls() {
    let cx = &mut Context::from_waker(noop_waker_ref());
    let mut op = OpFuture {
        info: PendingOpInfo(1, 2),
        work: OpWork::Infallible(after_polls(3, |polled| polled as u64 * 10)),
    };
    assert!(op.advance(cx).is_pending());
    assert!(op.advance(cx).is_pending());
    assert!(matches!(
        op.advance(cx),
        Poll::Ready(PendingOp(PendingOpInfo(1, 2), Ok(30)))
    ));
    assert!(op.advance(cx).is_pending());

    let mut op = OpFuture {
        info: PendingOpInfo(1, 2),
        work: OpWork::Fallible(after_polls(2, |polled| Err(error(polled as u64)))),
    };
    assert!(op.advance(cx).is_pending());
    assert!(matches!(
        Pin::new(&mut op).poll(cx),
        Poll::Ready(PendingOp(PendingOpInfo(1, 2), Err(OpError { key: 2 })))
    ));
}

#[test]
fn fallible_and_infallible_ops_are_scheduled_alike() {
    let none = BitSet::new();
    for polls in 1..3 {
        let mut driver = FuturesUnorderedDriver::default();
        let r = driver.submit_op_infallible::<false, false>(3, 1, after_polls(polls, |_| 7));
        let mut other = FuturesUnorderedDriver::default();
        let s = other.submit_op_fallible::<false, false>(3, 1, after_polls(polls, |_| Ok(7)));
        assert_eq!(r.is_some(), polls == 1);
        assert_eq!(s.is_some(), polls == 1);
        assert_eq!(driver.len(), other.len());
        assert_eq!(driver.stats(&none).ops, other.stats(&none).ops);
        assert_eq!(poll_value(&mut driver), poll_value(&mut other));
    }
}

#[test]
fn op_completes_with_its_context() {
    let cx = &mut Context::from_waker(noop_waker_ref());
    let mut op = OpFuture {
        info: PendingOpInfo(-7, 9),
        work: OpWork::Done(Some(Ok(1))),
    };
    assert_eq!(op.context(), PendingOpInfo(-7, 9));
    assert!(matches!(
        op.advance(cx),
        Poll::Ready(PendingOp(PendingOpInfo(-7, 9), Ok(1)))
    ));
    assert!(op.advance(cx).is_pending());

    let mut op = OpFuture {
        info: PendingOpInfo(1, 2),
        work: OpWork::Infallible(value(6)),
    };
    assert!(matches!(
        op.advance(cx),
        Poll::Ready(PendingOp(PendingOpInfo(1, 2), Ok(6)))
    ));
}

#[test]
fn delivery_counts_down() {
    let mut driver = FuturesUnorderedDriver::default();
    let (_tx, work) = later();
    driver.submit_op_infallible::<true, false>(2, 1, work);
    let (_tx, work) = later();
    driver.submit_op_infallible::<true, false>(2, 1, work);
    assert!(driver.deliver(Poll::Pending).is_pending());
    assert_eq!(driver.len(), 2);
    let delivered = driver.deliver(Poll::Ready(PendingOp(PendingOpInfo(1, 2), Ok(3))));
    assert!(matches!(delivered, Poll::Ready((1, 2, Ok(3)))));
    assert_eq!(driver.len(), 1);
}

#[test]
fn poll_while_the_ops_are_out_is_pending() {
    let mut driver = FuturesUnorderedDriver::default();
    driver.submit_op_infallible::<false, true>(3, 1, value(42));
    let ops = take_ops(&mut driver);
    assert_eq!(poll_value(&mut driver), None);
    driver.submit_op_infallible::<false, true>(4, 2, value(43));
    assert_eq!(driver.len(), 2);
    assert!(driver.finish_poll_ready(ops, Poll::Pending).is_pending());
    let mut delivered = vec![
        poll_value(&mut driver).unwrap(),
        poll_value(&mut driver).unwrap(),
    ];
    delivered.sort();
    assert_eq!(delivered, vec![(1, 3, 42), (2, 4, 43)]);
}

#[test]
fn op_submitted_while_another_is_polled_is_delivered_later() {
    let mut driver = FuturesUnorderedDriver::default();
    let cx = &mut Context::from_waker(noop_waker_ref());
    assert!(driver.begin_poll_ready(cx).is_none());
    assert!(!driver.is_polling());
    driver.submit_op_infallible::<false, true>(3, 1, value(42));
    let mut ops = driver.begin_poll_ready(cx).unwrap();
    assert!(driver.is_polling());
    assert!(driver.begin_poll_ready(cx).is_none());
    driver.submit_op_infallible::<false, true>(4, 2, value(43));
    let op = match Pin::new(&mut ops).poll_next(cx) {
        Poll::Ready(Some(op)) => op,
        _ => panic!("expected the op"),
    };
    let delivered = driver.finish_poll_ready(ops, Poll::Ready(op));
    assert!(matches!(delivered, Poll::Ready((1, 3, Ok(42)))));
    assert_eq!(driver.len(), 1);
    assert_eq!(poll_value(&mut driver), Some((2, 4, 43)));
    assert_eq!(driver.len(), 0);
}

struct CountingWaker(AtomicUsize);

impl Wake for CountingWaker {
    fn wake(self: Arc<Self>) {
        self.0.fetch_add(1, Ordering::SeqCst);
    }
}

#[test]
fn completing_op_and_new_op_wake_the_poller() {
    let wakeups = Arc::new(CountingWaker(AtomicUsize::new(0)));
    let waker = Waker::from(wakeups.clone());
    let cx = &mut Context::from_waker(&waker);
    let mut driver = FuturesUnorderedDriver::default();
    let (tx, work) = later();
    driver.submit_op_infallible::<false, false>(3, 1, work);
    assert_eq!(wakeups.0.load(Ordering::SeqCst), 0);
    assert!(driver.poll_ready(cx).is_pending());
    // A poll that went over all ops may ask to be polled again.
    assert!(driver.poll_ready(cx).is_pending());
    wakeups.0.store(0, Ordering::SeqCst);
    tx.send(8).unwrap();
    assert_eq!(wakeups.0.load(Ordering::SeqCst), 1);
    assert!(matches!(driver.poll_ready(cx), Poll::Ready((1, 3, Ok(8)))));

    let (_tx, work) = later();
    driver.submit_op_infallible::<false, false>(3, 1, work);
    assert_eq!(wakeups.0.load(Ordering::SeqCst), 2);
}

#[test]
fn task_that_polls_while_the_ops_are_out_is_woken_by_a_delivery() {
    let outer = Arc::new(CountingWaker(AtomicUsize::new(0)));
    let nested = Arc::new(CountingWaker(AtomicUsize::new(0)));
    let outer_waker = Waker::from(outer.clone());
    let nested_waker = Waker::from(nested.clone());
    let outer_cx = &mut Context::from_waker(&outer_waker);
    let nested_cx = &mut Context::from_waker(&nested_waker);
    let mut driver = FuturesUnorderedDriver::default();
    driver.submit_op_infallible::<false, true>(3, 1, value(42));

    let ops = driver.begin_poll_ready(outer_cx).unwrap();
    assert!(driver.poll_ready(nested_cx).is_pending());
    assert!(driver.finish_poll_ready(ops, Poll::Pending).is_pending());
    assert_eq!(nested.0.load(Ordering::SeqCst), 0);

    let mut ops = driver.begin_poll_ready(outer_cx).unwrap();
    assert!(driver.poll_ready(nested_cx).is_pending());
    let found = Pin::new(&mut ops).poll_next(outer_cx).map(|op| op.unwrap());
    assert!(driver.finish_poll_ready(ops, found).is_ready());
    assert_eq!(outer.0.load(Ordering::SeqCst), 0);
    assert_eq!(nested.0.load(Ordering::SeqCst), 1);
}

#[test]
fn done_ops_are_delivered_one_with_each_poll() {
    let mut driver = FuturesUnorderedDriver::default();
    for i in 0..6 {
        driver.submit_op_infallible::<false, true>(i, 10 + i as i32, value(i as u64));
    }
    let ops = take_ops(&mut driver);
    driver.submit_op_fallible::<false, true>(6, 16, fallible(Ok(6)));
    assert!(driver.finish_poll_ready(ops, Poll::Pending).is_pending());
    let mut delivered = Vec::new();
    for left in (0..7).rev() {
        delivered.push(poll_value(&mut driver).unwrap());
        assert_eq!(driver.len(), left);
    }
    delivered.sort();
    let expected: Vec<(i32, u16, u64)> =
        (0..7u16).map(|i| (10 + i as i32, i, i as u64)).collect();
    assert_eq!(delivered, expected);
    assert_eq!(poll_value(&mut driver), None);
}
