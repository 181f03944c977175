use futures::stream::FuturesUnordered;
use futures::stream::Stream;
use futures::task::noop_waker_ref;
use op_driver::submission_queue::new_submission_queue;
use op_driver::submission_queue::Buffer;
use op_driver::submission_queue::Queue;
use op_driver::submission_queue::SubmissionQueue;
use op_driver::submission_queue::SubmissionQueueFutures;
use op_driver::submission_queue::SubmissionQueueResults;
use std::future::ready;
use std::future::Future;
use std::future::Ready;
use std::pin::Pin;
use std::sync::atomic::AtomicUsize;
use std::sync::atomic::Ordering;
use std::sync::Arc;
use std::task::Context;
use std::task::Poll;
use std::task::Wake;
use std::task::Waker;

type ReentrantState = Queue<ReentrantQueue, Ready<()>>;

/// A queue that submits one extra future back into the `SubmissionQueue` from inside each of the
/// two places that call into it, and that can poll from there too.
#[derive(Default)]
struct ReentrantQueue {
    inner: FuturesUnordered<Ready<()>>,
    /// How often the queue was polled.
    polls: usize,
    /// Polls the `SubmissionQueue` from inside the next poll, from another task.
    poll_on_poll: Option<(SubmissionQueueResults<ReentrantQueue>, Waker)>,
    /// Polls the `SubmissionQueue` from inside the next `spawn`, from another task.
    poll_on_spawn: Option<(SubmissionQueueResults<ReentrantQueue>, Waker)>,
    /// Keeps the next poll from completing a future.
    stall: bool,
    /// Lets the queue call back into the `SubmissionQueue` that owns it, which is what an op's
    /// completion callback does.
    reentry: Option<SubmissionQueue<ReentrantQueue>>,
    reenter_on_poll: bool,
    reenter_on_spawn: bool,
}

impl ReentrantQueue {
    fn reenter(&self, owner: &mut Buffer<Ready<()>>) {
        if let Some(queue) = self.reentry.as_ref() {
            queue.spawn_inside(owner, ready(()));
        }
    }
}

impl SubmissionQueueFutures for ReentrantQueue {
    type Future = Ready<()>;
    type Output = ();

    fn default() -> Self {
        Default::default()
    }

    fn len(&self) -> usize {
        self.inner.len()
    }

    fn spawn(&mut self, f: Self::Future, owner: &mut Buffer<Ready<()>>) {
        if let Some((results, waker)) = self.poll_on_spawn.take() {
            let inner_cx = &Context::from_waker(&waker);
            assert!(results.poll_inside(owner, inner_cx).is_pending());
        }
        if self.reenter_on_spawn {
            // Once only: this stands in for a completion callback scheduling more work while the
            // pending buffer is being drained.
            self.reenter_on_spawn = false;
            self.reenter(owner);
        }
        self.inner.push(f);
    }

    fn poll_next_unpin(
        &mut self,
        cx: &mut Context<'_>,
        owner: &mut Buffer<Ready<()>>,
    ) -> Poll<Self::Output> {
        self.polls += 1;
        if let Some((results, waker)) = self.poll_on_poll.take() {
            let inner_cx = &Context::from_waker(&waker);
            assert!(results.poll_inside(owner, inner_cx).is_pending());
        }
        if self.stall {
            self.stall = false;
            return Poll::Pending;
        }
        if self.reenter_on_poll {
            self.reenter_on_poll = false;
            self.reenter(owner);
        }
        match Pin::new(&mut self.inner).poll_next(cx) {
            Poll::Ready(Some(())) => Poll::Ready(()),
            _ => Poll::Pending,
        }
    }
}

fn with_futures(shared: &mut ReentrantState, change: impl FnOnce(&mut ReentrantQueue)) {
    change(shared.borrow_mut().unwrap());
}

fn in_flight(shared: &ReentrantState) -> usize {
    shared.borrow().unwrap().len()
}

fn reentrant_setup() -> (
    ReentrantState,
    SubmissionQueue<ReentrantQueue>,
    SubmissionQueueResults<ReentrantQueue>,
) {
    let (mut shared, queue, results) = new_submission_queue::<ReentrantQueue>();
    // A second handle, which is what op callbacks are handed.
    let handle = shared.submissions();
    with_futures(&mut shared, |futures| futures.reentry = Some(handle));
    (shared, queue, results)
}

#[test]
fn drain_does_not_hold_pending_across_spawn() {
    let (mut shared, queue, results) = reentrant_setup();

    // First poll: re-enter from inside the poll, so the collection is out and the submission lands
    // in the buffer.
    queue.spawn(&mut shared, ready(()));
    with_futures(&mut shared, |futures| futures.reenter_on_poll = true);
    let cx = &mut Context::from_waker(noop_waker_ref());
    let _ = results.poll_next_unpin(&mut shared, cx);

    // Second poll: the buffer is non-empty and gets drained. Arm the re-entrant submission to fire
    // from inside `spawn`, i.e. mid-drain.
    with_futures(&mut shared, |futures| futures.reenter_on_spawn = true);
    let _ = results.poll_next_unpin(&mut shared, cx);

    // The late submission is still accounted for rather than dropped.
    let _ = results.poll_next_unpin(&mut shared, cx);
    with_futures(&mut shared, |futures| futures.reentry = None);
}

#[test]
fn reentrant_submissions_are_all_delivered() {
    let (mut shared, queue, results) = reentrant_setup();
    let cx = &mut Context::from_waker(noop_waker_ref());

    queue.spawn(&mut shared, ready(()));
    with_futures(&mut shared, |futures| futures.reenter_on_poll = true);
    assert_eq!(results.poll_next_unpin(&mut shared, cx), Poll::Ready(()));
    // The submission from inside the poll is buffered, not in the collection.
    assert_eq!(in_flight(&shared), 0);

    with_futures(&mut shared, |futures| futures.reenter_on_spawn = true);
    assert_eq!(results.poll_next_unpin(&mut shared, cx), Poll::Ready(()));
    // The submission from inside the drain is buffered in turn.
    assert_eq!(in_flight(&shared), 0);

    assert_eq!(results.poll_next_unpin(&mut shared, cx), Poll::Ready(()));
    assert_eq!(results.poll_next_unpin(&mut shared, cx), Poll::Pending);
}

#[test]
fn submission_from_inside_a_submission_is_buffered() {
    let (mut shared, queue, results) = reentrant_setup();
    let cx = &mut Context::from_waker(noop_waker_ref());

    with_futures(&mut shared, |futures| futures.reenter_on_spawn = true);
    queue.spawn(&mut shared, ready(()));
    assert_eq!(in_flight(&shared), 1);
    assert_eq!(results.poll_next_unpin(&mut shared, cx), Poll::Ready(()));
    assert_eq!(results.poll_next_unpin(&mut shared, cx), Poll::Ready(()));
    assert_eq!(results.poll_next_unpin(&mut shared, cx), Poll::Pending);
}

/// A queue whose futures complete in the order in which they were put in.
#[derive(Default)]
struct OrderedQueue {
    inner: Vec<Ready<u8>>,
}

impl SubmissionQueueFutures for OrderedQueue {
    type Future = Ready<u8>;
    type Output = u8;

    fn default() -> Self {
        Default::default()
    }

    fn len(&self) -> usize {
        self.inner.len()
    }

    fn spawn(&mut self, f: Ready<u8>, _owner: &mut Buffer<Ready<u8>>) {
        self.inner.push(f);
    }

    fn poll_next_unpin(
        &mut self,
        cx: &mut Context<'_>,
        _owner: &mut Buffer<Ready<u8>>,
    ) -> Poll<u8> {
        Pin::new(&mut self.inner.remove(0)).poll(cx)
    }
}

#[test]
fn submission_while_the_collection_is_out_waits_in_order() {
    let (mut shared, queue, results) = new_submission_queue::<OrderedQueue>();
    let cx = &mut Context::from_waker(noop_waker_ref());

    queue.spawn(&mut shared, ready(1));
    let futures = results.begin_poll_next(&mut shared, cx).unwrap();
    queue.spawn(&mut shared, ready(2));
    queue.spawn(&mut shared, ready(3));
    queue.spawn(&mut shared, ready(4));
    assert!(shared.borrow().is_none());
    assert!(shared.borrow_mut().is_none());
    results.finish_poll_next(&mut shared, futures, false);
    // What was submitted meanwhile is in the buffer still.
    assert_eq!(shared.borrow().unwrap().len(), 1);

    assert_eq!(results.poll_next_unpin(&mut shared, cx), Poll::Ready(1));
    assert_eq!(shared.borrow().unwrap().len(), 3);
    assert_eq!(results.poll_next_unpin(&mut shared, cx), Poll::Ready(2));
    assert_eq!(results.poll_next_unpin(&mut shared, cx), Poll::Ready(3));
    assert_eq!(results.poll_next_unpin(&mut shared, cx), Poll::Ready(4));
    assert_eq!(results.poll_next_unpin(&mut shared, cx), Poll::Pending);
}

#[test]
fn poll_while_the_collection_is_out_is_pending() {
    let (mut shared, queue, results) = reentrant_setup();
    let cx = &mut Context::from_waker(noop_waker_ref());

    queue.spawn(&mut shared, ready(()));
    let futures = results.begin_poll_next(&mut shared, cx).unwrap();
    assert_eq!(results.poll_next_unpin(&mut shared, cx), Poll::Pending);
    assert!(results.begin_poll_next(&mut shared, cx).is_none());
    results.finish_poll_next(&mut shared, futures, false);
    assert_eq!(results.poll_next_unpin(&mut shared, cx), Poll::Ready(()));
}

#[test]
fn collection_is_polled_once_for_each_poll_that_finds_something() {
    let (mut shared, queue, results) = reentrant_setup();
    let cx = &mut Context::from_waker(noop_waker_ref());
    let polls = |shared: &ReentrantState| shared.borrow().unwrap().polls;

    assert_eq!(results.poll_next_unpin(&mut shared, cx), Poll::Pending);
    assert_eq!(polls(&shared), 0);
    queue.spawn(&mut shared, ready(()));
    queue.spawn(&mut shared, ready(()));
    assert_eq!(polls(&shared), 0);
    assert_eq!(results.poll_next_unpin(&mut shared, cx), Poll::Ready(()));
    assert_eq!(polls(&shared), 1);
    assert_eq!(results.poll_next_unpin(&mut shared, cx), Poll::Ready(()));
    assert_eq!(polls(&shared), 2);
    assert_eq!(results.poll_next_unpin(&mut shared, cx), Poll::Pending);
    assert_eq!(polls(&shared), 2);
}

#[test]
fn empty_queue_is_pending() {
    let (mut shared, _, results) = new_submission_queue::<ReentrantQueue>();
    let cx = &mut Context::from_waker(noop_waker_ref());
    assert_eq!(results.poll_next_unpin(&mut shared, cx), Poll::Pending);
}

#[test]
fn clearing_hands_out_the_collection_and_the_buffer() {
    let (mut shared, queue, results) = reentrant_setup();
    let cx = &mut Context::from_waker(noop_waker_ref());

    queue.spawn(&mut shared, ready(()));
    let mut futures = shared.begin_clear();
    assert_eq!(futures.len(), 1);
    queue.spawn(&mut shared, ready(()));
    assert_eq!(results.poll_next_unpin(&mut shared, cx), Poll::Pending);
    futures.inner.clear();
    let dropped = shared.finish_clear(futures);
    assert_eq!(dropped.len(), 1);
    assert_eq!(in_flight(&shared), 0);
    assert_eq!(results.poll_next_unpin(&mut shared, cx), Poll::Pending);
}

struct CountingWaker(AtomicUsize);

impl Wake for CountingWaker {
    fn wake(self: Arc<Self>) {
        self.0.fetch_add(1, Ordering::SeqCst);
    }
}

#[test]
fn every_submission_wakes_the_task_that_polled_last() {
    let (mut shared, queue, results) = new_submission_queue::<ReentrantQueue>();
    let first = Arc::new(CountingWaker(AtomicUsize::new(0)));
    let second = Arc::new(CountingWaker(AtomicUsize::new(0)));

    // Nothing is registered yet.
    queue.spawn(&mut shared, ready(()));

    let waker = Waker::from(first.clone());
    let cx = &mut Context::from_waker(&waker);
    assert_eq!(results.poll_next_unpin(&mut shared, cx), Poll::Ready(()));
    assert_eq!(first.0.load(Ordering::SeqCst), 0);
    queue.spawn(&mut shared, ready(()));
    assert_eq!(first.0.load(Ordering::SeqCst), 1);
    queue.spawn(&mut shared, ready(()));
    assert_eq!(first.0.load(Ordering::SeqCst), 2);

    // A poll that finds the collection out registers its task too.
    let futures = results.begin_poll_next(&mut shared, cx).unwrap();
    let waker = Waker::from(second.clone());
    let cx = &mut Context::from_waker(&waker);
    assert_eq!(results.poll_next_unpin(&mut shared, cx), Poll::Pending);
    queue.spawn(&mut shared, ready(()));
    assert_eq!(second.0.load(Ordering::SeqCst), 1);
    // The poll that has the collection wakes it when it makes progress.
    results.finish_poll_next(&mut shared, futures, true);
    assert_eq!(first.0.load(Ordering::SeqCst), 2);
    assert_eq!(second.0.load(Ordering::SeqCst), 2);
}

#[test]
fn poll_from_inside_a_poll_is_not_woken_without_progress() {
    let (mut shared, queue, results) = reentrant_setup();
    let nested = Arc::new(CountingWaker(AtomicUsize::new(0)));
    let inner = shared.results();
    let nested_waker = Waker::from(nested.clone());
    with_futures(&mut shared, |futures| {
        futures.poll_on_poll = Some((inner, nested_waker));
        futures.stall = true;
    });

    queue.spawn(&mut shared, ready(()));
    let cx = &mut Context::from_waker(noop_waker_ref());
    assert_eq!(results.poll_next_unpin(&mut shared, cx), Poll::Pending);
    assert_eq!(nested.0.load(Ordering::SeqCst), 0);

    // A later poll that makes progress, with nothing polling inside of it, wakes nobody.
    assert_eq!(results.poll_next_unpin(&mut shared, cx), Poll::Ready(()));
    assert_eq!(nested.0.load(Ordering::SeqCst), 0);
}

#[test]
fn poll_from_inside_the_drain_leaves_the_poller_registered() {
    let (mut shared, queue, results) = reentrant_setup();
    let outer = Arc::new(CountingWaker(AtomicUsize::new(0)));
    let nested = Arc::new(CountingWaker(AtomicUsize::new(0)));

    // One submission in the buffer, so that the next poll drains.
    let idle = &mut Context::from_waker(noop_waker_ref());
    queue.spawn(&mut shared, ready(()));
    with_futures(&mut shared, |futures| futures.reenter_on_poll = true);
    assert_eq!(results.poll_next_unpin(&mut shared, idle), Poll::Ready(()));

    let inner = shared.results();
    let nested_waker = Waker::from(nested.clone());
    with_futures(&mut shared, |futures| futures.poll_on_spawn = Some((inner, nested_waker)));
    let waker = Waker::from(outer.clone());
    let cx = &mut Context::from_waker(&waker);
    assert_eq!(results.poll_next_unpin(&mut shared, cx), Poll::Ready(()));
    // The progress woke the nested poller, and submissions wake the poller.
    assert_eq!(outer.0.load(Ordering::SeqCst), 0);
    assert_eq!(nested.0.load(Ordering::SeqCst), 1);
    queue.spawn(&mut shared, ready(()));
    assert_eq!(outer.0.load(Ordering::SeqCst), 1);
    assert_eq!(nested.0.load(Ordering::SeqCst), 1);
}

#[test]
fn poll_from_inside_a_poll_is_woken_by_its_progress() {
    let (mut shared, queue, results) = reentrant_setup();
    let inner = shared.results();
    let outer = Arc::new(CountingWaker(AtomicUsize::new(0)));
    let nested = Arc::new(CountingWaker(AtomicUsize::new(0)));
    let nested_waker = Waker::from(nested.clone());
    with_futures(&mut shared, |futures| futures.poll_on_poll = Some((inner, nested_waker)));

    queue.spawn(&mut shared, ready(()));
    let waker = Waker::from(outer.clone());
    let cx = &mut Context::from_waker(&waker);
    assert_eq!(results.poll_next_unpin(&mut shared, cx), Poll::Ready(()));
    assert_eq!(outer.0.load(Ordering::SeqCst), 0);
    assert_eq!(nested.0.load(Ordering::SeqCst), 1);

    // A poll that nothing polls inside of wakes nobody.
    queue.spawn(&mut shared, ready(()));
    assert_eq!(nested.0.load(Ordering::SeqCst), 2);
    assert_eq!(results.poll_next_unpin(&mut shared, cx), Poll::Ready(()));
    assert_eq!(outer.0.load(Ordering::SeqCst), 0);
    assert_eq!(nested.0.load(Ordering::SeqCst), 2);
}

#[test]
fn submission_while_the_buffer_is_moved_wakes_the_task_that_polls() {
    let (mut shared, queue, results) = reentrant_setup();
    let first = Arc::new(CountingWaker(AtomicUsize::new(0)));
    let second = Arc::new(CountingWaker(AtomicUsize::new(0)));

    queue.spawn(&mut shared, ready(()));
    with_futures(&mut shared, |futures| futures.reenter_on_poll = true);
    let waker = Waker::from(first.clone());
    let cx = &mut Context::from_waker(&waker);
    assert_eq!(results.poll_next_unpin(&mut shared, cx), Poll::Ready(()));
    assert_eq!(first.0.load(Ordering::SeqCst), 1);

    with_futures(&mut shared, |futures| futures.reenter_on_spawn = true);
    let waker = Waker::from(second.clone());
    let cx = &mut Context::from_waker(&waker);
    assert_eq!(results.poll_next_unpin(&mut shared, cx), Poll::Ready(()));
    assert_eq!(first.0.load(Ordering::SeqCst), 1);
    assert_eq!(second.0.load(Ordering::SeqCst), 1);
}
