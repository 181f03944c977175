//! A queue of futures that accepts submissions while it is being polled.
//!
//! The futures live in a collection. While something calls into it, the rest of the [`Queue`], its
//! [`Buffer`], can still be reached: what is submitted in that time is buffered, and the next poll
//! moves it into the collection. A poll in that time is pending, and is woken when the poll that
//! has the collection makes progress.
use core::future::Future;
use core::marker::PhantomData;
use core::task::Context;
use core::task::Poll;
use std::collections::VecDeque;

use deno_unsync::UnsyncWaker;
use vstd::multiset::Multiset;
use vstd::prelude::*;

use crate::waker::after_wake;
use crate::waker::context_task;
use crate::waker::empty_slot;
use crate::waker::register;
use crate::waker::registered_task;
use crate::waker::wake_by_ref;
use crate::waker::woken_tasks;

verus! {

/// What a poll returns: a value, or word that there is none yet.
#[verifier::external_type_specification]
#[verifier::reject_recursive_types(T)]
pub struct ExPoll<T>(Poll<T>);

/// What of a queue can be reached while its collection is in use: the buffered submissions, and
/// the tasks to wake.
pub struct Buffer<Fut> {
    /// Futures submitted while the collection was in use.
    pending: VecDeque<Fut>,
    /// Whether a poll came while the collection was in use.
    overtaken: bool,
    /// Wakes the task that polled last.
    item_waker: UnsyncWaker,
    /// Wakes the task that polled last while the collection was in use.
    nested_waker: UnsyncWaker,
    /// Tells the queue from others.
    id: Ghost<int>,
}

/// The shared state behind a [`SubmissionQueue`] and a [`SubmissionQueueResults`].
pub struct Queue<F, Fut> {
    /// The futures being driven; `None` while they are handed out.
    queue: Option<F>,
    buffer: Buffer<Fut>,
}

/// Something that happened to a queue while its collection was in use.
pub enum Reentry<Fut> {
    /// A future was submitted.
    Spawn(Fut),
    /// A task polled.
    Poll(int),
}

/// The futures that were submitted, oldest first.
pub open spec fn buffered<Fut>(reentries: Seq<Reentry<Fut>>) -> Seq<Fut>
    decreases reentries.len(),
{
    if reentries.len() == 0 {
        Seq::empty()
    } else {
        match reentries.last() {
            Reentry::Spawn(f) => buffered(reentries.drop_last()).push(f),
            Reentry::Poll(_) => buffered(reentries.drop_last()),
        }
    }
}

/// Whether any task polled.
pub open spec fn polled_in<Fut>(reentries: Seq<Reentry<Fut>>) -> bool {
    exists|i: int| 0 <= i < reentries.len() && #[trigger] reentries[i] is Poll
}

/// The registered task after `reentries`, where `registered` was the one before: the one that
/// polled last.
pub open spec fn registered_after<Fut>(
    registered: Option<int>,
    reentries: Seq<Reentry<Fut>>,
) -> Option<int>
    decreases reentries.len(),
{
    if reentries.len() == 0 {
        registered
    } else {
        match reentries.last() {
            Reentry::Spawn(_) => registered_after(registered, reentries.drop_last()),
            Reentry::Poll(task) => Some(task),
        }
    }
}

/// The tasks that `reentries` woke, oldest first, where `registered` was the registered task
/// before: each submission wakes the task that is registered then.
pub open spec fn woken_in<Fut>(registered: Option<int>, reentries: Seq<Reentry<Fut>>) -> Seq<int>
    decreases reentries.len(),
{
    if reentries.len() == 0 {
        Seq::empty()
    } else {
        let earlier = reentries.drop_last();
        match reentries.last() {
            Reentry::Spawn(_) => after_wake(
                woken_in(registered, earlier),
                registered_after(registered, earlier),
            ),
            Reentry::Poll(_) => woken_in(registered, earlier),
        }
    }
}

impl<Fut> Buffer<Fut> {
    /// The buffered submissions, oldest first.
    pub closed spec fn pending(&self) -> Seq<Fut> {
        self.pending@
    }

    /// Whether a poll came while the collection was in use.
    pub closed spec fn overtaken(&self) -> bool {
        self.overtaken
    }

    /// The task that a submission wakes.
    pub closed spec fn registered(&self) -> Option<int> {
        registered_task(self.item_waker)
    }

    /// The tasks that submissions woke, oldest first.
    pub closed spec fn wakeups(&self) -> Seq<int> {
        woken_tasks(self.item_waker)
    }

    /// The task that polled last while the collection was in use.
    pub closed spec fn nested(&self) -> Option<int> {
        registered_task(self.nested_waker)
    }

    /// The tasks that polled while the collection was in use and were woken for it, oldest first.
    pub closed spec fn nested_wakeups(&self) -> Seq<int> {
        woken_tasks(self.nested_waker)
    }

    /// Tells the queue from others.
    pub closed spec fn id(&self) -> int {
        self.id@
    }

    /// What becomes of `self` under `reentries`.
    pub open spec fn reentered(&self, after: &Self, reentries: Seq<Reentry<Fut>>) -> bool {
        &&& after.pending() == self.pending() + buffered(reentries)
        &&& after.overtaken() == (self.overtaken() || polled_in(reentries))
        &&& after.registered() == registered_after(self.registered(), reentries)
        &&& after.wakeups() == self.wakeups() + woken_in(self.registered(), reentries)
        &&& after.nested() == registered_after(self.nested(), reentries)
        &&& after.nested_wakeups() == self.nested_wakeups()
        &&& after.id() == self.id()
    }

    /// Buffering `f` turns `self` into `after`: `f` joins the end of the buffer, and the registered
    /// task is woken.
    pub open spec fn spawned(&self, after: &Self, f: Fut) -> bool {
        &&& after.pending() == self.pending().push(f)
        &&& after.overtaken() == self.overtaken()
        &&& after.registered() == self.registered()
        &&& after.wakeups() == after_wake(self.wakeups(), self.registered())
        &&& after.nested() == self.nested()
        &&& after.nested_wakeups() == self.nested_wakeups()
        &&& after.id() == self.id()
    }

    /// A poll from the task `task` that finds the collection in use turns `self` into `after`:
    /// `task` is registered, and noted for the poll that has the collection to wake.
    pub open spec fn overtaken_by(&self, after: &Self, task: int) -> bool {
        &&& after.pending() == self.pending()
        &&& after.overtaken()
        &&& after.registered() == Some(task)
        &&& after.wakeups() == self.wakeups()
        &&& after.nested() == Some(task)
        &&& after.nested_wakeups() == self.nested_wakeups()
        &&& after.id() == self.id()
    }

    /// A poll that had the collection ends by turning `self` into `after`: if it made progress, a
    /// task that polled meanwhile is woken.
    pub open spec fn finished(&self, after: &Self, progress: bool) -> bool {
        &&& after.pending() == self.pending()
        &&& !after.overtaken()
        &&& after.registered() == self.registered()
        &&& after.wakeups() == self.wakeups()
        &&& after.nested() == self.nested()
        &&& after.nested_wakeups() == if progress && self.overtaken() {
            after_wake(self.nested_wakeups(), self.nested())
        } else {
            self.nested_wakeups()
        }
        &&& after.id() == self.id()
    }

    /// Buffers `f`.
    fn spawn(&mut self, f: Fut)
        ensures
            old(self).spawned(final(self), f),
    {
        self.pending.push_back(f);
        wake_by_ref(&mut self.item_waker);
    }

    /// Takes note of a poll that finds the collection in use.
    fn overtake(&mut self, cx: &Context<'_>)
        ensures
            old(self).overtaken_by(final(self), context_task(*cx)),
    {
        register(&mut self.item_waker, cx);
        register(&mut self.nested_waker, cx);
        self.overtaken = true;
    }

    /// Ends a poll.
    fn finish(&mut self, progress: bool)
        ensures
            old(self).finished(final(self), progress),
    {
        if progress && self.overtaken {
            wake_by_ref(&mut self.nested_waker);
        }
        self.overtaken = false;
    }
}

impl<F, Fut> Queue<F, Fut> {
    /// The collection, unless it is handed out.
    pub closed spec fn futures(&self) -> Option<F> {
        self.queue
    }

    /// What can be reached while the collection is in use.
    pub closed spec fn buffer(&self) -> Buffer<Fut> {
        self.buffer
    }

    /// The buffered submissions, oldest first.
    pub open spec fn pending(&self) -> Seq<Fut> {
        self.buffer().pending()
    }

    /// The task that a submission wakes.
    pub open spec fn registered(&self) -> Option<int> {
        self.buffer().registered()
    }

    /// The tasks that submissions woke, oldest first.
    pub open spec fn wakeups(&self) -> Seq<int> {
        self.buffer().wakeups()
    }

    /// The tasks that polled while the collection was in use and were woken for it, oldest first.
    pub open spec fn nested_wakeups(&self) -> Seq<int> {
        self.buffer().nested_wakeups()
    }

    /// Tells this queue from others.
    pub open spec fn id(&self) -> int {
        self.buffer().id()
    }

    /// Whether the collection is handed out.
    pub open spec fn is_borrowed(&self) -> bool {
        self.futures() is None
    }

    /// The collection, unless it is handed out.
    pub fn borrow(&self) -> (futures: Option<&F>)
        ensures
            futures == match self.futures() {
                Some(futures) => Some(&futures),
                None => None,
            },
    {
        self.queue.as_ref()
    }

    /// The collection to be changed in place, unless it is handed out.
    pub fn borrow_mut(&mut self) -> (futures: Option<&mut F>)
        ensures
            futures is Some <==> !old(self).is_borrowed(),
            final(self).is_borrowed() == old(self).is_borrowed(),
            futures matches Some(r) ==> *r == old(self).futures()->0,
            futures matches Some(r) ==> final(self).futures() == Some(*final(r)),
            final(self).buffer() == old(self).buffer(),
    {
        self.queue.as_mut()
    }

    /// One more right to submit to this queue, such as an op is handed to submit from inside a
    /// poll.
    pub fn submissions(&self) -> (queue: SubmissionQueue<F>)
        ensures
            queue.id() == self.id(),
    {
        SubmissionQueue { queue: PhantomData, id: self.buffer.id }
    }

    /// One more right to poll this queue.
    pub fn results(&self) -> (results: SubmissionQueueResults<F>)
        ensures
            results.id() == self.id(),
    {
        SubmissionQueueResults { queue: PhantomData, id: self.buffer.id }
    }

    /// Hands the buffered submissions out, for the caller to drop them.
    pub fn take_pending(&mut self) -> (dropped: VecDeque<Fut>)
        ensures
            dropped@ == old(self).pending(),
            final(self).futures() == old(self).futures(),
            final(self).pending() == Seq::<Fut>::empty(),
            final(self).buffer().overtaken() == old(self).buffer().overtaken(),
            final(self).registered() == old(self).registered(),
            final(self).wakeups() == old(self).wakeups(),
            final(self).buffer().nested() == old(self).buffer().nested(),
            final(self).nested_wakeups() == old(self).nested_wakeups(),
            final(self).id() == old(self).id(),
    {
        let mut dropped: VecDeque<Fut> = VecDeque::new();
        core::mem::swap(&mut dropped, &mut self.buffer.pending);
        dropped
    }

    /// Hands the collection out, for the caller to drop the futures in it and to give it back with
    /// [`Self::finish_clear`]. What is submitted meanwhile goes to the buffer.
    pub fn begin_clear(&mut self) -> (futures: F)
        requires
            !old(self).is_borrowed(),
        ensures
            old(self).futures() == Some(futures),
            final(self).is_borrowed(),
            final(self).buffer() == old(self).buffer(),
    {
        self.queue.take().unwrap()
    }

    /// Finishes dropping all futures: puts the collection back, and hands the buffered
    /// submissions out, for the caller to drop them.
    pub fn finish_clear(&mut self, futures: F) -> (dropped: VecDeque<Fut>)
        requires
            old(self).is_borrowed(),
        ensures
            dropped@ == old(self).pending(),
            final(self).futures() == Some(futures),
            final(self).pending() == Seq::<Fut>::empty(),
            final(self).buffer().overtaken() == old(self).buffer().overtaken(),
            final(self).registered() == old(self).registered(),
            final(self).wakeups() == old(self).wakeups(),
            final(self).buffer().nested() == old(self).buffer().nested(),
            final(self).nested_wakeups() == old(self).nested_wakeups(),
            final(self).id() == old(self).id(),
    {
        self.queue = Some(futures);
        self.take_pending()
    }
}

/// A call into a collection of futures.
pub enum CollectionCall<Fut> {
    /// A future was put into it.
    Spawn(Fut),
    /// It was polled from a task.
    Poll(int),
}

/// The calls that put `futures` into a collection, one after the other.
pub open spec fn spawns<Fut>(futures: Seq<Fut>) -> Seq<CollectionCall<Fut>> {
    futures.map_values(|f: Fut| CollectionCall::Spawn(f))
}

/// A collection of futures that a [`Queue`] drives.
///
/// Both `spawn` and `poll_next_unpin` receive the buffer of the queue that the collection is in,
/// so that what runs inside them can submit to the queue and poll it. The spec functions describe
/// the collection to the verifier; an implementation that is not verified leaves them out.
pub trait SubmissionQueueFutures: Sized {
    type Future: Future<Output = Self::Output>;

    type Output;

    /// The futures in the collection, as they were when submitted.
    open spec fn in_flight(&self) -> Multiset<Self::Future> {
        arbitrary()
    }

    /// Whether `out` can be what `f` completes with.
    open spec fn yields(f: Self::Future, out: Self::Output) -> bool {
        true
    }

    /// Whether a poll is sure to find a future that completes.
    open spec fn due(&self) -> bool {
        false
    }

    /// The calls of `spawn` and `poll_next_unpin` so far, oldest first.
    open spec fn history(&self) -> Seq<CollectionCall<Self::Future>> {
        arbitrary()
    }

    /// What happened to the queue from inside those calls, oldest first.
    open spec fn reentries(&self) -> Seq<Reentry<Self::Future>> {
        arbitrary()
    }

    fn default() -> (futures: Self)
        ensures
            futures.in_flight() == Multiset::<Self::Future>::empty(),
            futures.history() == Seq::<CollectionCall<Self::Future>>::empty(),
            futures.reentries() == Seq::<Reentry<Self::Future>>::empty(),
    ;

    fn len(&self) -> (n: usize)
        ensures
            n == self.in_flight().len(),
    ;

    fn spawn(&mut self, f: Self::Future, owner: &mut Buffer<Self::Future>)
        ensures
            final(self).in_flight() == old(self).in_flight().insert(f),
            final(self).history() == old(self).history().push(CollectionCall::Spawn(f)),
            old(self).reentries().is_prefix_of(final(self).reentries()),
            old(owner).reentered(
                final(owner),
                final(self).reentries().skip(old(self).reentries().len() as int),
            ),
    ;

    fn poll_next_unpin(
        &mut self,
        cx: &mut Context<'_>,
        owner: &mut Buffer<Self::Future>,
    ) -> (polled: Poll<Self::Output>)
        requires
            old(self).in_flight().len() > 0,
        ensures
            match polled {
                Poll::Ready(out) => exists|f: Self::Future| #[trigger]
                    old(self).in_flight().contains(f) && Self::yields(f, out)
                        && final(self).in_flight() == old(self).in_flight().remove(f),
                Poll::Pending => final(self).in_flight() == old(self).in_flight(),
            },
            old(self).due() ==> polled is Ready,
            final(self).history() == old(self).history().push(
                CollectionCall::Poll(context_task(*old(cx))),
            ),
            old(self).reentries().is_prefix_of(final(self).reentries()),
            old(owner).reentered(
                final(owner),
                final(self).reentries().skip(old(self).reentries().len() as int),
            ),
    ;
}

/// One future of `before` has completed with `out`, and the others are left.
pub open spec fn completes<F: SubmissionQueueFutures>(
    before: Multiset<F::Future>,
    after: Multiset<F::Future>,
    out: F::Output,
) -> bool {
    exists|f: F::Future| #[trigger]
        before.contains(f) && F::yields(f, out) && after == before.remove(f)
}

/// A poll of the futures `before` that returned `polled` left the futures `after`.
pub open spec fn poll_outcome<F: SubmissionQueueFutures>(
    before: Multiset<F::Future>,
    after: Multiset<F::Future>,
    polled: Poll<F::Output>,
) -> bool {
    match polled {
        Poll::Ready(out) => completes::<F>(before, after, out),
        Poll::Pending => after == before,
    }
}

/// A poll of the collection `before` from the task `task` returned `polled` and left `after`.
pub open spec fn collection_polled<F: SubmissionQueueFutures>(
    before: F,
    after: F,
    task: int,
    polled: Poll<F::Output>,
) -> bool {
    &&& poll_outcome::<F>(before.in_flight(), after.in_flight(), polled)
    &&& before.due() ==> polled is Ready
    &&& after.history() == before.history().push(CollectionCall::Poll(task))
}

/// The futures in the collection of a queue that has it in place.
pub open spec fn in_flight<F: SubmissionQueueFutures>(queue: Queue<F, F::Future>) -> Multiset<
    F::Future,
>
    recommends
        !queue.is_borrowed(),
{
    queue.futures()->0.in_flight()
}

/// All futures that a queue answers for: those in the collection and those in the buffer.
pub open spec fn held<F: SubmissionQueueFutures>(queue: Queue<F, F::Future>) -> Multiset<F::Future>
    recommends
        !queue.is_borrowed(),
{
    in_flight(queue).add(queue.pending().to_multiset())
}

/// The calls into the collection of a queue that has it in place.
pub open spec fn history<F: SubmissionQueueFutures>(queue: Queue<F, F::Future>) -> Seq<
    CollectionCall<F::Future>,
>
    recommends
        !queue.is_borrowed(),
{
    queue.futures()->0.history()
}

/// What happened from inside calls into `after` that had not happened in `before`.
pub open spec fn reentries_between<F: SubmissionQueueFutures>(before: F, after: F) -> Seq<
    Reentry<F::Future>,
> {
    after.reentries().skip(before.reentries().len() as int)
}

/// What happened from inside the collection between `before` and `after`.
pub open spec fn reentries_since<F: SubmissionQueueFutures>(
    before: Queue<F, F::Future>,
    after: Queue<F, F::Future>,
) -> Seq<Reentry<F::Future>> {
    reentries_between(before.futures()->0, after.futures()->0)
}

/// The futures that were submitted from inside the collection between `before` and `after`.
pub open spec fn submitted_since<F: SubmissionQueueFutures>(
    before: Queue<F, F::Future>,
    after: Queue<F, F::Future>,
) -> Seq<F::Future> {
    buffered(reentries_since(before, after))
}

/// The record of what happened from inside the collection only grows.
pub open spec fn reentries_kept<F: SubmissionQueueFutures>(before: F, after: F) -> bool {
    before.reentries().is_prefix_of(after.reentries())
}

/// Submitting `f` turns `before` into `after`.
///
/// With the collection handed out, `f` joins the end of the buffer. With the collection in place,
/// `f` is put into it, and the buffer changes only by what is submitted from inside that call.
/// Either way the registered task is woken last.
pub open spec fn spawned<F: SubmissionQueueFutures>(
    before: Queue<F, F::Future>,
    after: Queue<F, F::Future>,
    f: F::Future,
) -> bool {
    if before.is_borrowed() {
        after.is_borrowed() && before.buffer().spawned(&after.buffer(), f)
    } else {
        let reentries = reentries_since(before, after);
        &&& !after.is_borrowed()
        &&& reentries_kept(before.futures()->0, after.futures()->0)
        &&& in_flight(after) == in_flight(before).insert(f)
        &&& history(after) == history(before).push(CollectionCall::Spawn(f))
        &&& after.pending() == before.pending() + buffered(reentries)
        &&& !after.buffer().overtaken()
        &&& after.registered() == registered_after(before.registered(), reentries)
        &&& after.wakeups() == after_wake(
            before.wakeups() + woken_in(before.registered(), reentries),
            after.registered(),
        )
        &&& after.buffer().nested() == registered_after(before.buffer().nested(), reentries)
        &&& after.nested_wakeups() == before.nested_wakeups()
        &&& after.id() == before.id()
    }
}

/// The collection `lent` is ready to be polled from the task `task`, with `after` the buffer: `task`
/// was registered, the buffer of `before` was put into the collection, oldest first, and `task` was
/// registered again. The buffer afterwards holds what was submitted from inside those calls.
pub open spec fn poll_lent<F: SubmissionQueueFutures>(
    before: Queue<F, F::Future>,
    after: Buffer<F::Future>,
    task: int,
    lent: F,
) -> bool {
    let reentries = reentries_between(before.futures()->0, lent);
    &&& reentries_kept(before.futures()->0, lent)
    &&& lent.in_flight() == held(before)
    &&& lent.history() == history(before) + spawns(before.pending())
    &&& after.pending() == buffered(reentries)
    &&& after.overtaken() == polled_in(reentries)
    &&& after.registered() == Some(task)
    &&& after.wakeups() == before.wakeups() + woken_in(Some(task), reentries)
    &&& after.nested() == registered_after(before.buffer().nested(), reentries)
    &&& after.nested_wakeups() == before.nested_wakeups()
    &&& after.id() == before.id()
}

/// A poll that had the collection handed out ends by turning `before` into `after` and giving
/// `futures` back: if it made progress, a task that polled meanwhile is woken.
pub open spec fn poll_finished<F: SubmissionQueueFutures>(
    before: Queue<F, F::Future>,
    after: Queue<F, F::Future>,
    futures: F,
    progress: bool,
) -> bool {
    &&& after.futures() == Some(futures)
    &&& before.buffer().finished(&after.buffer(), progress)
}

/// A poll from the task `task` with the collection handed out turns `before` into `after`: `task`
/// is registered, and noted for the poll that has the collection to wake.
pub open spec fn poll_overtakes<F: SubmissionQueueFutures>(
    before: Queue<F, F::Future>,
    after: Queue<F, F::Future>,
    task: int,
) -> bool {
    &&& after.is_borrowed()
    &&& before.buffer().overtaken_by(&after.buffer(), task)
}

/// Starting a poll from the task `task` turns `before` into `after` and hands out `lent`.
///
/// With the collection handed out already, the poll is over. With the collection in place, it
/// takes in the buffer, and is handed out if it then holds futures. If it holds none, the poll is
/// over and the collection stays in place.
pub open spec fn poll_begun<F: SubmissionQueueFutures>(
    before: Queue<F, F::Future>,
    after: Queue<F, F::Future>,
    task: int,
    lent: Option<F>,
) -> bool {
    if before.is_borrowed() {
        lent is None && poll_overtakes(before, after, task)
    } else {
        &&& lent is Some <==> held(before).len() > 0
        &&& match lent {
            Some(futures) => after.is_borrowed() && poll_lent(
                before,
                after.buffer(),
                task,
                futures,
            ),
            None => !after.is_borrowed() && exists|during: Buffer<F::Future>| #[trigger]
                poll_lent(before, during, task, after.futures()->0) && during.finished(
                    &after.buffer(),
                    false,
                ),
        }
    }
}

/// Polling from the task `task` turns `before` into `after` and returns `polled`, where `lent` is
/// the collection once the buffer is put into it: the collection is polled once, unless it holds
/// nothing, and what the poll of it returned is returned.
pub open spec fn polled_through<F: SubmissionQueueFutures>(
    before: Queue<F, F::Future>,
    after: Queue<F, F::Future>,
    task: int,
    lent: F,
    polled: Poll<F::Output>,
) -> bool {
    let start = before.futures()->0;
    let end = after.futures()->0;
    // What happened while the buffer was put in, and while the collection was polled.
    let first = reentries_between(start, lent);
    let second = reentries_between(lent, end);
    &&& !after.is_borrowed()
    &&& reentries_kept(start, lent)
    &&& reentries_kept(lent, end)
    &&& lent.in_flight() == held(before)
    &&& lent.history() == history(before) + spawns(before.pending())
    &&& if held(before).len() > 0 {
        collection_polled(lent, end, task, polled)
    } else {
        end == lent && polled is Pending
    }
    &&& after.pending() == buffered(first) + buffered(second)
    &&& !after.buffer().overtaken()
    &&& after.registered() == registered_after(Some(task), second)
    &&& after.wakeups() == before.wakeups() + woken_in(Some(task), first) + woken_in(
        Some(task),
        second,
    )
    &&& after.buffer().nested() == registered_after(before.buffer().nested(), first + second)
    &&& after.nested_wakeups() == if polled is Ready && polled_in(first + second) {
        after_wake(before.nested_wakeups(), after.buffer().nested())
    } else {
        before.nested_wakeups()
    }
    &&& after.id() == before.id()
}

/// Polling from the task `task` turns `before` into `after` and returns `polled`.
///
/// With the collection handed out, the poll is pending. With the collection in place, `task` is
/// registered, the buffer is put into the collection, oldest first, `task` is registered again, and
/// then the collection is polled once, unless it holds nothing: one future completes, or none does.
/// The buffer afterwards holds what was submitted from inside those calls. If a future completes, a
/// task that polled from inside them is woken last.
pub open spec fn polled<F: SubmissionQueueFutures>(
    before: Queue<F, F::Future>,
    after: Queue<F, F::Future>,
    task: int,
    polled: Poll<F::Output>,
) -> bool {
    if before.is_borrowed() {
        polled is Pending && poll_overtakes(before, after, task)
    } else {
        exists|lent: F| #[trigger] polled_through(before, after, task, lent, polled)
    }
}

/// The right to submit futures to the queue that it was made for. The queue comes with each call.
pub struct SubmissionQueue<F> {
    queue: PhantomData<F>,
    id: Ghost<int>,
}

impl<F> SubmissionQueue<F> {
    /// The queue that the right is for.
    pub closed spec fn id(&self) -> int {
        self.id@
    }
}

impl<F: SubmissionQueueFutures> SubmissionQueue<F> {
    /// Submits `f`.
    pub fn spawn(&self, queue: &mut Queue<F, F::Future>, f: F::Future)
        requires
            old(queue).id() == self.id(),
        ensures
            spawned(*old(queue), *final(queue), f),
    {
        match queue.queue.as_mut() {
            Some(futures) => {
                futures.spawn(f, &mut queue.buffer);
                wake_by_ref(&mut queue.buffer.item_waker);
                // The wake-up reaches a task that polled from inside that call.
                queue.buffer.overtaken = false;
            },
            None => queue.buffer.spawn(f),
        }
    }

    /// Submits `f` from inside a call into the collection.
    pub fn spawn_inside(&self, buffer: &mut Buffer<F::Future>, f: F::Future)
        requires
            old(buffer).id() == self.id(),
        ensures
            old(buffer).spawned(final(buffer), f),
            old(buffer).reentered(final(buffer), seq![Reentry::Spawn(f)]),
    {
        buffer.spawn(f);
        proof {
            lemma_one_reentered(old(buffer), buffer, Reentry::Spawn(f));
        }
    }
}

/// The right to poll the queue that it was made for. The queue comes with each call.
pub struct SubmissionQueueResults<F> {
    queue: PhantomData<F>,
    id: Ghost<int>,
}

impl<F> SubmissionQueueResults<F> {
    /// The queue that the right is for.
    pub closed spec fn id(&self) -> int {
        self.id@
    }
}

impl<F: SubmissionQueueFutures> SubmissionQueueResults<F> {
    /// Readies the collection for a poll: registers `cx`, and moves the buffered submissions into
    /// the collection.
    fn drain(&self, futures: &mut F, buffer: &mut Buffer<F::Future>, cx: &Context<'_>)
        ensures
            forall|before: Queue<F, F::Future>|
                before.futures() == Some(*old(futures)) && before.buffer() == *old(buffer)
                    ==> #[trigger] poll_lent(
                    before,
                    *final(buffer),
                    context_task(*cx),
                    *final(futures),
                ),
    {
        // Registered first: a submission from inside the calls below wakes the poller, and its
        // next poll moves what was submitted.
        register(&mut buffer.item_waker, cx);
        buffer.overtaken = false;
        let mut batch: VecDeque<F::Future> = VecDeque::new();
        core::mem::swap(&mut batch, &mut buffer.pending);
        let ghost drained = batch@;
        let ghost start = *futures;
        let ghost begun = *buffer;
        let ghost mut done: int = 0;
        proof {
            lemma_nothing_reentered(&begun);
            assert(start.reentries().skip(start.reentries().len() as int) =~= Seq::empty());
            assert(start.history() + spawns(drained.take(0)) =~= start.history());
        }
        while batch.len() > 0
            invariant
                0 <= done <= drained.len(),
                batch@ == drained.skip(done),
                reentries_kept(start, *futures),
                begun.reentered(buffer, reentries_between(start, *futures)),
                futures.in_flight().add(batch@.to_multiset()) == start.in_flight().add(
                    drained.to_multiset(),
                ),
                futures.history() == start.history() + spawns(drained.take(done)),
            decreases batch@.len(),
        {
            let ghost left = batch@;
            match batch.pop_front() {
                Some(f) => {
                    proof {
                        lemma_first_to_multiset(left);
                    }
                    let ghost earlier = *futures;
                    let ghost buffer_earlier = *buffer;
                    futures.spawn(f, buffer);
                    proof {
                        lemma_reentries_compose(
                            &begun,
                            &buffer_earlier,
                            buffer,
                            start,
                            earlier,
                            *futures,
                        );
                        assert(spawns(drained.take(done + 1)) =~= spawns(drained.take(done)).push(
                            CollectionCall::Spawn(f),
                        ));
                        done = done + 1;
                    }
                },
                None => {},
            }
        }
        proof {
            broadcast use vstd::seq_lib::group_to_multiset_ensures;

            assert(futures.in_flight() =~= futures.in_flight().add(batch@.to_multiset()));
            assert(drained.take(done) =~= drained);
            assert(buffer.pending() =~= buffered(reentries_between(start, *futures)));
        }
        register(&mut buffer.item_waker, cx);
    }

    /// Starts a poll: registers `cx`, moves the buffered submissions into the collection, and
    /// hands the collection out to be polled, unless there is nothing in it. A caller that polls
    /// the collection gives it back with [`Self::finish_poll_next`]; until then submissions go to
    /// the buffer and polls are pending.
    pub fn begin_poll_next(&self, queue: &mut Queue<F, F::Future>, cx: &Context<'_>) -> (lent:
        Option<F>)
        requires
            old(queue).id() == self.id(),
        ensures
            poll_begun(*old(queue), *final(queue), context_task(*cx), lent),
    {
        let empty = match queue.queue.as_mut() {
            Some(futures) => {
                self.drain(futures, &mut queue.buffer, cx);
                futures.len() == 0
            },
            None => {
                queue.buffer.overtake(cx);
                return None;
            },
        };
        let ghost during = queue.buffer;
        assert(poll_lent(*old(queue), during, context_task(*cx), queue.queue->0));
        if empty {
            queue.buffer.finish(false);
            return None;
        }
        queue.queue.take()
    }

    /// Finishes a poll: gives the collection back, and, if the poll made `progress`, wakes a task
    /// that polled meanwhile. A poll makes progress if a future completes.
    pub fn finish_poll_next(&self, queue: &mut Queue<F, F::Future>, futures: F, progress: bool)
        requires
            old(queue).is_borrowed(),
            old(queue).id() == self.id(),
        ensures
            poll_finished(*old(queue), *final(queue), futures, progress),
    {
        queue.queue = Some(futures);
        queue.buffer.finish(progress);
    }

    /// Moves the buffered submissions into the collection and polls it: what the poll of the
    /// collection returns is returned.
    pub fn poll_next_unpin(&self, queue: &mut Queue<F, F::Future>, cx: &mut Context<'_>) -> (r: Poll<
        F::Output,
    >)
        requires
            old(queue).id() == self.id(),
        ensures
            polled(*old(queue), *final(queue), context_task(*old(cx)), r),
            !old(queue).is_borrowed() && held(*old(queue)).len() > 0 ==> exists|
                futures: &mut F,
                c: &mut Context<'_>,
                owner: &mut Buffer<F::Future>,
            | #[trigger]
                call_ensures(F::poll_next_unpin, (futures, c, owner), r) && *c == *old(cx)
                    && poll_lent(*old(queue), *owner, context_task(*old(cx)), *futures)
                    && final(queue).futures() == Some(*final(futures)) && final(owner).finished(
                    &final(queue).buffer(),
                    r is Ready,
                ),
    {
        let futures = match queue.queue.as_mut() {
            Some(futures) => futures,
            None => {
                queue.buffer.overtake(cx);
                return Poll::Pending;
            },
        };
        self.drain(futures, &mut queue.buffer, cx);
        let ghost lent = *futures;
        let ghost buffer_lent = queue.buffer;
        assert(poll_lent(*old(queue), buffer_lent, context_task(*old(cx)), lent));
        if futures.len() == 0 {
            queue.buffer.finish(false);
            proof {
                lemma_nothing_reentered(&buffer_lent);
                assert(reentries_between(lent, lent) =~= Seq::empty());
                lemma_polled_through(
                    *old(queue),
                    buffer_lent,
                    buffer_lent,
                    *queue,
                    context_task(*old(cx)),
                    lent,
                    Poll::Pending,
                );
            }
            return Poll::Pending;
        }
        let r = futures.poll_next_unpin(cx, &mut queue.buffer);
        let ghost buffer_polled = queue.buffer;
        let progress = match r {
            Poll::Ready(_) => true,
            Poll::Pending => false,
        };
        queue.buffer.finish(progress);
        proof {
            lemma_polled_through(
                *old(queue),
                buffer_lent,
                buffer_polled,
                *queue,
                context_task(*old(cx)),
                lent,
                r,
            );
        }
        r
    }

    /// Polls from inside a call into the collection: the poll that has the collection will make
    /// what progress there is.
    pub fn poll_inside(&self, buffer: &mut Buffer<F::Future>, cx: &Context<'_>) -> (r: Poll<
        F::Output,
    >)
        requires
            old(buffer).id() == self.id(),
        ensures
            r is Pending,
            old(buffer).overtaken_by(final(buffer), context_task(*cx)),
            old(buffer).reentered(final(buffer), seq![Reentry::Poll(context_task(*cx))]),
    {
        buffer.overtake(cx);
        proof {
            lemma_one_reentered(old(buffer), buffer, Reentry::Poll(context_task(*cx)));
        }
        Poll::Pending
    }
}

/// Nothing happens to a queue under no reentries.
pub(crate) proof fn lemma_nothing_reentered<Fut>(buffer: &Buffer<Fut>)
    ensures
        buffer.reentered(buffer, Seq::empty()),
{
    assert(buffer.pending() + Seq::empty() =~= buffer.pending());
    assert(buffer.wakeups() + Seq::empty() =~= buffer.wakeups());
}

/// What happens under one reentry.
pub(crate) proof fn lemma_one_reentered<Fut>(
    before: &Buffer<Fut>,
    after: &Buffer<Fut>,
    reentry: Reentry<Fut>,
)
    requires
        match reentry {
            Reentry::Spawn(f) => before.spawned(after, f),
            Reentry::Poll(task) => before.overtaken_by(after, task),
        },
    ensures
        before.reentered(after, seq![reentry]),
{
    reveal_with_fuel(buffered, 2);
    reveal_with_fuel(registered_after, 2);
    reveal_with_fuel(woken_in, 2);
    let one = seq![reentry];
    assert(one.drop_last() =~= Seq::empty());
    assert(one.last() == reentry);
    assert(one[0] == reentry);
    assert(after.pending() =~= before.pending() + buffered(one));
    assert(after.wakeups() =~= before.wakeups() + woken_in(before.registered(), one));
}

/// What some reentries and then others do is what they do together.
pub proof fn lemma_reentries_add<Fut>(
    registered: Option<int>,
    first: Seq<Reentry<Fut>>,
    second: Seq<Reentry<Fut>>,
)
    ensures
        buffered(first + second) == buffered(first) + buffered(second),
        polled_in(first + second) == (polled_in(first) || polled_in(second)),
        registered_after(registered, first + second) == registered_after(
            registered_after(registered, first),
            second,
        ),
        woken_in(registered, first + second) == woken_in(registered, first) + woken_in(
            registered_after(registered, first),
            second,
        ),
    decreases second.len(),
{
    let both = first + second;
    if polled_in(first) {
        let i = choose|i: int| 0 <= i < first.len() && #[trigger] first[i] is Poll;
        assert(both[i] is Poll);
    }
    if polled_in(second) {
        let i = choose|i: int| 0 <= i < second.len() && #[trigger] second[i] is Poll;
        assert(both[first.len() + i] is Poll);
    }
    if polled_in(both) {
        let i = choose|i: int| 0 <= i < both.len() && #[trigger] both[i] is Poll;
        if i < first.len() {
            assert(first[i] is Poll);
        } else {
            assert(second[i - first.len()] is Poll);
        }
    }
    if second.len() == 0 {
        assert(both =~= first);
        assert(buffered(first) + buffered(second) =~= buffered(first));
        assert(woken_in(registered, first) + Seq::empty() =~= woken_in(registered, first));
    } else {
        assert(both.drop_last() =~= first + second.drop_last());
        assert(both.last() == second.last());
        lemma_reentries_add(registered, first, second.drop_last());
        let middle = registered_after(registered, first);
        assert(buffered(both) =~= buffered(first) + buffered(second));
        assert(woken_in(registered, both) =~= woken_in(registered, first) + woken_in(
            middle,
            second,
        ));
    }
}

/// What happens under two calls into the collection is what happens under one after the other.
proof fn lemma_reentries_compose<F: SubmissionQueueFutures>(
    a: &Buffer<F::Future>,
    b: &Buffer<F::Future>,
    c: &Buffer<F::Future>,
    futures_a: F,
    futures_b: F,
    futures_c: F,
)
    requires
        reentries_kept(futures_a, futures_b),
        reentries_kept(futures_b, futures_c),
        a.reentered(b, reentries_between(futures_a, futures_b)),
        b.reentered(c, reentries_between(futures_b, futures_c)),
    ensures
        reentries_kept(futures_a, futures_c),
        a.reentered(c, reentries_between(futures_a, futures_c)),
        reentries_between(futures_a, futures_c) == reentries_between(futures_a, futures_b)
            + reentries_between(futures_b, futures_c),
{
    let first = reentries_between(futures_a, futures_b);
    let second = reentries_between(futures_b, futures_c);
    lemma_joins_compose(futures_a.reentries(), futures_b.reentries(), futures_c.reentries());
    lemma_reentered_compose(a, b, c, first, second);
}

/// What happens under some reentries and then under others is what happens under all of them.
pub(crate) proof fn lemma_reentered_compose<Fut>(
    a: &Buffer<Fut>,
    b: &Buffer<Fut>,
    c: &Buffer<Fut>,
    first: Seq<Reentry<Fut>>,
    second: Seq<Reentry<Fut>>,
)
    requires
        a.reentered(b, first),
        b.reentered(c, second),
    ensures
        a.reentered(c, first + second),
{
    lemma_reentries_add(a.registered(), first, second);
    lemma_reentries_add(a.nested(), first, second);
    assert(c.pending() =~= a.pending() + buffered(first + second));
    assert(c.wakeups() =~= a.wakeups() + woken_in(a.registered(), first + second));
}

/// A poll is what happens while the buffer is put in, then while the collection is polled, and then
/// at its end.
proof fn lemma_polled_through<F: SubmissionQueueFutures>(
    before: Queue<F, F::Future>,
    lent_buffer: Buffer<F::Future>,
    end_buffer: Buffer<F::Future>,
    after: Queue<F, F::Future>,
    task: int,
    lent: F,
    r: Poll<F::Output>,
)
    requires
        !after.is_borrowed(),
        poll_lent(before, lent_buffer, task, lent),
        reentries_kept(lent, after.futures()->0),
        lent_buffer.reentered(&end_buffer, reentries_between(lent, after.futures()->0)),
        end_buffer.finished(&after.buffer(), r is Ready),
        if held(before).len() > 0 {
            collection_polled(lent, after.futures()->0, task, r)
        } else {
            after.futures()->0 == lent && r is Pending
        },
    ensures
        polled_through(before, after, task, lent, r),
{
    let first = reentries_between(before.futures()->0, lent);
    let second = reentries_between(lent, after.futures()->0);
    lemma_reentries_add(before.buffer().nested(), first, second);
}

/// What happened from inside the collection over a poll is what happened while the buffer was put
/// in and then while the collection was polled.
pub(crate) proof fn lemma_reentries_through<F: SubmissionQueueFutures>(
    before: Queue<F, F::Future>,
    after: Queue<F, F::Future>,
    task: int,
    lent: F,
    r: Poll<F::Output>,
)
    requires
        polled_through(before, after, task, lent, r),
    ensures
        reentries_kept(before.futures()->0, after.futures()->0),
        reentries_since(before, after) == reentries_between(before.futures()->0, lent)
            + reentries_between(lent, after.futures()->0),
        after.pending() == submitted_since(before, after),
{
    let first = reentries_between(before.futures()->0, lent);
    let second = reentries_between(lent, after.futures()->0);
    lemma_joins_compose(
        before.futures()->0.reentries(),
        lent.reentries(),
        after.futures()->0.reentries(),
    );
    lemma_reentries_add(None, first, second);
}

/// What joined a growing sequence in two steps is what joined in the first and then the second.
proof fn lemma_joins_compose<A>(a: Seq<A>, b: Seq<A>, c: Seq<A>)
    requires
        a.is_prefix_of(b),
        b.is_prefix_of(c),
    ensures
        a.is_prefix_of(c),
        c.skip(a.len() as int) == b.skip(a.len() as int) + c.skip(b.len() as int),
{
    assert forall|i: int| 0 <= i < a.len() implies a[i] == c[i] by {
        assert(b[i] == c.subrange(0, b.len() as int)[i]);
        assert(a[i] == b.subrange(0, a.len() as int)[i]);
    }
    assert(a =~= c.subrange(0, a.len() as int));
    assert forall|i: int| a.len() <= i < b.len() implies b[i] == c[i] by {
        assert(b[i] == c.subrange(0, b.len() as int)[i]);
    }
    assert(c.skip(a.len() as int) =~= b.skip(a.len() as int) + c.skip(b.len() as int));
}

proof fn lemma_first_to_multiset<A>(s: Seq<A>)
    requires
        s.len() > 0,
    ensures
        s.to_multiset() == s.drop_first().to_multiset().insert(s[0]),
{
    broadcast use vstd::seq_lib::group_to_multiset_ensures;

    assert(s =~= seq![s[0]] + s.drop_first());
    vstd::seq_lib::lemma_multiset_commutative(seq![s[0]], s.drop_first());
    assert(seq![s[0]] =~= Seq::<A>::empty().push(s[0]));
    assert(seq![s[0]].to_multiset() =~= Multiset::singleton(s[0]));
    assert(s.to_multiset() =~= s.drop_first().to_multiset().insert(s[0]));
}

/// Makes a queue over an empty collection, with the right to submit to it and the right to poll
/// it. Neither right is good for another queue.
pub fn new_submission_queue<F: SubmissionQueueFutures>() -> (r: (
    Queue<F, F::Future>,
    SubmissionQueue<F>,
    SubmissionQueueResults<F>,
))
    ensures
        !r.0.is_borrowed(),
        in_flight(r.0) == Multiset::<F::Future>::empty(),
        history(r.0) == Seq::<CollectionCall<F::Future>>::empty(),
        r.0.pending() == Seq::<F::Future>::empty(),
        !r.0.buffer().overtaken(),
        r.0.registered() is None,
        r.0.wakeups() == Seq::<int>::empty(),
        r.0.buffer().nested() is None,
        r.0.nested_wakeups() == Seq::<int>::empty(),
        r.1.id() == r.0.id(),
        r.2.id() == r.0.id(),
{
    let buffer = Buffer {
        pending: VecDeque::new(),
        overtaken: false,
        item_waker: empty_slot(),
        nested_waker: empty_slot(),
        id: Ghost(arbitrary()),
    };
    let queue = Queue { queue: Some(F::default()), buffer };
    let submissions = queue.submissions();
    let results = queue.results();
    (queue, submissions, results)
}

} // verus!
