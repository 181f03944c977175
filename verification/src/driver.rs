//! Drives ops: submits them, delivers their results, and tells what is in flight.
use core::task::Context;
use core::task::Poll;
use std::collections::VecDeque;

use bit_set::BitSet;
use futures::stream::FuturesUnordered;
use futures::task::LocalFutureObj;
use vstd::multiset::Multiset;
use vstd::prelude::*;

use crate::op_futures::clear_ops;
use crate::op_futures::lists_contexts;
use crate::op_futures::op_contexts;
use crate::op_futures::poll_first;
use crate::op_futures::work_first_polled;
use crate::op_futures::OpFuture;
use crate::op_futures::OpWork;
use crate::op_results::OpId;
use crate::op_results::OpResult;
use crate::op_results::OpValue;
use crate::op_results::PendingOp;
use crate::op_results::PendingOpInfo;
use crate::op_results::PromiseId;
use crate::submission_queue::held;
use crate::submission_queue::history;
use crate::submission_queue::in_flight;
use crate::submission_queue::new_submission_queue;
use crate::submission_queue::poll_begun;
use crate::submission_queue::poll_finished;
use crate::submission_queue::poll_lent;
use crate::submission_queue::polled;
use crate::submission_queue::polled_through;
use crate::submission_queue::spawned;
use crate::submission_queue::Buffer;
use crate::submission_queue::CollectionCall;
use crate::submission_queue::Queue;
use crate::submission_queue::SubmissionQueueFutures;
use crate::waker::context_task;

verus! {

/// The set of integers of the `bit_set` crate.
#[verifier::external_type_specification]
#[verifier::external_body]
#[verifier::reject_recursive_types(B)]
pub struct ExBitSet<B>(BitSet<B>);

/// The integers in a `BitSet`.
pub uninterp spec fn members(set: BitSet) -> Set<usize>;

/// Calls `BitSet::contains`, which tells whether the set holds `value`.
#[verifier::external_body]
fn contains(set: &BitSet, value: usize) -> (found: bool)
    ensures
        found == members(*set).contains(value),
{
    set.contains(value)
}

/// What to do with an op after its first poll.
pub enum FirstPoll<R> {
    /// The work is not done: keep it in flight.
    Spawn,
    /// The work is done, and its result is to be delivered later.
    SpawnDone(R),
    /// The work is done: hand its result to the caller at once.
    Return(R),
}

/// Decides what to do with an op whose first poll gave `first`.
pub open spec fn decision<R>(first: Poll<R>, deferred: bool) -> FirstPoll<R> {
    match first {
        Poll::Pending => FirstPoll::Spawn,
        Poll::Ready(result) => if deferred {
            FirstPoll::SpawnDone(result)
        } else {
            FirstPoll::Return(result)
        },
    }
}

/// Decides what to do with an op whose first poll gave `first`.
pub fn after_first_poll<R, const DEFERRED: bool>(first: Poll<R>) -> (todo: FirstPoll<R>)
    ensures
        todo == decision(first, DEFERRED),
{
    match first {
        Poll::Pending => FirstPoll::Spawn,
        Poll::Ready(result) => {
            if DEFERRED {
                FirstPoll::SpawnDone(result)
            } else {
                FirstPoll::Return(result)
            }
        },
    }
}

/// What becomes of an op after its first poll.
pub enum Settled<R> {
    /// The op goes in flight.
    Launch(OpFuture),
    /// The result goes to the caller at once.
    Return(R),
}

/// What becomes of the op `info`, where `first` is what its first poll gave and `work` is what
/// keeps it in flight if it is not done. A done op is returned, or, if `deferred`, goes in flight
/// with its result.
pub open spec fn settled(
    info: PendingOpInfo,
    deferred: bool,
    first: Poll<OpResult>,
    work: OpWork,
) -> Settled<OpResult> {
    match decision(first, deferred) {
        FirstPoll::Spawn => Settled::Launch(OpFuture { info, work }),
        FirstPoll::SpawnDone(result) => Settled::Launch(
            OpFuture { info, work: OpWork::Done(Some(result)) },
        ),
        FirstPoll::Return(result) => Settled::Return(result),
    }
}

/// Settles what becomes of the op `info`, which can fail, after the first poll of `op` gave
/// `first`. Work that is done is dropped here.
pub fn settle_fallible<const DEFERRED: bool>(
    info: PendingOpInfo,
    first: Poll<OpResult>,
    op: LocalFutureObj<'static, OpResult>,
) -> (r: Settled<OpResult>)
    ensures
        r == settled(info, DEFERRED, first, OpWork::Fallible(op)),
{
    match after_first_poll::<OpResult, DEFERRED>(first) {
        FirstPoll::Spawn => Settled::Launch(OpFuture { info, work: OpWork::Fallible(op) }),
        FirstPoll::SpawnDone(result) => Settled::Launch(
            OpFuture { info, work: OpWork::Done(Some(result)) },
        ),
        FirstPoll::Return(result) => Settled::Return(result),
    }
}

/// Settles what becomes of the op `info`, which cannot fail, after the first poll of `op` gave
/// `first`. Work that is done is dropped here.
pub fn settle_infallible<const DEFERRED: bool>(
    info: PendingOpInfo,
    first: Poll<OpValue>,
    op: LocalFutureObj<'static, OpValue>,
) -> (r: Settled<OpValue>)
    ensures
        value_settled(r) == settled(
            info,
            DEFERRED,
            value_polled(first),
            OpWork::Infallible(op),
        ),
{
    match after_first_poll::<OpValue, DEFERRED>(first) {
        FirstPoll::Spawn => Settled::Launch(OpFuture { info, work: OpWork::Infallible(op) }),
        FirstPoll::SpawnDone(value) => Settled::Launch(
            OpFuture { info, work: OpWork::Done(Some(Ok(value))) },
        ),
        FirstPoll::Return(value) => Settled::Return(value),
    }
}

/// The ops in flight at some moment.
pub struct OpInflightStats {
    pub ops: Vec<PendingOpInfo>,
}

/// Drops the ops in `contexts` whose id is in `excluded`, and keeps the order of the others.
pub open spec fn not_excluded(contexts: Seq<PendingOpInfo>, excluded: Set<usize>) -> Seq<
    PendingOpInfo,
> {
    contexts.filter(|info: PendingOpInfo| !excluded.contains(info.1 as usize))
}

/// Keeps of `contexts`, in order, the ops that `op_exclusions` does not name.
pub fn inflight_stats(contexts: &Vec<PendingOpInfo>, op_exclusions: &BitSet) -> (stats:
    OpInflightStats)
    ensures
        stats.ops@ == not_excluded(contexts@, members(*op_exclusions)),
{
    let ghost keep = |info: PendingOpInfo| !members(*op_exclusions).contains(info.1 as usize);
    let mut ops: Vec<PendingOpInfo> = Vec::with_capacity(contexts.len());
    let mut i: usize = 0;
    while i < contexts.len()
        invariant
            i <= contexts.len(),
            keep == (|info: PendingOpInfo| !members(*op_exclusions).contains(info.1 as usize)),
            ops@ == contexts@.take(i as int).filter(keep),
        decreases contexts.len() - i,
    {
        let context = contexts[i];
        proof {
            reveal(Seq::filter);
            assert(contexts@.take(i + 1).drop_last() =~= contexts@.take(i as int));
        }
        if !contains(op_exclusions, context.1 as usize) {
            ops.push(context);
        }
        i = i + 1;
    }
    assert(contexts@.take(i as int) =~= contexts@);
    OpInflightStats { ops }
}

/// The collection that a driver keeps its ops in.
pub type Ops = FuturesUnordered<OpFuture>;

/// Drives ops on a queue over a `FuturesUnordered`.
pub struct FuturesUnorderedDriver {
    /// How many ops were submitted and not delivered yet.
    len: usize,
    shared: Queue<Ops, OpFuture>,
}

impl Default for FuturesUnorderedDriver {
    fn default() -> (driver: FuturesUnorderedDriver)
        ensures
            driver.wf(),
            driver.count() == 0,
            !driver.state().is_borrowed(),
            held(driver.state()) == Multiset::<OpFuture>::empty(),
            history(driver.state()) == Seq::<CollectionCall<OpFuture>>::empty(),
            driver.state().pending() == Seq::<OpFuture>::empty(),
            driver.state().registered() is None,
            driver.state().wakeups() == Seq::<int>::empty(),
            driver.state().nested_wakeups() == Seq::<int>::empty(),
    {
        let (shared, _, _) = new_submission_queue();
        proof {
            lemma_nothing_held(shared);
        }
        FuturesUnorderedDriver { len: 0, shared }
    }
}

impl FuturesUnorderedDriver {
    /// How many ops were submitted and not delivered yet.
    pub closed spec fn count(&self) -> usize {
        self.len
    }

    /// The queue that the ops are on.
    pub closed spec fn state(&self) -> Queue<Ops, OpFuture> {
        self.shared
    }

    /// Every op on the queue is counted.
    pub open spec fn wf(&self) -> bool {
        if self.state().is_borrowed() {
            self.state().pending().len() <= self.count()
        } else {
            held(self.state()).len() <= self.count()
        }
    }

    /// Putting `task` in flight turns `self` into `after`.
    pub open spec fn launched(&self, after: &Self, task: OpFuture) -> bool {
        &&& spawned(self.state(), after.state(), task)
        &&& after.count() == self.count() + 1
    }

    /// Submitting the op `info` turns `self` into `after` and returns `returned`, where `first`
    /// is what the first poll of the op gave and `work` is what keeps it in flight if it is not
    /// done. An op that is returned leaves no trace.
    pub open spec fn submitted(
        &self,
        after: &Self,
        info: PendingOpInfo,
        deferred: bool,
        first: Poll<OpResult>,
        work: OpWork,
        returned: Option<OpResult>,
    ) -> bool {
        match settled(info, deferred, first, work) {
            Settled::Launch(task) => returned is None && self.launched(after, task),
            Settled::Return(result) => returned == Some(result) && *after == *self,
        }
    }

    /// Makes a delivery of what a poll of the queue found: a completed op no longer counts, and
    /// is delivered under its promise and its op.
    pub fn deliver(&mut self, polled: Poll<PendingOp>) -> (delivered: Poll<
        (PromiseId, OpId, OpResult),
    >)
        requires
            polled is Ready ==> old(self).count() > 0,
        ensures
            final(self).state() == old(self).state(),
            delivers(*old(self), *final(self), polled, delivered),
    {
        match polled {
            Poll::Ready(PendingOp(PendingOpInfo(promise_id, op_id), result)) => {
                self.len = self.len - 1;
                Poll::Ready((promise_id, op_id, result))
            },
            Poll::Pending => Poll::Pending,
        }
    }

    /// Puts an op in flight.
    pub fn spawn(&mut self, task: OpFuture)
        requires
            old(self).wf(),
            old(self).count() < usize::MAX,
        ensures
            final(self).wf(),
            old(self).launched(final(self), task),
    {
        self.len = self.len + 1;
        let queue = self.shared.submissions();
        queue.spawn(&mut self.shared, task);
    }

    /// Submits an op that can fail. A lazy op goes in flight unpolled. Any other op is polled
    /// once, with a waker that wakes nothing: it goes in flight if it is not done, and a done op
    /// is returned at once, or, if it is deferred, goes in flight with its result.
    pub fn submit_op_fallible<const LAZY: bool, const DEFERRED: bool>(
        &mut self,
        op_id: OpId,
        promise_id: PromiseId,
        op: LocalFutureObj<'static, OpResult>,
    ) -> (returned: Option<OpResult>)
        requires
            old(self).wf(),
            old(self).count() < usize::MAX,
        ensures
            final(self).wf(),
            LAZY ==> returned is None && old(self).launched(
                final(self),
                OpFuture { info: PendingOpInfo(promise_id, op_id), work: OpWork::Fallible(op) },
            ),
            !LAZY ==> exists|first: Poll<OpResult>, rest: LocalFutureObj<'static, OpResult>|
                #[trigger] work_first_polled(op, rest, first) && old(self).submitted(
                    final(self),
                    PendingOpInfo(promise_id, op_id),
                    DEFERRED,
                    first,
                    OpWork::Fallible(rest),
                    returned,
                ),
    {
        let info = PendingOpInfo(promise_id, op_id);
        if LAZY {
            self.spawn(OpFuture { info, work: OpWork::Fallible(op) });
            return None;
        }
        let (first, rest) = poll_first(op);
        match settle_fallible::<DEFERRED>(info, first, rest) {
            Settled::Launch(task) => {
                self.spawn(task);
                None
            },
            Settled::Return(result) => Some(result),
        }
    }

    /// Submits an op that cannot fail, as [`Self::submit_op_fallible`] does.
    pub fn submit_op_infallible<const LAZY: bool, const DEFERRED: bool>(
        &mut self,
        op_id: OpId,
        promise_id: PromiseId,
        op: LocalFutureObj<'static, OpValue>,
    ) -> (returned: Option<OpValue>)
        requires
            old(self).wf(),
            old(self).count() < usize::MAX,
        ensures
            final(self).wf(),
            LAZY ==> returned is None && old(self).launched(
                final(self),
                OpFuture { info: PendingOpInfo(promise_id, op_id), work: OpWork::Infallible(op) },
            ),
            !LAZY ==> exists|first: Poll<OpValue>, rest: LocalFutureObj<'static, OpValue>|
                #[trigger] work_first_polled(op, rest, first) && old(self).submitted(
                    final(self),
                    PendingOpInfo(promise_id, op_id),
                    DEFERRED,
                    value_polled(first),
                    OpWork::Infallible(rest),
                    value_returned(returned),
                ),
    {
        let info = PendingOpInfo(promise_id, op_id);
        if LAZY {
            self.spawn(OpFuture { info, work: OpWork::Infallible(op) });
            return None;
        }
        let (first, rest) = poll_first(op);
        match settle_infallible::<DEFERRED>(info, first, rest) {
            Settled::Launch(task) => {
                self.spawn(task);
                None
            },
            Settled::Return(value) => Some(value),
        }
    }

    /// Delivering what a poll from the task `task` finds turns `self` into `after` and returns
    /// `r`.
    pub open spec fn readied(
        &self,
        after: &Self,
        task: int,
        r: Poll<(PromiseId, OpId, OpResult)>,
    ) -> bool {
        match r {
            Poll::Ready((promise_id, op_id, result)) => {
                &&& polled(
                    self.state(),
                    after.state(),
                    task,
                    Poll::Ready(PendingOp(PendingOpInfo(promise_id, op_id), result)),
                )
                &&& after.count() == self.count() - 1
            },
            Poll::Pending => {
                &&& polled(self.state(), after.state(), task, Poll::Pending)
                &&& after.count() == self.count()
            },
        }
    }

    /// Polls the ops in flight and delivers what the poll returns: one that has completed, or none.
    pub fn poll_ready(&mut self, cx: &mut Context<'_>) -> (r: Poll<(PromiseId, OpId, OpResult)>)
        requires
            old(self).wf(),
        ensures
            final(self).wf(),
            old(self).readied(final(self), context_task(*old(cx)), r),
            !old(self).state().is_borrowed() && held(old(self).state()).len() > 0 ==> exists|
                ops: &mut Ops,
                c: &mut Context<'_>,
                owner: &mut Buffer<OpFuture>,
                found: Poll<PendingOp>,
            | #[trigger]
                call_ensures(Ops::poll_next_unpin, (ops, c, owner), found) && *c == *old(cx)
                    && poll_lent(old(self).state(), *owner, context_task(*old(cx)), *ops)
                    && final(self).state().futures() == Some(*final(ops)) && final(owner).finished(
                    &final(self).state().buffer(),
                    found is Ready,
                ) && delivers(*old(self), *final(self), found, r),
    {
        let results = self.shared.results();
        let polled = results.poll_next_unpin(&mut self.shared, cx);
        proof {
            broadcast use vstd::seq_lib::group_to_multiset_ensures;

            if !self.shared.is_borrowed() {
                lemma_poll_buffers_nothing(
                    old(self).state(),
                    self.shared,
                    context_task(*old(cx)),
                    polled,
                );
                assert(self.shared.pending().to_multiset() =~= Multiset::<OpFuture>::empty());
                assert(held(self.shared) =~= in_flight(self.shared));
            }
        }
        self.deliver(polled)
    }

    /// Starts a poll whose ops may submit to this driver while they are polled: registers `cx`,
    /// moves the buffer into the collection, and hands the ops out, unless there are none or they
    /// are out already. Until [`Self::finish_poll_ready`] gives them back, ops that are submitted
    /// go to the buffer, and polls are pending.
    pub fn begin_poll_ready(&mut self, cx: &Context<'_>) -> (lent: Option<Ops>)
        requires
            old(self).wf(),
        ensures
            final(self).wf(),
            final(self).count() == old(self).count(),
            poll_begun(old(self).state(), final(self).state(), context_task(*cx), lent),
    {
        proof {
            broadcast use vstd::seq_lib::group_to_multiset_ensures;

            assert(Seq::<OpFuture>::empty().to_multiset() =~= Multiset::<OpFuture>::empty());
        }
        let results = self.shared.results();
        let lent = results.begin_poll_next(&mut self.shared, cx);
        proof {
            if !self.shared.is_borrowed() {
                assert(held(self.shared) =~= in_flight(self.shared));
            }
        }
        lent
    }

    /// Finishes a poll: gives the ops back, and delivers what polling the ops found. If an op
    /// completed, a task that polled meanwhile is woken.
    pub fn finish_poll_ready(&mut self, ops: Ops, polled: Poll<PendingOp>) -> (delivered: Poll<
        (PromiseId, OpId, OpResult),
    >)
        requires
            old(self).state().is_borrowed(),
            polled is Ready ==> old(self).count() > 0,
        ensures
            poll_finished(old(self).state(), final(self).state(), ops, polled is Ready),
            delivers(*old(self), *final(self), polled, delivered),
    {
        let results = self.shared.results();
        let progress = match polled {
            Poll::Ready(_) => true,
            Poll::Pending => false,
        };
        results.finish_poll_next(&mut self.shared, ops, progress);
        self.deliver(polled)
    }

    /// How many ops were submitted and not delivered yet. Ops that a shutdown dropped still
    /// count.
    pub fn len(&self) -> (n: usize)
        ensures
            n == self.count(),
    {
        self.len
    }

    /// Whether the ops are out, to be polled.
    pub fn is_polling(&self) -> (polling: bool)
        ensures
            polling == self.state().is_borrowed(),
    {
        self.shared.borrow().is_none()
    }

    /// Dropping all ops turns `self` into `after`: nothing is left on the queue, and the set that
    /// is left has had no op put into it and has not been polled. Dropped ops still count, and
    /// nobody is woken.
    pub open spec fn shut_down(&self, after: &Self) -> bool {
        &&& !after.state().is_borrowed()
        &&& in_flight(after.state()) == Multiset::<OpFuture>::empty()
        &&& history(after.state()) == Seq::<CollectionCall<OpFuture>>::empty()
        &&& after.state().pending() == Seq::<OpFuture>::empty()
        &&& after.count() == self.count()
        &&& after.state().registered() == self.state().registered()
        &&& after.state().wakeups() == self.state().wakeups()
        &&& after.state().nested_wakeups() == self.state().nested_wakeups()
    }

    /// Drops all ops, those in flight and those in the buffer.
    pub fn shutdown(&mut self)
        requires
            !old(self).state().is_borrowed(),
        ensures
            final(self).wf(),
            old(self).shut_down(final(self)),
    {
        match self.shared.borrow_mut() {
            Some(ops) => clear_ops(ops),
            None => {},
        }
        let _ = self.shared.take_pending();
        proof {
            lemma_nothing_held(self.shared);
        }
    }

    /// Starts a shutdown whose ops may submit to this driver as they are dropped: hands the ops
    /// out, for the caller to drop all of them. Until [`Self::finish_shutdown`] has the empty
    /// collection back, ops that are submitted go to the buffer.
    pub fn begin_shutdown(&mut self) -> (ops: Ops)
        requires
            !old(self).state().is_borrowed(),
        ensures
            old(self).state().futures() == Some(ops),
            final(self).state().is_borrowed(),
            final(self).state().buffer() == old(self).state().buffer(),
            final(self).count() == old(self).count(),
            old(self).wf() ==> final(self).wf(),
    {
        proof {
            broadcast use vstd::seq_lib::group_to_multiset_ensures;

        }
        self.shared.begin_clear()
    }

    /// Finishes a shutdown: puts the collection back, and hands the buffer out, for the caller to
    /// drop it.
    pub fn finish_shutdown(&mut self, ops: Ops) -> (dropped: VecDeque<OpFuture>)
        requires
            old(self).state().is_borrowed(),
        ensures
            dropped@ == old(self).state().pending(),
            final(self).state().futures() == Some(ops),
            final(self).state().pending() == Seq::<OpFuture>::empty(),
            final(self).state().buffer().overtaken() == old(self).state().buffer().overtaken(),
            final(self).state().registered() == old(self).state().registered(),
            final(self).state().wakeups() == old(self).state().wakeups(),
            final(self).state().buffer().nested() == old(self).state().buffer().nested(),
            final(self).state().nested_wakeups() == old(self).state().nested_wakeups(),
            final(self).count() == old(self).count(),
    {
        self.shared.finish_clear(ops)
    }

    /// Lists the ops in flight that `op_exclusions` does not name, in no particular order. Ops
    /// in the buffer are not listed.
    pub fn stats(&self, op_exclusions: &BitSet) -> (stats: OpInflightStats)
        requires
            !self.state().is_borrowed(),
        ensures
            exists|contexts: Seq<PendingOpInfo>| #[trigger]
                lists_contexts(in_flight(self.state()), contexts) && stats.ops@ == not_excluded(
                    contexts,
                    members(*op_exclusions),
                ),
    {
        let contexts = match self.shared.borrow() {
            Some(ops) => op_contexts(ops),
            None => Vec::new(),
        };
        assert(lists_contexts(in_flight(self.state()), contexts@));
        inflight_stats(&contexts, op_exclusions)
    }
}

/// A queue with nothing in the collection and nothing in the buffer holds nothing.
pub(crate) proof fn lemma_nothing_held(queue: Queue<Ops, OpFuture>)
    requires
        in_flight(queue) == Multiset::<OpFuture>::empty(),
        queue.pending() == Seq::<OpFuture>::empty(),
    ensures
        held(queue) == Multiset::<OpFuture>::empty(),
{
    broadcast use vstd::seq_lib::group_to_multiset_ensures;

    assert(held(queue) =~= Multiset::<OpFuture>::empty());
}

/// Ops reach no queue from inside the set, so a poll leaves the buffer empty.
pub(crate) proof fn lemma_poll_buffers_nothing(
    before: Queue<Ops, OpFuture>,
    after: Queue<Ops, OpFuture>,
    task: int,
    r: Poll<PendingOp>,
)
    requires
        !before.is_borrowed(),
        polled(before, after, task, r),
    ensures
        !after.is_borrowed(),
        after.pending() == Seq::<OpFuture>::empty(),
{
    let lent = choose|lent: Ops| #[trigger] polled_through(before, after, task, lent, r);
    assert(polled_through(before, after, task, lent, r));
    assert(after.pending() =~= Seq::<OpFuture>::empty());
}

/// What a poll of the ops found is delivered: a completed op no longer counts, and is delivered
/// under its promise and its op.
pub open spec fn delivers(
    before: FuturesUnorderedDriver,
    after: FuturesUnorderedDriver,
    polled: Poll<PendingOp>,
    delivered: Poll<(PromiseId, OpId, OpResult)>,
) -> bool {
    match polled {
        Poll::Ready(op) => {
            &&& after.count() == before.count() - 1
            &&& delivered == Poll::Ready((op.0.0, op.0.1, op.1))
        },
        Poll::Pending => {
            &&& after.count() == before.count()
            &&& delivered == Poll::<(PromiseId, OpId, OpResult)>::Pending
        },
    }
}

/// A poll for a value, as a poll for a result.
pub open spec fn value_polled(polled: Poll<OpValue>) -> Poll<OpResult> {
    match polled {
        Poll::Ready(value) => Poll::Ready(Ok(value)),
        Poll::Pending => Poll::Pending,
    }
}

/// What becomes of an op that cannot fail, as of one that can.
pub open spec fn value_settled(r: Settled<OpValue>) -> Settled<OpResult> {
    match r {
        Settled::Launch(task) => Settled::Launch(task),
        Settled::Return(value) => Settled::Return(Ok(value)),
    }
}

/// A returned value, as a returned result.
pub open spec fn value_returned(returned: Option<OpValue>) -> Option<OpResult> {
    match returned {
        Some(value) => Some(Ok(value)),
        None => None,
    }
}

} // verus!
