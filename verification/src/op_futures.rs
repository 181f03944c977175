//! Ops in flight, kept in the `FuturesUnordered` of the `futures` crate.
use core::future::Future;
use core::pin::Pin;
use core::task::Context;
use core::task::Poll;

use futures::future::FutureExt;
use futures::stream::FuturesUnordered;
use futures::stream::Stream;
use futures::task::noop_waker_ref;
use futures::task::LocalFutureObj;
use vstd::multiset::Multiset;
use vstd::prelude::*;

use crate::op_results::OpResult;
use crate::op_results::OpValue;
use crate::op_results::PendingOp;
use crate::op_results::PendingOpInfo;
use crate::submission_queue::lemma_nothing_reentered;
use crate::submission_queue::Buffer;
use crate::submission_queue::CollectionCall;
use crate::submission_queue::Reentry;
use crate::submission_queue::SubmissionQueueFutures;
use crate::waker::context_task;

verus! {

/// `core::pin::Pin`, the receiver of `Future::poll`.
#[verifier::external_type_specification]
#[verifier::external_body]
#[verifier::reject_recursive_types(Ptr)]
pub struct ExPin<Ptr>(Pin<Ptr>);

/// A boxed future of the `futures` crate.
#[verifier::external_type_specification]
#[verifier::external_body]
#[verifier::reject_recursive_types(T)]
pub struct ExLocalFutureObj<'a, T>(LocalFutureObj<'a, T>);

/// The set of futures of the `futures` crate.
#[verifier::external_type_specification]
#[verifier::external_body]
#[verifier::reject_recursive_types(Fut)]
pub struct ExFuturesUnordered<Fut>(FuturesUnordered<Fut>);

/// The work of an op in flight.
pub enum OpWork {
    /// Work that can fail.
    Fallible(LocalFutureObj<'static, OpResult>),
    /// Work that cannot fail.
    Infallible(LocalFutureObj<'static, OpValue>),
    /// Work that is done, with what it came to until that is handed out.
    Done(Option<OpResult>),
}

/// An op in flight.
pub struct OpFuture {
    pub info: PendingOpInfo,
    pub work: OpWork,
}

/// Calls `FutureExt::poll_unpin`, which polls `work` once in the context `cx`, and hands the work
/// back. What comes back is up to the work, and nothing is claimed of it.
#[verifier::external_body]
fn poll_work<T>(work: LocalFutureObj<'static, T>, cx: &mut Context<'_>) -> (r: (
    Poll<T>,
    LocalFutureObj<'static, T>,
)) {
    let mut work = work;
    let polled = work.poll_unpin(cx);
    (polled, work)
}

/// Calls `Context::from_waker` on the waker of `noop_waker_ref`, which wakes nothing.
#[verifier::external_body]
fn noop_context() -> (cx: Context<'static>) {
    Context::from_waker(noop_waker_ref())
}

/// Polling `before` once by `FutureExt::poll_unpin` in the context `cx` can return `polled` and
/// leave `after`.
pub closed spec fn work_polled<T>(
    before: LocalFutureObj<'static, T>,
    cx: Context<'_>,
    after: LocalFutureObj<'static, T>,
    polled: Poll<T>,
) -> bool {
    exists|c: &mut Context<'_>| #[trigger]
        call_ensures(poll_work::<T>, (before, c), (polled, after)) && *c == cx
}

/// Polling `before` once in a context whose waker wakes nothing can return `polled` and leave
/// `after`.
pub closed spec fn work_first_polled<T>(
    before: LocalFutureObj<'static, T>,
    after: LocalFutureObj<'static, T>,
    polled: Poll<T>,
) -> bool {
    exists|cx: Context<'static>| #[trigger]
        call_ensures(noop_context, (), cx) && work_polled(before, cx, after, polled)
}

/// One poll of work is one call of `FutureExt::poll_unpin`, on that work and in that context, and
/// the first poll is one such call in a context whose waker wakes nothing. Neither is anything else.
proof fn law_work_is_polled_once<T>(
    before: LocalFutureObj<'static, T>,
    cx: Context<'_>,
    after: LocalFutureObj<'static, T>,
    polled: Poll<T>,
)
    ensures
        work_polled(before, cx, after, polled) <==> exists|c: &mut Context<'_>| #[trigger]
            call_ensures(poll_work::<T>, (before, c), (polled, after)) && *c == cx,
        work_first_polled(before, after, polled) <==> exists|made: Context<'static>|
            call_ensures(noop_context, (), made) && #[trigger] work_polled(
                before,
                made,
                after,
                polled,
            ),
        forall|c: &mut Context<'_>| #[trigger]
            call_ensures(poll_in::<T>, (before, c), (polled, after)) ==> work_polled(
                before,
                *c,
                after,
                polled,
            ),
        call_ensures(poll_first::<T>, (before,), (polled, after)) ==> work_first_polled(
            before,
            after,
            polled,
        ),
{
}

/// Polling `work` can come to `output` after `pending` polls that are pending.
pub open spec fn comes_to<T>(work: LocalFutureObj<'static, T>, pending: nat, output: T) -> bool
    decreases pending,
{
    if pending == 0 {
        exists|cx: Context<'_>, rest: LocalFutureObj<'static, T>| #[trigger]
            work_polled(work, cx, rest, Poll::Ready(output))
    } else {
        exists|cx: Context<'_>, rest: LocalFutureObj<'static, T>| #[trigger]
            work_polled(work, cx, rest, Poll::Pending) && comes_to(
                rest,
                (pending - 1) as nat,
                output,
            )
    }
}

/// Polls `work` once in the context `cx`.
fn poll_in<T>(work: LocalFutureObj<'static, T>, cx: &mut Context<'_>) -> (r: (
    Poll<T>,
    LocalFutureObj<'static, T>,
))
    ensures
        work_polled(work, *old(cx), r.1, r.0),
{
    poll_work(work, cx)
}

/// Polls `work` once, in a context whose waker wakes nothing.
pub(crate) fn poll_first<T>(work: LocalFutureObj<'static, T>) -> (r: (
    Poll<T>,
    LocalFutureObj<'static, T>,
))
    ensures
        work_first_polled(work, r.1, r.0),
{
    let mut cx = noop_context();
    let ghost made = cx;
    let r = poll_in(work, &mut cx);
    assert(call_ensures(noop_context, (), made) && work_polled(work, made, r.1, r.0));
    r
}

/// The first poll of work is one of the polls by which it comes to its output.
pub(crate) proof fn lemma_first_poll_is_a_poll<T>(
    before: LocalFutureObj<'static, T>,
    after: LocalFutureObj<'static, T>,
    polled: Poll<T>,
)
    requires
        work_first_polled(before, after, polled),
    ensures
        polled matches Poll::Ready(output) ==> comes_to(before, 0, output),
        polled is Pending ==> forall|pending: nat, output: T| #[trigger]
            comes_to(after, pending, output) ==> comes_to(before, pending + 1, output),
{
    let cx = choose|cx: Context<'static>| #[trigger]
        call_ensures(noop_context, (), cx) && work_polled(before, cx, after, polled);
    assert(work_polled(before, cx, after, polled));
}

impl OpFuture {
    /// Whether the work is done and its result has not been handed out.
    pub open spec fn is_done(self) -> bool {
        self.work matches OpWork::Done(Some(_))
    }

    /// Whether `op` can be what `self` completes with. The op keeps its info, its result is what
    /// polling the work comes to, and work that is done comes to what it was done with.
    pub open spec fn yields(self, op: PendingOp) -> bool {
        &&& op.0 == self.info
        &&& match self.work {
            OpWork::Fallible(work) => exists|pending: nat| #[trigger]
                comes_to(work, pending, op.1),
            OpWork::Infallible(work) => op.1 matches Ok(value) && exists|pending: nat| #[trigger]
                comes_to(work, pending, value),
            OpWork::Done(result) => result == Some(op.1),
        }
    }

    /// Polling the op once in the context `cx` turns `self` into `after` and returns `polled`: the
    /// work is polled once, and what it gives completes the op. Work that was done already
    /// completes the op without a poll. Once the op has completed the work is gone, and the op
    /// stays pending.
    pub open spec fn advanced(
        self,
        cx: Context<'_>,
        after: OpFuture,
        polled: Poll<PendingOp>,
    ) -> bool {
        &&& after.info == self.info
        &&& polled matches Poll::Ready(op) ==> op.0 == self.info && after.work == OpWork::Done(None)
        &&& match self.work {
            OpWork::Fallible(work) => match polled {
                Poll::Ready(op) => exists|rest: LocalFutureObj<'static, OpResult>| #[trigger]
                    work_polled(work, cx, rest, Poll::Ready(op.1)),
                Poll::Pending => {
                    &&& after.work matches OpWork::Fallible(rest)
                    &&& work_polled(work, cx, rest, Poll::Pending)
                },
            },
            OpWork::Infallible(work) => match polled {
                Poll::Ready(op) => op.1 matches Ok(value) && exists|
                    rest: LocalFutureObj<'static, OpValue>,
                | #[trigger] work_polled(work, cx, rest, Poll::Ready(value)),
                Poll::Pending => {
                    &&& after.work matches OpWork::Infallible(rest)
                    &&& work_polled(work, cx, rest, Poll::Pending)
                },
            },
            OpWork::Done(Some(result)) => polled == Poll::Ready(PendingOp(self.info, result)),
            OpWork::Done(None) => polled is Pending && after == self,
        }
    }

    /// What is known of the op before it completes.
    pub fn context(&self) -> (info: PendingOpInfo)
        ensures
            info == self.info,
    {
        self.info
    }

    /// Polls the op once.
    pub fn advance(&mut self, cx: &mut Context<'_>) -> (polled: Poll<PendingOp>)
        ensures
            old(self).advanced(*old(cx), *final(self), polled),
    {
        let mut work = OpWork::Done(None);
        core::mem::swap(&mut work, &mut self.work);
        match work {
            OpWork::Fallible(work) => {
                let (polled, rest) = poll_in(work, cx);
                match polled {
                    Poll::Ready(result) => Poll::Ready(PendingOp(self.info, result)),
                    Poll::Pending => {
                        self.work = OpWork::Fallible(rest);
                        Poll::Pending
                    },
                }
            },
            OpWork::Infallible(work) => {
                let ghost before = work;
                let (polled, rest) = poll_in(work, cx);
                match polled {
                    Poll::Ready(value) => {
                        let op = PendingOp(self.info, Ok(value));
                        assert(work_polled(before, *old(cx), rest, Poll::Ready(op.1->Ok_0)));
                        Poll::Ready(op)
                    },
                    Poll::Pending => {
                        self.work = OpWork::Infallible(rest);
                        Poll::Pending
                    },
                }
            },
            OpWork::Done(Some(result)) => Poll::Ready(PendingOp(self.info, result)),
            OpWork::Done(None) => Poll::Pending,
        }
    }
}

/// The reference that a `Pin` holds (`Pin::get_mut`).
pub uninterp spec fn pinned(op: Pin<&mut OpFuture>) -> &mut OpFuture;

/// Calls `Pin::get_mut`, which hands out the reference that a `Pin` holds.
#[verifier::external_body]
fn unpinned<'a>(op: Pin<&'a mut OpFuture>) -> (reference: &'a mut OpFuture)
    ensures
        reference == pinned(op),
{
    op.get_mut()
}

impl Future for OpFuture {
    type Output = PendingOp;

    /// Takes the op out of its pin and polls it by [`OpFuture::advance`].
    fn poll(self: Pin<&mut Self>, cx: &mut Context<'_>) -> (polled: Poll<PendingOp>)
        ensures
            pinned(self).advanced(*old(cx), *final(pinned(self)), polled),
    {
        unpinned(self).advance(cx)
    }
}

/// The futures in a `FuturesUnordered`, as they were when pushed.
pub uninterp spec fn ops_in_flight(ops: FuturesUnordered<OpFuture>) -> Multiset<OpFuture>;

/// The calls of `push` and `poll_next` on a `FuturesUnordered` since it was made or cleared, oldest
/// first.
pub uninterp spec fn ops_history(ops: FuturesUnordered<OpFuture>) -> Seq<CollectionCall<OpFuture>>;

/// Whether every future that `calls` put into a set was done already, with its result at hand.
pub open spec fn only_done(calls: Seq<CollectionCall<OpFuture>>) -> bool {
    forall|i: int|
        0 <= i < calls.len() ==> (#[trigger] calls[i] matches CollectionCall::Spawn(op)
            ==> op.is_done())
}

/// Calls `FuturesUnordered::new`, which makes an empty set.
#[verifier::external_body]
fn no_ops() -> (ops: FuturesUnordered<OpFuture>)
    ensures
        ops_in_flight(ops) == Multiset::<OpFuture>::empty(),
        ops_history(ops) == Seq::<CollectionCall<OpFuture>>::empty(),
{
    FuturesUnordered::new()
}

/// Calls `FuturesUnordered::len`, which counts the futures in the set.
#[verifier::external_body]
fn count_ops(ops: &FuturesUnordered<OpFuture>) -> (n: usize)
    ensures
        n == ops_in_flight(*ops).len(),
{
    ops.len()
}

/// Calls `FuturesUnordered::push`, which adds one future to the set and does not poll it.
#[verifier::external_body]
fn push_op(ops: &mut FuturesUnordered<OpFuture>, op: OpFuture)
    ensures
        ops_in_flight(*final(ops)) == ops_in_flight(*old(ops)).insert(op),
        ops_history(*final(ops)) == ops_history(*old(ops)).push(CollectionCall::Spawn(op)),
{
    ops.push(op)
}

/// Calls `FuturesUnordered::poll_next`, which polls futures of the set that are due. When one of
/// them completes, it leaves the set and its output is returned; which one that is, the futures
/// decide. Otherwise the set keeps all its futures. That the stream has ended is returned only
/// of an empty set. A future is polled by its `poll`, so what it completes with is what some
/// number of polls come to. A panic in a future is passed on.
///
/// A future is due from the moment it is pushed until it is polled. So a set that never held other
/// futures than such as complete when they are first polled, and holds some, returns the output of
/// one. Of other sets it is left unsaid when a future completes: a future that was polled before
/// is due only once its waker was woken, and a wake that another thread is in the midst of puts
/// the poll off.
#[verifier::external_body]
fn poll_ops(ops: &mut FuturesUnordered<OpFuture>, cx: &mut Context<'_>) -> (polled: Poll<
    Option<PendingOp>,
>)
    ensures
        match polled {
            Poll::Ready(Some(op)) => exists|f: OpFuture| #[trigger]
                ops_in_flight(*old(ops)).contains(f) && f.yields(op) && ops_in_flight(*final(ops))
                    == ops_in_flight(*old(ops)).remove(f),
            Poll::Ready(None) => ops_in_flight(*old(ops)).len() == 0 && ops_in_flight(*final(ops))
                == ops_in_flight(*old(ops)),
            Poll::Pending => ops_in_flight(*final(ops)) == ops_in_flight(*old(ops)),
        },
        ops_in_flight(*old(ops)).len() > 0 && only_done(ops_history(*old(ops))) ==> polled is Ready,
        ops_history(*final(ops)) == ops_history(*old(ops)).push(
            CollectionCall::Poll(context_task(*old(cx))),
        ),
{
    Pin::new(ops).poll_next(cx)
}

/// Calls `FuturesUnordered::clear`, which drops all futures of the set and leaves one as
/// `FuturesUnordered::new` makes it. No future is polled.
#[verifier::external_body]
pub(crate) fn clear_ops(ops: &mut FuturesUnordered<OpFuture>)
    ensures
        ops_in_flight(*final(ops)) == Multiset::<OpFuture>::empty(),
        ops_history(*final(ops)) == Seq::<CollectionCall<OpFuture>>::empty(),
{
    ops.clear()
}

/// Calls `FuturesUnordered::iter` and takes the context of each future it hands out. It hands out
/// every future of the set once, in an order of which nothing is claimed.
#[verifier::external_body]
pub(crate) fn op_contexts(ops: &FuturesUnordered<OpFuture>) -> (contexts: Vec<PendingOpInfo>)
    ensures
        lists_contexts(ops_in_flight(*ops), contexts@),
{
    ops.iter().map(|op| op.context()).collect()
}

/// `contexts` lists the contexts of the futures `ops` in some order.
pub open spec fn lists_contexts(ops: Multiset<OpFuture>, contexts: Seq<PendingOpInfo>) -> bool {
    exists|order: Seq<OpFuture>| #[trigger]
        order.to_multiset() == ops && contexts == order.map_values(|op: OpFuture| op.info)
}

impl SubmissionQueueFutures for FuturesUnordered<OpFuture> {
    type Future = OpFuture;

    type Output = PendingOp;

    open spec fn in_flight(&self) -> Multiset<OpFuture> {
        ops_in_flight(*self)
    }

    open spec fn yields(f: OpFuture, out: PendingOp) -> bool {
        f.yields(out)
    }

    open spec fn due(&self) -> bool {
        ops_in_flight(*self).len() > 0 && only_done(ops_history(*self))
    }

    open spec fn history(&self) -> Seq<CollectionCall<OpFuture>> {
        ops_history(*self)
    }

    open spec fn reentries(&self) -> Seq<Reentry<OpFuture>> {
        Seq::empty()
    }

    fn default() -> (futures: Self) {
        no_ops()
    }

    fn len(&self) -> (n: usize) {
        count_ops(self)
    }

    fn spawn(&mut self, f: OpFuture, owner: &mut Buffer<OpFuture>) {
        push_op(self, f);
        proof {
            lemma_nothing_reentered(owner);
            assert(Seq::<Reentry<OpFuture>>::empty().skip(0) =~= Seq::empty());
        }
    }

    fn poll_next_unpin(&mut self, cx: &mut Context<'_>, owner: &mut Buffer<OpFuture>) -> (polled:
        Poll<PendingOp>) {
        proof {
            lemma_nothing_reentered(owner);
            assert(Seq::<Reentry<OpFuture>>::empty().skip(0) =~= Seq::empty());
        }
        match poll_ops(self, cx) {
            Poll::Ready(Some(op)) => Poll::Ready(op),
            Poll::Ready(None) | Poll::Pending => Poll::Pending,
        }
    }
}

} // verus!
