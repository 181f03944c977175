//! What each call on a driver does, told by what goes into the call and what comes out of it.
use core::task::Context;
use core::task::Poll;
use std::collections::VecDeque;

use bit_set::BitSet;
use futures::task::LocalFutureObj;
use vstd::multiset::Multiset;
use vstd::prelude::*;

use crate::driver::after_first_poll;
use crate::driver::inflight_stats;
use crate::driver::lemma_poll_buffers_nothing;
use crate::driver::members;
use crate::driver::not_excluded;
use crate::driver::settle_fallible;
use crate::driver::settle_infallible;
use crate::driver::FirstPoll;
use crate::driver::FuturesUnorderedDriver;
use crate::driver::OpInflightStats;
use crate::driver::Ops;
use crate::driver::Settled;
use crate::driver_history::lemma_filter_count;
use crate::op_futures::lists_contexts;
use crate::op_futures::ops_history;
use crate::op_futures::ops_in_flight;
use crate::op_futures::work_first_polled;
use crate::op_futures::OpFuture;
use crate::op_futures::OpWork;
use crate::op_results::OpId;
use crate::op_results::OpResult;
use crate::op_results::OpValue;
use crate::op_results::PendingOp;
use crate::op_results::PendingOpInfo;
use crate::op_results::PromiseId;
use crate::submission_queue::held;
use crate::submission_queue::in_flight;
use crate::submission_queue::polled_through;
use crate::submission_queue::spawns;
use crate::submission_queue::Buffer;
use crate::submission_queue::CollectionCall;
use crate::submission_queue::SubmissionQueueFutures;
use crate::waker::context_task;

verus! {

/// After a first poll that is pending the op is kept, whether or not it is deferred. A result goes
/// to the caller unless the op is deferred, and goes in flight if it is.
pub proof fn law_first_poll_decides<R, const DEFERRED: bool>(first: Poll<R>, todo: FirstPoll<R>)
    requires
        call_ensures(after_first_poll::<R, DEFERRED>, (first,), todo),
    ensures
        todo is Spawn <==> first is Pending,
        todo is Return <==> first is Ready && !DEFERRED,
        todo is SpawnDone <==> first is Ready && DEFERRED,
        todo matches FirstPoll::Return(result) ==> first == Poll::Ready(result),
        todo matches FirstPoll::SpawnDone(result) ==> first == Poll::Ready(result),
{
}

/// An op that can fail and is not done at its first poll goes in flight with just the work that
/// the poll left, whether or not it is deferred. The result of one that is done is returned as it
/// is, or, if the op is deferred, goes in flight as it is. Whatever goes in flight keeps the
/// promise and the op.
pub proof fn law_settle_fallible<const DEFERRED: bool>(
    info: PendingOpInfo,
    first: Poll<OpResult>,
    op: LocalFutureObj<'static, OpResult>,
    r: Settled<OpResult>,
)
    requires
        call_ensures(settle_fallible::<DEFERRED>, (info, first, op), r),
    ensures
        match first {
            Poll::Pending => r == Settled::<OpResult>::Launch(
                OpFuture { info, work: OpWork::Fallible(op) },
            ),
            Poll::Ready(result) => if DEFERRED {
                r == Settled::<OpResult>::Launch(
                    OpFuture { info, work: OpWork::Done(Some(result)) },
                )
            } else {
                r == Settled::Return(result)
            },
        },
{
}

/// The same of an op that cannot fail.
pub proof fn law_settle_infallible<const DEFERRED: bool>(
    info: PendingOpInfo,
    first: Poll<OpValue>,
    op: LocalFutureObj<'static, OpValue>,
    r: Settled<OpValue>,
)
    requires
        call_ensures(settle_infallible::<DEFERRED>, (info, first, op), r),
    ensures
        match first {
            Poll::Pending => r == Settled::<OpValue>::Launch(
                OpFuture { info, work: OpWork::Infallible(op) },
            ),
            Poll::Ready(value) => if DEFERRED {
                r == Settled::<OpValue>::Launch(
                    OpFuture { info, work: OpWork::Done(Some(Ok(value))) },
                )
            } else {
                r == Settled::Return(value)
            },
        },
{
}

/// Putting an op in flight adds that op to the set, or, while the set is out, to the end of the
/// buffer. The driver is longer by one, and the task that polled last is woken.
pub proof fn law_launch_in_full(
    before: FuturesUnorderedDriver,
    after: FuturesUnorderedDriver,
    task: OpFuture,
)
    requires
        before.launched(&after, task),
    ensures
        after.count() == before.count() + 1,
        match before.state().futures() {
            Some(ops) => {
                &&& after.state().futures() matches Some(ops_after)
                &&& ops_in_flight(ops_after) == ops_in_flight(ops).insert(task)
                &&& ops_history(ops_after) == ops_history(ops).push(CollectionCall::Spawn(task))
                &&& after.state().pending() == before.state().pending()
            },
            None => {
                &&& after.state().futures() is None
                &&& after.state().pending() == before.state().pending().push(task)
            },
        },
        after.state().registered() == before.state().registered(),
        match before.state().registered() {
            Some(waiting) => after.state().wakeups() == before.state().wakeups().push(waiting),
            None => after.state().wakeups() == before.state().wakeups(),
        },
        after.state().nested_wakeups() == before.state().nested_wakeups(),
{
    if !before.state().is_borrowed() {
        assert(after.state().pending() =~= before.state().pending());
        assert(before.state().wakeups() + Seq::<int>::empty() =~= before.state().wakeups());
    }
}

/// A submission polls the work at most once: not at all if it is lazy, and else once, by a waker
/// that wakes nothing. What then goes in flight is the work itself, the work that the poll left, or
/// the result that the poll gave. A result that is returned is the one that the poll gave, and the
/// driver is left as it was.
pub proof fn law_submit_fallible<const LAZY: bool, const DEFERRED: bool>()
    ensures
        forall|
            driver: &mut FuturesUnorderedDriver,
            op_id: OpId,
            promise_id: PromiseId,
            op: LocalFutureObj<'static, OpResult>,
            returned: Option<OpResult>,
        | #[trigger]
            call_ensures(
                FuturesUnorderedDriver::submit_op_fallible::<LAZY, DEFERRED>,
                (driver, op_id, promise_id, op),
                returned,
            ) ==> {
                let info = PendingOpInfo(promise_id, op_id);
                if LAZY {
                    returned is None && driver.launched(
                        final(driver),
                        OpFuture { info, work: OpWork::Fallible(op) },
                    )
                } else {
                    exists|first: Poll<OpResult>, rest: LocalFutureObj<'static, OpResult>|
                        #[trigger] work_first_polled(op, rest, first) && match first {
                            Poll::Pending => returned is None && driver.launched(
                                final(driver),
                                OpFuture { info, work: OpWork::Fallible(rest) },
                            ),
                            Poll::Ready(result) => if DEFERRED {
                                returned is None && driver.launched(
                                    final(driver),
                                    OpFuture { info, work: OpWork::Done(Some(result)) },
                                )
                            } else {
                                returned == Some(result) && *final(driver) == *driver
                            },
                        }
                }
            },
{
}

/// The same of an op that cannot fail.
pub proof fn law_submit_infallible<const LAZY: bool, const DEFERRED: bool>()
    ensures
        forall|
            driver: &mut FuturesUnorderedDriver,
            op_id: OpId,
            promise_id: PromiseId,
            op: LocalFutureObj<'static, OpValue>,
            returned: Option<OpValue>,
        | #[trigger]
            call_ensures(
                FuturesUnorderedDriver::submit_op_infallible::<LAZY, DEFERRED>,
                (driver, op_id, promise_id, op),
                returned,
            ) ==> {
                let info = PendingOpInfo(promise_id, op_id);
                if LAZY {
                    returned is None && driver.launched(
                        final(driver),
                        OpFuture { info, work: OpWork::Infallible(op) },
                    )
                } else {
                    exists|first: Poll<OpValue>, rest: LocalFutureObj<'static, OpValue>|
                        #[trigger] work_first_polled(op, rest, first) && match first {
                            Poll::Pending => returned is None && driver.launched(
                                final(driver),
                                OpFuture { info, work: OpWork::Infallible(rest) },
                            ),
                            Poll::Ready(value) => if DEFERRED {
                                returned is None && driver.launched(
                                    final(driver),
                                    OpFuture { info, work: OpWork::Done(Some(Ok(value))) },
                                )
                            } else {
                                returned == Some(value) && *final(driver) == *driver
                            },
                        }
                }
            },
{
}

/// A poll of a driver whose ops are out is pending and changes nothing but who is woken. Any other
/// puts the buffer into the set, in order, and polls the set once, unless it is empty. It delivers
/// one of the ops that were there, under its own promise and op and with what it yields, and takes
/// just that one away; or it delivers none and takes none away.
pub proof fn law_poll_ready_in_full(
    before: FuturesUnorderedDriver,
    after: FuturesUnorderedDriver,
    task: int,
    r: Poll<(PromiseId, OpId, OpResult)>,
)
    requires
        before.readied(&after, task, r),
    ensures
        after.state().registered() == Some(task),
        after.state().wakeups() == before.state().wakeups(),
        after.state().nested_wakeups() == before.state().nested_wakeups(),
        match before.state().futures() {
            None => {
                &&& r == Poll::<(PromiseId, OpId, OpResult)>::Pending
                &&& after.state().futures() is None
                &&& after.state().pending() == before.state().pending()
                &&& after.count() == before.count()
            },
            Some(ops) => {
                let all = ops_in_flight(ops).add(before.state().pending().to_multiset());
                let fed = ops_history(ops) + before.state().pending().map_values(
                    |f: OpFuture| CollectionCall::Spawn(f),
                );
                &&& after.state().futures() matches Some(ops_after)
                &&& after.state().pending() == Seq::<OpFuture>::empty()
                &&& ops_history(ops_after) == if all.len() > 0 {
                    fed.push(CollectionCall::Poll(task))
                } else {
                    fed
                }
                &&& match r {
                    Poll::Ready((promise_id, op_id, result)) => {
                        &&& after.count() == before.count() - 1
                        &&& exists|f: OpFuture| #[trigger]
                            all.contains(f) && f.info == PendingOpInfo(promise_id, op_id)
                                && f.yields(PendingOp(f.info, result)) && ops_in_flight(ops_after)
                                == all.remove(f)
                    },
                    Poll::Pending => {
                        &&& after.count() == before.count()
                        &&& ops_in_flight(ops_after) == all
                    },
                }
            },
        },
{
    let found: Poll<PendingOp> = match r {
        Poll::Ready((promise_id, op_id, result)) => Poll::Ready(
            PendingOp(PendingOpInfo(promise_id, op_id), result),
        ),
        Poll::Pending => Poll::Pending,
    };
    if !before.state().is_borrowed() {
        let lent = choose|lent: Ops| #[trigger]
            polled_through(before.state(), after.state(), task, lent, found);
        assert(polled_through(before.state(), after.state(), task, lent, found));
        lemma_poll_buffers_nothing(before.state(), after.state(), task, found);
        assert(before.state().wakeups() + Seq::<int>::empty() + Seq::<int>::empty()
            =~= before.state().wakeups());
        assert(after.state().wakeups() =~= before.state().wakeups());
        assert(spawns(before.state().pending()) =~= before.state().pending().map_values(
            |f: OpFuture| CollectionCall::Spawn(f),
        ));
        if let Poll::Ready(op) = found {
            let all = ops_in_flight(before.state().futures()->0).add(
                before.state().pending().to_multiset(),
            );
            let f = choose|f: OpFuture| #[trigger]
                held(before.state()).contains(f) && f.yields(op) && in_flight(after.state())
                    == held(before.state()).remove(f);
            assert(all.contains(f) && f.info == op.0);
        }
    }
}

/// A poll delivers what the poll of the set gave, as it is: the promise, the op and the result of
/// the op that completed, or nothing.
pub proof fn law_poll_ready()
    ensures
        forall|
            driver: &mut FuturesUnorderedDriver,
            cx: &mut Context<'_>,
            r: Poll<(PromiseId, OpId, OpResult)>,
        | #[trigger]
            call_ensures(FuturesUnorderedDriver::poll_ready, (driver, cx), r) ==> {
                &&& driver.readied(final(driver), context_task(*cx), r)
                &&& !driver.state().is_borrowed() && ops_in_flight(driver.state().futures()->0).add(
                    driver.state().pending().to_multiset(),
                ).len() > 0 ==> exists|
                    lent: &mut Ops,
                    c: &mut Context<'_>,
                    owner: &mut Buffer<OpFuture>,
                    found: Poll<PendingOp>,
                | #[trigger]
                    call_ensures(Ops::poll_next_unpin, (lent, c, owner), found) && *c == *cx
                        && ops_in_flight(*lent) == ops_in_flight(
                        driver.state().futures()->0,
                    ).add(driver.state().pending().to_multiset()) && final(driver).state().futures()
                        == Some(*final(lent)) && match found {
                        Poll::Ready(PendingOp(PendingOpInfo(promise_id, op_id), result)) => {
                            &&& r == Poll::Ready((promise_id, op_id, result))
                            &&& final(driver).count() == driver.count() - 1
                        },
                        Poll::Pending => {
                            &&& r == Poll::<(PromiseId, OpId, OpResult)>::Pending
                            &&& final(driver).count() == driver.count()
                        },
                    }
            },
{
}

/// Delivering a result hands it on as it is, and shortens the driver by one. Delivering nothing
/// changes nothing.
pub proof fn law_deliver()
    ensures
        forall|
            driver: &mut FuturesUnorderedDriver,
            found: Poll<PendingOp>,
            r: Poll<(PromiseId, OpId, OpResult)>,
        | #[trigger]
            call_ensures(FuturesUnorderedDriver::deliver, (driver, found), r) ==> {
                &&& final(driver).state() == driver.state()
                &&& match found {
                    Poll::Ready(PendingOp(PendingOpInfo(promise_id, op_id), result)) => {
                        &&& r == Poll::Ready((promise_id, op_id, result))
                        &&& final(driver).count() == driver.count() - 1
                    },
                    Poll::Pending => {
                        &&& r == Poll::<(PromiseId, OpId, OpResult)>::Pending
                        &&& final(driver).count() == driver.count()
                    },
                }
            },
{
}

/// A new driver is empty and in one piece, has length zero, and wakes nobody.
pub proof fn law_default(driver: FuturesUnorderedDriver)
    requires
        call_ensures(FuturesUnorderedDriver::default, (), driver),
    ensures
        driver.count() == 0,
        driver.state().futures() matches Some(ops) && ops_in_flight(ops).len() == 0 && ops_history(
            ops,
        ).len() == 0,
        driver.state().pending().len() == 0,
        driver.state().registered() is None,
        driver.state().wakeups().len() == 0,
        driver.state().nested_wakeups().len() == 0,
{
    broadcast use vstd::seq_lib::group_to_multiset_ensures;

    assert(held(driver.state()).len() == in_flight(driver.state()).len()
        + driver.state().pending().to_multiset().len());
}

/// Putting an op in flight is what [`law_launch_in_full`] says, and the length is how many ops were
/// put in flight and not delivered.
pub proof fn law_spawn_and_len()
    ensures
        forall|driver: &mut FuturesUnorderedDriver, task: OpFuture| #[trigger]
            call_ensures(FuturesUnorderedDriver::spawn, (driver, task), ()) ==> driver.launched(
                final(driver),
                task,
            ),
        forall|driver: FuturesUnorderedDriver, n: usize| #[trigger]
            call_ensures(FuturesUnorderedDriver::len, (&driver,), n) ==> n == driver.count(),
        forall|driver: FuturesUnorderedDriver, polling: bool| #[trigger]
            call_ensures(FuturesUnorderedDriver::is_polling, (&driver,), polling) ==> polling == (
            driver.state().futures() is None),
{
}

/// Starting a poll hands the set out with the buffer put into it, if there is anything in it, and
/// changes neither the length nor the ops.
pub proof fn law_begin_poll_ready()
    ensures
        forall|driver: &mut FuturesUnorderedDriver, cx: Context<'_>, lent: Option<Ops>| #[trigger]
            call_ensures(FuturesUnorderedDriver::begin_poll_ready, (driver, &cx), lent) ==> {
                let all = ops_in_flight(driver.state().futures()->0).add(
                    driver.state().pending().to_multiset(),
                );
                let fed = ops_history(driver.state().futures()->0)
                    + driver.state().pending().map_values(
                    |f: OpFuture| CollectionCall::Spawn(f),
                );
                &&& final(driver).count() == driver.count()
                &&& final(driver).state().registered() == Some(context_task(cx))
                &&& final(driver).state().wakeups() == driver.state().wakeups()
                &&& final(driver).state().nested_wakeups() == driver.state().nested_wakeups()
                &&& match (driver.state().futures(), lent) {
                    (None, lent) => {
                        &&& lent is None
                        &&& final(driver).state().futures() is None
                        &&& final(driver).state().pending() == driver.state().pending()
                    },
                    (Some(_), Some(ops)) => {
                        &&& all.len() > 0
                        &&& ops_in_flight(ops) == all
                        &&& ops_history(ops) == fed
                        &&& final(driver).state().futures() is None
                        &&& final(driver).state().pending().len() == 0
                    },
                    (Some(_), None) => {
                        &&& all.len() == 0
                        &&& !final(driver).state().is_borrowed()
                        &&& ops_in_flight(final(driver).state().futures()->0) == all
                        &&& final(driver).state().pending().len() == 0
                    },
                }
            },
{
}

/// Finishing a poll puts the set back as it is given, keeps the buffer, and delivers what was found
/// as it is. A task that polled meanwhile is woken just if something was found.
pub proof fn law_finish_poll_ready()
    ensures
        forall|
            driver: &mut FuturesUnorderedDriver,
            ops: Ops,
            found: Poll<PendingOp>,
            r: Poll<(PromiseId, OpId, OpResult)>,
        | #[trigger]
            call_ensures(FuturesUnorderedDriver::finish_poll_ready, (driver, ops, found), r) ==> {
                let before = driver.state().buffer();
                &&& final(driver).state().futures() == Some(ops)
                &&& final(driver).state().pending() == driver.state().pending()
                &&& final(driver).state().registered() == driver.state().registered()
                &&& final(driver).state().wakeups() == driver.state().wakeups()
                &&& match (before.overtaken() && found is Ready, before.nested()) {
                    (true, Some(nested)) => final(driver).state().nested_wakeups()
                        == driver.state().nested_wakeups().push(nested),
                    _ => final(driver).state().nested_wakeups() == driver.state().nested_wakeups(),
                }
                &&& match found {
                    Poll::Ready(PendingOp(PendingOpInfo(promise_id, op_id), result)) => {
                        &&& r == Poll::Ready((promise_id, op_id, result))
                        &&& final(driver).count() == driver.count() - 1
                    },
                    Poll::Pending => {
                        &&& r == Poll::<(PromiseId, OpId, OpResult)>::Pending
                        &&& final(driver).count() == driver.count()
                    },
                }
            },
{
}

/// A shutdown leaves nothing in flight and nothing in the buffer, whether it is made in one call or
/// in two, drops nothing else, and changes neither the length nor who is woken.
pub proof fn law_shutdown()
    ensures
        forall|driver: &mut FuturesUnorderedDriver| #[trigger]
            call_ensures(FuturesUnorderedDriver::shutdown, (driver,), ()) ==> {
                &&& !final(driver).state().is_borrowed()
                &&& ops_in_flight(final(driver).state().futures()->0).len() == 0
                &&& ops_history(final(driver).state().futures()->0).len() == 0
                &&& final(driver).state().pending().len() == 0
                &&& final(driver).count() == driver.count()
                &&& final(driver).state().registered() == driver.state().registered()
                &&& final(driver).state().wakeups() == driver.state().wakeups()
                &&& final(driver).state().nested_wakeups() == driver.state().nested_wakeups()
            },
        forall|driver: &mut FuturesUnorderedDriver, ops: Ops| #[trigger]
            call_ensures(FuturesUnorderedDriver::begin_shutdown, (driver,), ops) ==> {
                &&& driver.state().futures() == Some(ops)
                &&& final(driver).state().futures() is None
                &&& final(driver).state().buffer() == driver.state().buffer()
                &&& final(driver).count() == driver.count()
            },
        forall|driver: &mut FuturesUnorderedDriver, ops: Ops, dropped: VecDeque<OpFuture>|
            #[trigger]
            call_ensures(FuturesUnorderedDriver::finish_shutdown, (driver, ops), dropped) ==> {
                &&& dropped@ == driver.state().pending()
                &&& final(driver).state().futures() == Some(ops)
                &&& final(driver).state().pending().len() == 0
                &&& final(driver).count() == driver.count()
                &&& final(driver).state().registered() == driver.state().registered()
                &&& final(driver).state().wakeups() == driver.state().wakeups()
                &&& final(driver).state().nested_wakeups() == driver.state().nested_wakeups()
            },
{
}

/// What is kept of a list of ops is each op that is not excluded, as often as it is listed, and no
/// other, in the order of the list.
pub proof fn law_inflight_stats(
    contexts: Vec<PendingOpInfo>,
    op_exclusions: BitSet,
    stats: OpInflightStats,
)
    requires
        call_ensures(inflight_stats, (&contexts, &op_exclusions), stats),
    ensures
        forall|info: PendingOpInfo| #[trigger]
            stats.ops@.to_multiset().count(info) == if members(op_exclusions).contains(
                info.1 as usize,
            ) {
                0
            } else {
                contexts@.to_multiset().count(info)
            },
        exists|at: Seq<int>| #![trigger at.len()]
            at.len() == stats.ops@.len() && (forall|k: int| #![trigger at[k]]
                0 <= k < at.len() ==> 0 <= at[k] < contexts@.len() && contexts@[at[k]]
                    == stats.ops@[k]) && (forall|j: int, k: int| #![trigger at[j], at[k]]
                0 <= j < k < at.len() ==> at[j] < at[k]),
{
    let keep = |info: PendingOpInfo| !members(op_exclusions).contains(info.1 as usize);
    assert forall|info: PendingOpInfo| #[trigger]
        stats.ops@.to_multiset().count(info) == if members(op_exclusions).contains(
            info.1 as usize,
        ) {
            0
        } else {
            contexts@.to_multiset().count(info)
        } by {
        lemma_filter_count(contexts@, keep, info);
    }
    lemma_filter_keeps_order(contexts@, keep);
}

/// What a filter keeps comes in the order in which it came before.
proof fn lemma_filter_keeps_order<A>(s: Seq<A>, keep: spec_fn(A) -> bool)
    ensures
        exists|at: Seq<int>| #![trigger at.len()]
            at.len() == s.filter(keep).len() && (forall|k: int| #![trigger at[k]]
                0 <= k < at.len() ==> 0 <= at[k] < s.len() && s[at[k]] == s.filter(keep)[k]) && (
            forall|j: int, k: int| #![trigger at[j], at[k]]
                0 <= j < k < at.len() ==> at[j] < at[k]),
    decreases s.len(),
{
    reveal(Seq::filter);
    let none = Seq::<int>::empty();
    if s.len() == 0 {
        assert(none.len() == s.filter(keep).len());
    } else {
        let first = s.drop_last();
        lemma_filter_keeps_order(first, keep);
        let at = choose|at: Seq<int>| #![trigger at.len()]
            at.len() == first.filter(keep).len() && (forall|k: int| #![trigger at[k]]
                0 <= k < at.len() ==> 0 <= at[k] < first.len() && first[at[k]] == first.filter(
                    keep,
                )[k]) && (forall|j: int, k: int| #![trigger at[j], at[k]]
                0 <= j < k < at.len() ==> at[j] < at[k]);
        if keep(s.last()) {
            let more = at.push(s.len() - 1);
            assert forall|k: int| #![trigger more[k]] 0 <= k < more.len() implies 0 <= more[k]
                < s.len() && s[more[k]] == s.filter(keep)[k] by {
                if k < at.len() {
                    assert(more[k] == at[k]);
                }
            }
            assert forall|j: int, k: int| #![trigger more[j], more[k]]
                0 <= j < k < more.len() implies more[j] < more[k] by {
                assert(more[j] == at[j]);
                if k < at.len() {
                    assert(more[k] == at[k]);
                }
            }
            assert(more.len() == s.filter(keep).len());
        } else {
            assert forall|k: int| #![trigger at[k]] 0 <= k < at.len() implies 0 <= at[k] < s.len()
                && s[at[k]] == s.filter(keep)[k] by {
                assert(first[at[k]] == s[at[k]]);
            }
            assert(at.len() == s.filter(keep).len());
        }
    }
}

/// The stats list each op in flight that is not excluded just once, and nothing else: of each
/// promise and op they list as many as there are ops in flight under them, or none if the op is
/// excluded, and they are as long as there are ops in flight that are not excluded.
pub proof fn law_stats(
    driver: FuturesUnorderedDriver,
    op_exclusions: BitSet,
    stats: OpInflightStats,
)
    requires
        !driver.state().is_borrowed(),
        call_ensures(FuturesUnorderedDriver::stats, (&driver, &op_exclusions), stats),
    ensures
        forall|info: PendingOpInfo| #[trigger]
            stats.ops@.to_multiset().count(info) == if members(op_exclusions).contains(
                info.1 as usize,
            ) {
                0
            } else {
                ops_in_flight(driver.state().futures()->0).filter(
                    |f: OpFuture| f.info == info,
                ).len()
            },
        stats.ops@.len() == ops_in_flight(driver.state().futures()->0).filter(
            |f: OpFuture| !members(op_exclusions).contains(f.info.1 as usize),
        ).len(),
{
    let keep = |info: PendingOpInfo| !members(op_exclusions).contains(info.1 as usize);
    let info_of = |op: OpFuture| op.info;
    let ops = in_flight(driver.state());
    let contexts = choose|contexts: Seq<PendingOpInfo>| #[trigger]
        lists_contexts(ops, contexts) && stats.ops@ == not_excluded(
            contexts,
            members(op_exclusions),
        );
    let order = choose|order: Seq<OpFuture>| #[trigger]
        order.to_multiset() == ops && contexts == order.map_values(info_of);
    assert forall|info: PendingOpInfo| #[trigger]
        stats.ops@.to_multiset().count(info) == if members(op_exclusions).contains(
            info.1 as usize,
        ) {
            0
        } else {
            ops.filter(|f: OpFuture| f.info == info).len()
        } by {
        lemma_filter_count(contexts, keep, info);
        lemma_count_listed(order, info);
    }
    lemma_len_kept(order, members(op_exclusions));
}

/// Of each promise and op, a list of contexts holds as many as there are ops under them.
proof fn lemma_count_listed(order: Seq<OpFuture>, info: PendingOpInfo)
    ensures
        order.map_values(|op: OpFuture| op.info).to_multiset().count(info)
            == order.to_multiset().filter(|f: OpFuture| f.info == info).len(),
    decreases order.len(),
{
    broadcast use vstd::seq_lib::group_to_multiset_ensures;

    let info_of = |op: OpFuture| op.info;
    let same = |f: OpFuture| f.info == info;
    if order.len() == 0 {
        assert(order.to_multiset().filter(same) =~= Multiset::<OpFuture>::empty());
        assert(!order.map_values(info_of).contains(info));
    } else {
        let first = order.drop_last();
        lemma_count_listed(first, info);
        assert(order =~= first.push(order.last()));
        assert(order.map_values(info_of) =~= first.map_values(info_of).push(order.last().info));
        if same(order.last()) {
            assert(order.to_multiset().filter(same) =~= first.to_multiset().filter(same).insert(
                order.last(),
            ));
        } else {
            assert(order.to_multiset().filter(same) =~= first.to_multiset().filter(same));
        }
    }
}

/// What is kept of a list of contexts is as long as there are ops that are not excluded.
proof fn lemma_len_kept(order: Seq<OpFuture>, excluded: Set<usize>)
    ensures
        order.map_values(|op: OpFuture| op.info).filter(
            |info: PendingOpInfo| !excluded.contains(info.1 as usize),
        ).len() == order.to_multiset().filter(
            |f: OpFuture| !excluded.contains(f.info.1 as usize),
        ).len(),
    decreases order.len(),
{
    broadcast use vstd::seq_lib::group_to_multiset_ensures;

    reveal(Seq::filter);
    let info_of = |op: OpFuture| op.info;
    let keep = |info: PendingOpInfo| !excluded.contains(info.1 as usize);
    let kept = |f: OpFuture| !excluded.contains(f.info.1 as usize);
    if order.len() == 0 {
        assert(order.to_multiset().filter(kept) =~= Multiset::<OpFuture>::empty());
    } else {
        let first = order.drop_last();
        lemma_len_kept(first, excluded);
        assert(order =~= first.push(order.last()));
        assert(order.map_values(info_of).drop_last() =~= first.map_values(info_of));
        if kept(order.last()) {
            assert(order.to_multiset().filter(kept) =~= first.to_multiset().filter(kept).insert(
                order.last(),
            ));
        } else {
            assert(order.to_multiset().filter(kept) =~= first.to_multiset().filter(kept));
        }
    }
}

/// A driver is well formed just if each op on its queue counts, and stays so. A well-formed driver
/// takes every submission short of a full count, and every poll. Its ops are handed out and dropped
/// while they are there, and taken back while they are not.
pub proof fn law_driver_accepts<const LAZY: bool, const DEFERRED: bool>()
    ensures
        forall|driver: FuturesUnorderedDriver| #[trigger]
            driver.wf() <==> match driver.state().futures() {
                Some(ops) => ops_in_flight(ops).add(driver.state().pending().to_multiset()).len()
                    <= driver.count(),
                None => driver.state().pending().len() <= driver.count(),
            },
        forall|driver: FuturesUnorderedDriver| #[trigger]
            call_ensures(FuturesUnorderedDriver::default, (), driver) ==> driver.wf(),
        forall|driver: &mut FuturesUnorderedDriver, task: OpFuture|
            driver.wf() && driver.count() < usize::MAX ==> #[trigger] call_requires(
                FuturesUnorderedDriver::spawn,
                (driver, task),
            ),
        forall|driver: &mut FuturesUnorderedDriver, task: OpFuture| #[trigger]
            call_ensures(FuturesUnorderedDriver::spawn, (driver, task), ()) ==> final(driver).wf(),
        forall|
            driver: &mut FuturesUnorderedDriver,
            op_id: OpId,
            promise_id: PromiseId,
            op: LocalFutureObj<'static, OpResult>,
        |
            driver.wf() && driver.count() < usize::MAX ==> #[trigger] call_requires(
                FuturesUnorderedDriver::submit_op_fallible::<LAZY, DEFERRED>,
                (driver, op_id, promise_id, op),
            ),
        forall|
            driver: &mut FuturesUnorderedDriver,
            op_id: OpId,
            promise_id: PromiseId,
            op: LocalFutureObj<'static, OpResult>,
            returned: Option<OpResult>,
        | #[trigger]
            call_ensures(
                FuturesUnorderedDriver::submit_op_fallible::<LAZY, DEFERRED>,
                (driver, op_id, promise_id, op),
                returned,
            ) ==> final(driver).wf(),
        forall|
            driver: &mut FuturesUnorderedDriver,
            op_id: OpId,
            promise_id: PromiseId,
            op: LocalFutureObj<'static, OpValue>,
        |
            driver.wf() && driver.count() < usize::MAX ==> #[trigger] call_requires(
                FuturesUnorderedDriver::submit_op_infallible::<LAZY, DEFERRED>,
                (driver, op_id, promise_id, op),
            ),
        forall|
            driver: &mut FuturesUnorderedDriver,
            op_id: OpId,
            promise_id: PromiseId,
            op: LocalFutureObj<'static, OpValue>,
            returned: Option<OpValue>,
        | #[trigger]
            call_ensures(
                FuturesUnorderedDriver::submit_op_infallible::<LAZY, DEFERRED>,
                (driver, op_id, promise_id, op),
                returned,
            ) ==> final(driver).wf(),
        forall|driver: &mut FuturesUnorderedDriver, cx: &mut Context<'_>|
            driver.wf() ==> #[trigger] call_requires(
                FuturesUnorderedDriver::poll_ready,
                (driver, cx),
            ),
        forall|
            driver: &mut FuturesUnorderedDriver,
            cx: &mut Context<'_>,
            r: Poll<(PromiseId, OpId, OpResult)>,
        | #[trigger]
            call_ensures(FuturesUnorderedDriver::poll_ready, (driver, cx), r) ==> {
                final(driver).wf()
            },
        forall|driver: &mut FuturesUnorderedDriver, cx: Context<'_>|
            driver.wf() ==> #[trigger] call_requires(
                FuturesUnorderedDriver::begin_poll_ready,
                (driver, &cx),
            ),
        forall|driver: &mut FuturesUnorderedDriver, ops: Ops, found: Poll<PendingOp>|
            driver.state().futures() is None && (found is Ready ==> driver.count() > 0)
                ==> #[trigger] call_requires(
                FuturesUnorderedDriver::finish_poll_ready,
                (driver, ops, found),
            ),
        forall|driver: &mut FuturesUnorderedDriver|
            driver.state().futures() is Some ==> #[trigger] call_requires(
                FuturesUnorderedDriver::shutdown,
                (driver,),
            ),
        forall|driver: &mut FuturesUnorderedDriver| #[trigger]
            call_ensures(FuturesUnorderedDriver::shutdown, (driver,), ()) ==> final(driver).wf(),
        forall|driver: &mut FuturesUnorderedDriver|
            driver.state().futures() is Some ==> #[trigger] call_requires(
                FuturesUnorderedDriver::begin_shutdown,
                (driver,),
            ),
        forall|driver: &mut FuturesUnorderedDriver, ops: Ops|
            driver.state().futures() is None ==> #[trigger] call_requires(
                FuturesUnorderedDriver::finish_shutdown,
                (driver, ops),
            ),
        forall|driver: FuturesUnorderedDriver, op_exclusions: BitSet|
            driver.state().futures() is Some ==> #[trigger] call_requires(
                FuturesUnorderedDriver::stats,
                (&driver, &op_exclusions),
            ),
{
}

} // verus!
