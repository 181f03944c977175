//! What holds of a driver over several calls.
use core::task::Context;
use core::task::Poll;

use futures::task::LocalFutureObj;
use vstd::multiset::Multiset;
use vstd::prelude::*;

use crate::driver::delivers;
use crate::driver::lemma_nothing_held;
use crate::driver::not_excluded;
use crate::driver::settled;
use crate::driver::value_polled;
use crate::driver::FuturesUnorderedDriver;
use crate::driver::Ops;
use crate::driver::Settled;
use crate::op_futures::comes_to;
use crate::op_futures::lemma_first_poll_is_a_poll;
use crate::op_futures::lists_contexts;
use crate::op_futures::ops_in_flight;
use crate::op_futures::work_first_polled;
use crate::op_futures::work_polled;
use crate::op_futures::OpFuture;
use crate::op_futures::OpWork;
use crate::op_results::OpId;
use crate::op_results::OpResult;
use crate::op_results::OpValue;
use crate::op_results::PendingOp;
use crate::op_results::PendingOpInfo;
use crate::op_results::PromiseId;
use crate::queue_laws::is_last_poll;
use crate::queue_laws::law_poll_conserves;
use crate::queue_laws::law_spawn_conserves;
use crate::queue_laws::lemma_last_poll;
use crate::submission_queue::buffered;
use crate::submission_queue::collection_polled;
use crate::submission_queue::held;
use crate::submission_queue::lemma_nothing_reentered;
use crate::submission_queue::lemma_one_reentered;
use crate::submission_queue::lemma_reentered_compose;
use crate::submission_queue::poll_begun;
use crate::submission_queue::poll_finished;
use crate::submission_queue::polled_in;
use crate::submission_queue::registered_after;
use crate::submission_queue::submitted_since;
use crate::submission_queue::Reentry;

verus! {

/// The driver counts just the ops on its queue.
pub open spec fn counts_exactly(driver: FuturesUnorderedDriver) -> bool {
    &&& !driver.state().is_borrowed()
    &&& driver.count() == held(driver.state()).len()
}

/// Putting an op in flight adds that op to the queue, and nothing else.
pub proof fn law_launch_adds_one(
    before: FuturesUnorderedDriver,
    after: FuturesUnorderedDriver,
    task: OpFuture,
)
    requires
        !before.state().is_borrowed(),
        before.launched(&after, task),
    ensures
        held(after.state()) == held(before.state()).insert(task),
        counts_exactly(before) ==> counts_exactly(after),
{
    broadcast use vstd::seq_lib::group_to_multiset_ensures;

    law_spawn_conserves(before.state(), after.state(), task);
    assert(held(after.state()) =~= held(before.state()).insert(task));
}

/// A delivery takes one op off the queue: one that was submitted under the promise and the op
/// delivered, and whose result, if it was known at submission, is the one delivered. Without a
/// delivery no op leaves the queue.
pub proof fn law_delivery_takes_one(
    before: FuturesUnorderedDriver,
    after: FuturesUnorderedDriver,
    task: int,
    r: Poll<(PromiseId, OpId, OpResult)>,
)
    requires
        !before.state().is_borrowed(),
        before.readied(&after, task, r),
    ensures
        match r {
            Poll::Ready((promise_id, op_id, result)) => exists|f: OpFuture| #[trigger]
                held(before.state()).contains(f) && f.yields(
                    PendingOp(PendingOpInfo(promise_id, op_id), result),
                ) && held(after.state()) == held(before.state()).remove(f),
            Poll::Pending => held(after.state()) == held(before.state()),
        },
        counts_exactly(before) ==> counts_exactly(after),
{
    broadcast use vstd::seq_lib::group_to_multiset_ensures;

    let inside = submitted_since(before.state(), after.state());
    assert(inside =~= Seq::<OpFuture>::empty());
    assert(held(before.state()).add(inside.to_multiset()) =~= held(before.state()));
    match r {
        Poll::Ready((promise_id, op_id, result)) => {
            let op = PendingOp(PendingOpInfo(promise_id, op_id), result);
            law_poll_conserves(before.state(), after.state(), task, Poll::Ready(op));
            let f = choose|f: OpFuture| #[trigger]
                held(before.state()).contains(f) && f.yields(op) && held(after.state()).insert(f)
                    == held(before.state()).add(inside.to_multiset());
            assert(held(after.state()) =~= held(before.state()).remove(f));
        },
        Poll::Pending => {
            law_poll_conserves(before.state(), after.state(), task, Poll::Pending);
        },
    }
}

/// A deferred op that is alone on the queue is delivered, when it is delivered, under its own
/// promise and op with the result that its first poll gave, and then the queue is empty.
pub proof fn law_deferred_result_is_delivered(
    before: FuturesUnorderedDriver,
    submitted: FuturesUnorderedDriver,
    after: FuturesUnorderedDriver,
    info: PendingOpInfo,
    known: OpResult,
    work: OpWork,
    task: int,
    delivered: (PromiseId, OpId, OpResult),
)
    requires
        !before.state().is_borrowed(),
        held(before.state()) == Multiset::<OpFuture>::empty(),
        before.submitted(&submitted, info, true, Poll::Ready(known), work, None),
        submitted.readied(&after, task, Poll::Ready(delivered)),
    ensures
        delivered == (info.0, info.1, known),
        held(after.state()) == Multiset::<OpFuture>::empty(),
{
    let done = OpFuture { info, work: OpWork::Done(Some(known)) };
    law_launch_adds_one(before, submitted, done);
    law_delivery_takes_one(submitted, after, task, Poll::Ready(delivered));
    let op = PendingOp(PendingOpInfo(delivered.0, delivered.1), delivered.2);
    let f = choose|f: OpFuture| #[trigger]
        held(submitted.state()).contains(f) && f.yields(op) && held(after.state()) == held(
            submitted.state(),
        ).remove(f);
    assert(f == done);
    assert(held(after.state()) =~= Multiset::<OpFuture>::empty());
}

/// A submission answers either at once or by a later delivery: either a result is returned and
/// the queue stays as it is, or nothing is returned and one op, under the submitted promise and
/// op, joins the queue.
pub proof fn law_submission_answers_once(
    before: FuturesUnorderedDriver,
    after: FuturesUnorderedDriver,
    info: PendingOpInfo,
    deferred: bool,
    first: Poll<OpResult>,
    work: OpWork,
    returned: Option<OpResult>,
)
    requires
        !before.state().is_borrowed(),
        before.submitted(&after, info, deferred, first, work, returned),
    ensures
        returned is Some <==> first is Ready && !deferred,
        returned is Some ==> after == before,
        returned is None ==> exists|f: OpFuture|
            f.info == info && held(after.state()) == #[trigger] held(before.state()).insert(f),
        counts_exactly(before) ==> counts_exactly(after),
{
    match first {
        Poll::Pending => {
            law_launch_adds_one(before, after, OpFuture { info, work });
        },
        Poll::Ready(result) => {
            if deferred {
                let done = OpFuture { info, work: OpWork::Done(Some(result)) };
                law_launch_adds_one(before, after, done);
            }
        },
    }
}

/// A poll of a driver whose queue is empty delivers nothing.
pub proof fn law_empty_driver_is_pending(
    before: FuturesUnorderedDriver,
    after: FuturesUnorderedDriver,
    task: int,
    r: Poll<(PromiseId, OpId, OpResult)>,
)
    requires
        !before.state().is_borrowed(),
        held(before.state()) == Multiset::<OpFuture>::empty(),
        before.readied(&after, task, r),
    ensures
        r is Pending,
        held(after.state()) == Multiset::<OpFuture>::empty(),
{
    law_delivery_takes_one(before, after, task, r);
}

/// After a shutdown nothing is delivered until an op is submitted.
pub proof fn law_shutdown_silences(
    before: FuturesUnorderedDriver,
    shut: FuturesUnorderedDriver,
    after: FuturesUnorderedDriver,
    task: int,
    r: Poll<(PromiseId, OpId, OpResult)>,
)
    requires
        before.shut_down(&shut),
        shut.readied(&after, task, r),
    ensures
        r is Pending,
        held(after.state()) == Multiset::<OpFuture>::empty(),
{
    lemma_nothing_held(shut.state());
    law_empty_driver_is_pending(shut, after, task, r);
}

/// The stats list an op just when it is in flight and its id is not excluded.
pub proof fn law_stats_list_what_is_in_flight(
    ops: Multiset<OpFuture>,
    contexts: Seq<PendingOpInfo>,
    excluded: Set<usize>,
    info: PendingOpInfo,
)
    requires
        lists_contexts(ops, contexts),
    ensures
        not_excluded(contexts, excluded).contains(info) <==> !excluded.contains(info.1 as usize)
            && exists|f: OpFuture| #[trigger] ops.contains(f) && f.info == info,
{
    broadcast use vstd::seq_lib::group_to_multiset_ensures;

    let keep = |info: PendingOpInfo| !excluded.contains(info.1 as usize);
    let order = choose|order: Seq<OpFuture>| #[trigger]
        order.to_multiset() == ops && contexts == order.map_values(|op: OpFuture| op.info);
    if not_excluded(contexts, excluded).contains(info) {
        let kept = contexts.filter(keep);
        let i = choose|i: int| 0 <= i < kept.len() && kept[i] == info;
        contexts.lemma_filter_pred(keep, i);
        lemma_filter_keeps_nothing_new(contexts, keep, info);
        let j = choose|j: int| 0 <= j < contexts.len() && contexts[j] == info;
        assert(ops.contains(order[j]));
    }
    if !excluded.contains(info.1 as usize) && exists|f: OpFuture| #[trigger]
        ops.contains(f) && f.info == info {
        let f = choose|f: OpFuture| #[trigger] ops.contains(f) && f.info == info;
        assert(order.contains(f));
        let j = choose|j: int| 0 <= j < order.len() && order[j] == f;
        assert(contexts[j] == info);
        contexts.lemma_filter_contains(keep, j);
    }
}

/// What a filter keeps was there before.
proof fn lemma_filter_keeps_nothing_new<A>(s: Seq<A>, keep: spec_fn(A) -> bool, a: A)
    requires
        s.filter(keep).contains(a),
    ensures
        s.contains(a),
    decreases s.len(),
{
    reveal(Seq::filter);
    let kept = s.filter(keep);
    let i = choose|i: int| 0 <= i < kept.len() && kept[i] == a;
    let rest = s.drop_last().filter(keep);
    if i < rest.len() {
        assert(rest[i] == a);
        lemma_filter_keeps_nothing_new(s.drop_last(), keep, a);
        let j = choose|j: int| 0 <= j < s.drop_last().len() && s.drop_last()[j] == a;
        assert(s[j] == a);
    } else {
        assert(s[s.len() - 1] == a);
    }
}

/// A call on a driver from inside an op that the driver is polling.
pub enum NestedCall {
    /// `op` was put in flight, as a lazy submission does.
    Launch { op: OpFuture },
    /// The op `info` was submitted, its first poll gave `first` and left `work`, and `returned` was
    /// returned.
    Submit {
        info: PendingOpInfo,
        deferred: bool,
        first: Poll<OpResult>,
        work: OpWork,
        returned: Option<OpResult>,
    },
    /// The task `task` polled and got `r`.
    Poll { task: int, r: Poll<(PromiseId, OpId, OpResult)> },
}

/// `call` turns `before` into `after`.
pub open spec fn nested_call_made(
    before: FuturesUnorderedDriver,
    call: NestedCall,
    after: FuturesUnorderedDriver,
) -> bool {
    match call {
        NestedCall::Launch { op } => before.launched(&after, op),
        NestedCall::Submit { info, deferred, first, work, returned } => before.submitted(
            &after,
            info,
            deferred,
            first,
            work,
            returned,
        ),
        NestedCall::Poll { task, r } => before.readied(&after, task, r),
    }
}

/// `states` are the states that a driver goes through under `calls`.
pub open spec fn is_nested(states: Seq<FuturesUnorderedDriver>, calls: Seq<NestedCall>) -> bool {
    &&& states.len() == calls.len() + 1
    &&& forall|i: int| #![trigger calls[i]]
        0 <= i < calls.len() ==> nested_call_made(states[i], calls[i], states[i + 1])
}

/// What of `call` comes to the queue: nothing of a submission that is answered at once.
pub open spec fn reentry_of(call: NestedCall) -> Option<Reentry<OpFuture>> {
    match call {
        NestedCall::Launch { op } => Some(Reentry::Spawn(op)),
        NestedCall::Submit { info, deferred, first, work, .. } => match settled(
            info,
            deferred,
            first,
            work,
        ) {
            Settled::Launch(op) => Some(Reentry::Spawn(op)),
            Settled::Return(_) => None,
        },
        NestedCall::Poll { task, .. } => Some(Reentry::Poll(task)),
    }
}

/// What of `calls` comes to the queue.
pub open spec fn reentries_of(calls: Seq<NestedCall>) -> Seq<Reentry<OpFuture>>
    decreases calls.len(),
{
    if calls.len() == 0 {
        Seq::empty()
    } else {
        match reentry_of(calls.last()) {
            Some(reentry) => reentries_of(calls.drop_last()).push(reentry),
            None => reentries_of(calls.drop_last()),
        }
    }
}

/// The ops that `calls` put in flight, oldest first.
pub open spec fn launches(calls: Seq<NestedCall>) -> Seq<OpFuture> {
    buffered(reentries_of(calls))
}

/// The promises and the ops of the submissions in `calls` that returned nothing, oldest first.
pub open spec fn nested_unanswered(calls: Seq<NestedCall>) -> Seq<PendingOpInfo>
    decreases calls.len(),
{
    if calls.len() == 0 {
        Seq::empty()
    } else {
        let earlier = nested_unanswered(calls.drop_last());
        match calls.last() {
            NestedCall::Launch { op } => earlier.push(op.info),
            NestedCall::Submit { info, returned: None, .. } => earlier.push(info),
            _ => earlier,
        }
    }
}

/// While the ops are out, the ops put in flight wait in the buffer in order, each of them counts,
/// every poll is pending, and every submission that returns nothing wakes the task that polled last
/// and puts one op in flight, under its promise and its op.
pub proof fn law_reentry_only_buffers(states: Seq<FuturesUnorderedDriver>, calls: Seq<NestedCall>)
    requires
        is_nested(states, calls),
        states[0].state().is_borrowed(),
    ensures
        states.last().state().is_borrowed(),
        states[0].state().buffer().reentered(
            &states.last().state().buffer(),
            reentries_of(calls),
        ),
        states.last().count() == states[0].count() + launches(calls).len(),
        nested_unanswered(calls) == launches(calls).map_values(|op: OpFuture| op.info),
        forall|i: int| #![trigger calls[i]]
            0 <= i < calls.len() ==> (calls[i] matches NestedCall::Poll { r, .. } ==> r is Pending),
    decreases calls.len(),
{
    let start = states[0].state().buffer();
    let info = |op: OpFuture| op.info;
    if calls.len() == 0 {
        lemma_nothing_reentered(&start);
        assert(nested_unanswered(calls) =~= launches(calls).map_values(info));
    } else {
        let n = calls.len() - 1;
        let first_calls = calls.drop_last();
        let first_states = states.drop_last();
        assert forall|i: int| #![trigger first_calls[i]]
            0 <= i < first_calls.len() implies nested_call_made(
            first_states[i],
            first_calls[i],
            first_states[i + 1],
        ) by {
            assert(calls[i] == first_calls[i]);
        }
        law_reentry_only_buffers(first_states, first_calls);
        assert(first_states.last() == states[n]);
        assert(nested_call_made(states[n], calls[n], states[n + 1]));
        let before = states[n].state().buffer();
        let after = states[n + 1].state().buffer();
        let earlier = reentries_of(first_calls);
        match reentry_of(calls[n]) {
            Some(reentry) => {
                lemma_one_reentered(&before, &after, reentry);
                lemma_reentered_compose(&start, &before, &after, earlier, seq![reentry]);
                assert(earlier + seq![reentry] =~= earlier.push(reentry));
                assert(earlier.push(reentry).drop_last() =~= earlier);
            },
            None => {},
        }
        assert(nested_unanswered(calls) =~= launches(calls).map_values(info));
        assert forall|i: int| #![trigger calls[i]] 0 <= i < calls.len() implies (
        calls[i] matches NestedCall::Poll { r, .. } ==> r is Pending) by {
            if i < n {
                assert(first_calls[i] == calls[i]);
            }
        }
    }
}

/// A poll whose ops reach the driver while they are polled: `ops` is handed out, the ops make
/// `calls`, which take the driver through `states`, and polling leaves `ops_after` and finds
/// `found`.
pub struct NestedPoll {
    pub ops: Ops,
    pub states: Seq<FuturesUnorderedDriver>,
    pub calls: Seq<NestedCall>,
    pub ops_after: Ops,
    pub found: Poll<PendingOp>,
}

/// The poll `poll` from the task `task` turns `before` into `after` and delivers `delivered`.
pub open spec fn nested_poll_made(
    before: FuturesUnorderedDriver,
    after: FuturesUnorderedDriver,
    task: int,
    poll: NestedPoll,
    delivered: Poll<(PromiseId, OpId, OpResult)>,
) -> bool {
    &&& poll_begun(before.state(), poll.states[0].state(), task, Some(poll.ops))
    &&& poll.states[0].count() == before.count()
    &&& is_nested(poll.states, poll.calls)
    &&& collection_polled(poll.ops, poll.ops_after, task, poll.found)
    &&& poll_finished(
        poll.states.last().state(),
        after.state(),
        poll.ops_after,
        poll.found is Ready,
    )
    &&& delivers(poll.states.last(), after, poll.found, delivered)
}

/// A poll whose ops submit to the driver while they are polled loses nothing and delivers nothing
/// twice: afterwards the queue holds what it held before and what was submitted meanwhile, less
/// the one op that is delivered, if one is. Every op stays counted. If an op is delivered, a task
/// that polled meanwhile is woken.
pub proof fn law_reentrant_poll_conserves(
    before: FuturesUnorderedDriver,
    after: FuturesUnorderedDriver,
    task: int,
    poll: NestedPoll,
    delivered: Poll<(PromiseId, OpId, OpResult)>,
)
    requires
        nested_poll_made(before, after, task, poll, delivered),
    ensures
        !before.state().is_borrowed(),
        !after.state().is_borrowed(),
        before.wf() ==> poll.states.last().count() > 0 && after.wf(),
        counts_exactly(before) ==> counts_exactly(after),
        match poll.found {
            Poll::Ready(op) => {
                &&& delivered == Poll::Ready((op.0.0, op.0.1, op.1))
                &&& exists|f: OpFuture| #[trigger]
                    held(before.state()).contains(f) && f.yields(op) && held(after.state()).insert(
                        f,
                    ) == held(before.state()).add(launches(poll.calls).to_multiset())
            },
            Poll::Pending => {
                &&& delivered is Pending
                &&& held(after.state()) == held(before.state()).add(
                    launches(poll.calls).to_multiset(),
                )
            },
        },
        poll.found is Ready && polled_in(reentries_of(poll.calls)) ==> exists|i: int| #[trigger]
            is_last_poll(reentries_of(poll.calls), i, after.state().nested_wakeups().last()),
{
    broadcast use vstd::seq_lib::group_to_multiset_ensures;

    law_reentry_only_buffers(poll.states, poll.calls);
    let late = launches(poll.calls);
    let reentries = reentries_of(poll.calls);
    assert(after.state().pending() =~= late);
    assert(ops_in_flight(poll.ops) == held(before.state()));
    match poll.found {
        Poll::Ready(op) => {
            let f = choose|f: OpFuture| #[trigger]
                ops_in_flight(poll.ops).contains(f) && f.yields(op) && ops_in_flight(poll.ops_after)
                    == ops_in_flight(poll.ops).remove(f);
            assert(held(after.state()).insert(f) =~= held(before.state()).add(late.to_multiset()));
        },
        Poll::Pending => {
            assert(held(after.state()) =~= held(before.state()).add(late.to_multiset()));
        },
    }
    if poll.found is Ready && polled_in(reentries) {
        let nested = poll.states[0].state().buffer().nested();
        lemma_last_poll(nested, reentries);
        let last = registered_after(nested, reentries)->0;
        let i = choose|i: int| #[trigger] is_last_poll(reentries, i, last);
        assert(after.state().nested_wakeups().last() == last);
        assert(is_last_poll(reentries, i, after.state().nested_wakeups().last()));
    }
}

/// A submission that polled the work of an op answers with what that work comes to: a result that
/// is returned at once is what the first poll gave, and what an op in flight can be delivered with
/// is what it could have been delivered with unpolled.
pub proof fn law_fallible_answer_is_what_the_work_comes_to(
    info: PendingOpInfo,
    deferred: bool,
    op: LocalFutureObj<'static, OpResult>,
    first: Poll<OpResult>,
    rest: LocalFutureObj<'static, OpResult>,
)
    requires
        work_first_polled(op, rest, first),
    ensures
        ({
            let unpolled = OpFuture { info, work: OpWork::Fallible(op) };
            match settled(info, deferred, first, OpWork::Fallible(rest)) {
                Settled::Return(result) => first == Poll::Ready(result) && unpolled.yields(
                    PendingOp(info, result),
                ),
                Settled::Launch(task) => forall|done: PendingOp|
                    task.yields(done) ==> unpolled.yields(done),
            }
        }),
{
    lemma_first_poll_is_a_poll(op, rest, first);
    let unpolled = OpFuture { info, work: OpWork::Fallible(op) };
    match first {
        Poll::Ready(result) => {
            let done = PendingOp(info, result);
            assert(comes_to(unpolled.work->Fallible_0, 0, done.1));
            assert(unpolled.yields(done));
        },
        Poll::Pending => {
            let task = OpFuture { info, work: OpWork::Fallible(rest) };
            assert forall|done: PendingOp| task.yields(done) implies unpolled.yields(done) by {
                let pending = choose|pending: nat| #[trigger]
                    comes_to(task.work->Fallible_0, pending, done.1);
                assert(comes_to(rest, pending, done.1));
                assert(comes_to(unpolled.work->Fallible_0, pending + 1, done.1));
            }
        },
    }
}

/// The same of an op that cannot fail.
pub proof fn law_infallible_answer_is_what_the_work_comes_to(
    info: PendingOpInfo,
    deferred: bool,
    op: LocalFutureObj<'static, OpValue>,
    first: Poll<OpValue>,
    rest: LocalFutureObj<'static, OpValue>,
)
    requires
        work_first_polled(op, rest, first),
    ensures
        ({
            let unpolled = OpFuture { info, work: OpWork::Infallible(op) };
            match settled(info, deferred, value_polled(first), OpWork::Infallible(rest)) {
                Settled::Return(result) => value_polled(first) == Poll::Ready(result)
                    && unpolled.yields(PendingOp(info, result)),
                Settled::Launch(task) => forall|done: PendingOp|
                    task.yields(done) ==> unpolled.yields(done),
            }
        }),
{
    lemma_first_poll_is_a_poll(op, rest, first);
    let unpolled = OpFuture { info, work: OpWork::Infallible(op) };
    match first {
        Poll::Ready(value) => {
            let done = PendingOp(info, Ok(value));
            assert(comes_to(unpolled.work->Infallible_0, 0, done.1->Ok_0));
            assert(unpolled.yields(done));
        },
        Poll::Pending => {
            let task = OpFuture { info, work: OpWork::Infallible(rest) };
            assert forall|done: PendingOp| task.yields(done) implies unpolled.yields(done) by {
                let value = done.1->Ok_0;
                let pending = choose|pending: nat| #[trigger]
                    comes_to(task.work->Infallible_0, pending, value);
                assert(comes_to(rest, pending, value));
                assert(comes_to(unpolled.work->Infallible_0, pending + 1, value));
            }
        },
    }
}

/// One poll of an op brings it nearer to what it completes with: a poll that completes it gives a
/// result that it yields, and what the op yields after a pending poll it yielded before.
pub proof fn law_poll_keeps_what_is_yielded(
    before: OpFuture,
    cx: Context<'_>,
    after: OpFuture,
    polled: Poll<PendingOp>,
)
    requires
        before.advanced(cx, after, polled),
    ensures
        polled matches Poll::Ready(op) ==> before.yields(op),
        polled is Pending ==> forall|op: PendingOp| after.yields(op) ==> before.yields(op),
{
    match polled {
        Poll::Ready(op) => {
            match before.work {
                OpWork::Fallible(work) => {
                    assert(comes_to(work, 0, op.1));
                },
                OpWork::Infallible(work) => {
                    assert(comes_to(work, 0, op.1->Ok_0));
                },
                OpWork::Done(_) => {},
            }
        },
        Poll::Pending => {
            assert forall|op: PendingOp| after.yields(op) implies before.yields(op) by {
                match (before.work, after.work) {
                    (OpWork::Fallible(work), OpWork::Fallible(rest)) => {
                        let pending = choose|pending: nat| #[trigger]
                            comes_to(rest, pending, op.1);
                        assert(work_polled(work, cx, rest, Poll::<OpResult>::Pending));
                        assert(comes_to(work, pending + 1, op.1));
                    },
                    (OpWork::Infallible(work), OpWork::Infallible(rest)) => {
                        let value = op.1->Ok_0;
                        let pending = choose|pending: nat| #[trigger]
                            comes_to(rest, pending, value);
                        assert(work_polled(work, cx, rest, Poll::<OpValue>::Pending));
                        assert(comes_to(work, pending + 1, value));
                    },
                    _ => {},
                }
            }
        },
    }
}

/// However often an op is polled before it completes, what it completes with is what the op that
/// was submitted yields.
///
/// The poll in the context `contexts[i]` turns `ops[i]` into `ops[i + 1]`; all polls but the last
/// are pending, and the last gives `op`.
pub proof fn law_polls_come_to_what_is_yielded(
    ops: Seq<OpFuture>,
    contexts: Seq<Context<'_>>,
    op: PendingOp,
)
    requires
        contexts.len() > 0,
        ops.len() == contexts.len() + 1,
        forall|i: int| #![trigger contexts[i]]
            0 <= i < contexts.len() - 1 ==> ops[i].advanced(contexts[i], ops[i + 1], Poll::Pending),
        ops[contexts.len() - 1].advanced(contexts.last(), ops.last(), Poll::Ready(op)),
    ensures
        ops[0].yields(op),
    decreases contexts.len(),
{
    if contexts.len() == 1 {
        law_poll_keeps_what_is_yielded(ops[0], contexts[0], ops[1], Poll::Ready(op));
    } else {
        let later_ops = ops.drop_first();
        let later = contexts.drop_first();
        assert forall|i: int| #![trigger later[i]]
            0 <= i < later.len() - 1 implies later_ops[i].advanced(
            later[i],
            later_ops[i + 1],
            Poll::Pending,
        ) by {
            assert(later[i] == contexts[i + 1]);
        }
        law_polls_come_to_what_is_yielded(later_ops, later, op);
        assert(ops[0].advanced(contexts[0], ops[1], Poll::Pending));
        law_poll_keeps_what_is_yielded(ops[0], contexts[0], ops[1], Poll::Pending);
    }
}

} // verus!
