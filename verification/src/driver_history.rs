//! What holds of a driver over any history of calls.
use core::task::Poll;

use futures::task::LocalFutureObj;
use vstd::multiset::Multiset;
use vstd::prelude::*;

use crate::driver::lemma_poll_buffers_nothing;
use crate::driver::not_excluded;
use crate::driver::settled;
use crate::driver::value_polled;
use crate::driver::value_returned;
use crate::driver::FuturesUnorderedDriver;
use crate::driver::Ops;
use crate::driver::Settled;
use crate::driver_laws::counts_exactly;
use crate::driver_laws::law_delivery_takes_one;
use crate::driver_laws::law_empty_driver_is_pending;
use crate::driver_laws::law_launch_adds_one;
use crate::driver_laws::law_reentrant_poll_conserves;
use crate::driver_laws::law_reentry_only_buffers;
use crate::driver_laws::launches;
use crate::driver_laws::nested_poll_made;
use crate::driver_laws::nested_unanswered;
use crate::driver_laws::NestedPoll;
use crate::op_futures::lists_contexts;
use crate::op_futures::only_done;
use crate::op_futures::OpFuture;
use crate::op_futures::OpWork;
use crate::op_results::OpId;
use crate::op_results::OpResult;
use crate::op_results::OpValue;
use crate::op_results::PendingOp;
use crate::op_results::PendingOpInfo;
use crate::op_results::PromiseId;
use crate::queue_laws::law_only_polls_poll;
use crate::queue_laws::lemma_spawns_poll_nothing;
use crate::queue_laws::polls_among;
use crate::queue_laws::polls_of_run;
use crate::queue_laws::steps_to;
use crate::queue_laws::QueueStep;
use crate::submission_queue::held;
use crate::submission_queue::history;
use crate::submission_queue::in_flight;
use crate::submission_queue::polled_through;
use crate::submission_queue::spawns;
use crate::submission_queue::CollectionCall;
use crate::submission_queue::Queue;

verus! {

/// A call on a driver.
pub enum DriverCall {
    /// `op` was put in flight, as a lazy submission does.
    Launch { op: OpFuture },
    /// The op `info` was submitted, its first poll gave `first` and left `work`, and `returned` was
    /// returned.
    Submit {
        info: PendingOpInfo,
        deferred: bool,
        first: Poll<OpResult>,
        work: OpWork,
        returned: Option<OpResult>,
    },
    /// The task `task` polled and got `r`.
    Poll { task: int, r: Poll<(PromiseId, OpId, OpResult)> },
    /// The task `task` polled and got `r`, and the ops reached the driver while they were polled.
    NestedPoll { task: int, poll: NestedPoll, r: Poll<(PromiseId, OpId, OpResult)> },
    /// The ops in flight were listed, or counted.
    Stats,
    /// All ops were dropped.
    Shutdown,
}

/// `call` turns `before` into `after`.
pub open spec fn call_made(
    before: FuturesUnorderedDriver,
    call: DriverCall,
    after: FuturesUnorderedDriver,
) -> bool {
    match call {
        DriverCall::Launch { op } => before.launched(&after, op),
        DriverCall::Submit { info, deferred, first, work, returned } => before.submitted(
            &after,
            info,
            deferred,
            first,
            work,
            returned,
        ),
        DriverCall::Poll { task, r } => before.readied(&after, task, r),
        DriverCall::NestedPoll { task, poll, r } => nested_poll_made(before, after, task, poll, r),
        DriverCall::Stats => after == before,
        DriverCall::Shutdown => before.shut_down(&after),
    }
}

/// `states` are the states that a driver goes through under `calls`.
pub open spec fn is_history(states: Seq<FuturesUnorderedDriver>, calls: Seq<DriverCall>) -> bool {
    &&& states.len() == calls.len() + 1
    &&& forall|i: int| #![trigger calls[i]]
        0 <= i < calls.len() ==> call_made(states[i], calls[i], states[i + 1])
}

/// Whether no call drops ops.
pub open spec fn without_shutdown(calls: Seq<DriverCall>) -> bool {
    forall|i: int| 0 <= i < calls.len() ==> !(#[trigger] calls[i] is Shutdown)
}

/// The ops that `call` puts in flight, oldest first: a submission that returns nothing puts in one.
pub open spec fn put_in_flight(call: DriverCall) -> Seq<OpFuture> {
    match call {
        DriverCall::Launch { op } => seq![op],
        DriverCall::Submit { info, deferred, first, work, .. } => match settled(
            info,
            deferred,
            first,
            work,
        ) {
            Settled::Launch(op) => seq![op],
            Settled::Return(_) => Seq::empty(),
        },
        DriverCall::NestedPoll { poll, .. } => launches(poll.calls),
        _ => Seq::empty(),
    }
}

/// The promises and the ops of the submissions in `call` that returned nothing, oldest first.
pub open spec fn left_unanswered(call: DriverCall) -> Seq<PendingOpInfo> {
    match call {
        DriverCall::Launch { op } => seq![op.info],
        DriverCall::Submit { info, returned: None, .. } => seq![info],
        DriverCall::NestedPoll { poll, .. } => nested_unanswered(poll.calls),
        _ => Seq::empty(),
    }
}

/// The ops that `calls` put in flight, oldest first.
pub open spec fn all_in_flight(calls: Seq<DriverCall>) -> Seq<OpFuture>
    decreases calls.len(),
{
    if calls.len() == 0 {
        Seq::empty()
    } else {
        all_in_flight(calls.drop_last()) + put_in_flight(calls.last())
    }
}

/// The promises and the ops of the submissions that returned nothing, oldest first.
pub open spec fn unanswered(calls: Seq<DriverCall>) -> Seq<PendingOpInfo>
    decreases calls.len(),
{
    if calls.len() == 0 {
        Seq::empty()
    } else {
        unanswered(calls.drop_last()) + left_unanswered(calls.last())
    }
}

/// What `calls` delivered, oldest first.
pub open spec fn deliveries(calls: Seq<DriverCall>) -> Seq<PendingOp>
    decreases calls.len(),
{
    if calls.len() == 0 {
        Seq::empty()
    } else {
        match delivery(calls.last()) {
            Some(op) => deliveries(calls.drop_last()).push(op),
            None => deliveries(calls.drop_last()),
        }
    }
}

/// A history less its last call is a history.
proof fn lemma_history_without_last(states: Seq<FuturesUnorderedDriver>, calls: Seq<DriverCall>)
    requires
        is_history(states, calls),
        calls.len() > 0,
    ensures
        is_history(states.drop_last(), calls.drop_last()),
        without_shutdown(calls) ==> without_shutdown(calls.drop_last()),
        states.drop_last().last() == states[calls.len() - 1],
        call_made(states[calls.len() - 1], calls.last(), states.last()),
{
    let first_states = states.drop_last();
    let first_calls = calls.drop_last();
    assert forall|i: int| #![trigger first_calls[i]] 0 <= i < first_calls.len() implies call_made(
        first_states[i],
        first_calls[i],
        first_states[i + 1],
    ) by {
        assert(calls[i] == first_calls[i]);
    }
    assert(calls[calls.len() - 1] == calls.last());
    if without_shutdown(calls) {
        assert forall|i: int| 0 <= i < first_calls.len() implies !(
        #[trigger] first_calls[i] is Shutdown) by {
            assert(!(calls[i] is Shutdown));
        }
    }
}

/// The length of a driver is the number of submissions that returned nothing less the number of
/// deliveries, over whatever calls, from inside polls too. A shutdown does not change it.
pub proof fn law_len_counts_unanswered(states: Seq<FuturesUnorderedDriver>, calls: Seq<DriverCall>)
    requires
        is_history(states, calls),
    ensures
        states.last().count() == states[0].count() + unanswered(calls).len() - deliveries(
            calls,
        ).len(),
    decreases calls.len(),
{
    if calls.len() > 0 {
        lemma_history_without_last(states, calls);
        law_len_counts_unanswered(states.drop_last(), calls.drop_last());
        match calls.last() {
            DriverCall::NestedPoll { task, poll, r } => {
                law_reentrant_poll_conserves(
                    states[calls.len() - 1],
                    states.last(),
                    task,
                    poll,
                    r,
                );
                law_reentry_only_buffers(poll.states, poll.calls);
            },
            _ => {},
        }
    }
}

/// `completed` are the ops that came to `delivered`, one for each, and `available` is what is
/// `left` together with them.
pub open spec fn delivers_for(
    completed: Seq<OpFuture>,
    delivered: Seq<PendingOp>,
    available: Multiset<OpFuture>,
    left: Multiset<OpFuture>,
) -> bool {
    &&& completed.len() == delivered.len()
    &&& forall|i: int|
        0 <= i < delivered.len() ==> (#[trigger] completed[i]).yields(delivered[i])
    &&& available == left.add(completed.to_multiset())
}

/// Over any history without a shutdown, each op that was put in flight is still on the queue or was
/// delivered once, and each delivery is of such an op, under its promise and with what it yields.
/// This is so whatever the order in which ops complete, and also of ops that are submitted from
/// inside polls.
pub proof fn law_history_delivers_each_once(
    states: Seq<FuturesUnorderedDriver>,
    calls: Seq<DriverCall>,
)
    requires
        is_history(states, calls),
        without_shutdown(calls),
        !states[0].state().is_borrowed(),
    ensures
        !states.last().state().is_borrowed(),
        exists|completed: Seq<OpFuture>| #[trigger]
            delivers_for(
                completed,
                deliveries(calls),
                held(states[0].state()).add(all_in_flight(calls).to_multiset()),
                held(states.last().state()),
            ),
        counts_exactly(states[0]) ==> counts_exactly(states.last()),
    decreases calls.len(),
{
    broadcast use vstd::seq_lib::group_to_multiset_ensures;

    let start = held(states[0].state());
    let available = start.add(all_in_flight(calls).to_multiset());
    if calls.len() == 0 {
        let none = Seq::<OpFuture>::empty();
        assert(available =~= start.add(none.to_multiset()));
        assert(delivers_for(none, deliveries(calls), available, held(states.last().state())));
    } else {
        let n = calls.len() - 1;
        let first_calls = calls.drop_last();
        lemma_history_without_last(states, calls);
        law_history_delivers_each_once(states.drop_last(), first_calls);
        let before = states[n];
        let after = states[n + 1];
        let base = start.add(all_in_flight(first_calls).to_multiset());
        let earlier = choose|completed: Seq<OpFuture>| #[trigger]
            delivers_for(completed, deliveries(first_calls), base, held(before.state()));
        let joined = put_in_flight(calls.last()).to_multiset();
        vstd::seq_lib::lemma_multiset_commutative(
            all_in_flight(first_calls),
            put_in_flight(calls.last()),
        );
        assert(available =~= base.add(joined));
        assert(!(calls[n] is Shutdown));
        lemma_call_conserves(before, calls.last(), after);
        if deliveries(calls).len() > deliveries(first_calls).len() {
            let op = deliveries(calls).last();
            let f = choose|f: OpFuture| #[trigger]
                held(before.state()).contains(f) && f.yields(op) && held(after.state()).insert(f)
                    == held(before.state()).add(joined);
            let completed = earlier.push(f);
            assert(completed.to_multiset() =~= earlier.to_multiset().insert(f));
            assert(available =~= held(after.state()).insert(f).add(earlier.to_multiset()));
            assert(available =~= held(after.state()).add(completed.to_multiset()));
            assert(delivers_for(completed, deliveries(calls), available, held(after.state())));
        } else {
            assert(available =~= held(after.state()).add(earlier.to_multiset()));
            assert(delivers_for(earlier, deliveries(calls), available, held(after.state())));
        }
    }
}

/// What `call` delivered, if it did.
pub open spec fn delivery(call: DriverCall) -> Option<PendingOp> {
    match call {
        DriverCall::Poll { r: Poll::Ready((promise_id, op_id, result)), .. } => Some(
            PendingOp(PendingOpInfo(promise_id, op_id), result),
        ),
        DriverCall::NestedPoll { r: Poll::Ready((promise_id, op_id, result)), .. } => Some(
            PendingOp(PendingOpInfo(promise_id, op_id), result),
        ),
        _ => None,
    }
}

/// One call but a shutdown leaves on the queue what was on it and what the call put there, less
/// the op that it delivers, if it delivers one.
proof fn lemma_call_conserves(
    before: FuturesUnorderedDriver,
    call: DriverCall,
    after: FuturesUnorderedDriver,
)
    requires
        call_made(before, call, after),
        !(call is Shutdown),
        !before.state().is_borrowed(),
    ensures
        !after.state().is_borrowed(),
        counts_exactly(before) ==> counts_exactly(after),
        match delivery(call) {
            Some(op) => exists|f: OpFuture| #[trigger]
                held(before.state()).contains(f) && f.yields(op) && held(after.state()).insert(f)
                    == held(before.state()).add(put_in_flight(call).to_multiset()),
            None => held(after.state()) == held(before.state()).add(
                put_in_flight(call).to_multiset(),
            ),
        },
{
    broadcast use vstd::seq_lib::group_to_multiset_ensures;

    let joined = put_in_flight(call);
    match call {
        DriverCall::NestedPoll { task, poll, r } => {
            law_reentrant_poll_conserves(before, after, task, poll, r);
        },
        DriverCall::Poll { task, r } => {
            law_delivery_takes_one(before, after, task, r);
            match r {
                Poll::Ready((promise_id, op_id, result)) => {
                    let op = PendingOp(PendingOpInfo(promise_id, op_id), result);
                    let f = choose|f: OpFuture| #[trigger]
                        held(before.state()).contains(f) && f.yields(op) && held(after.state())
                            == held(before.state()).remove(f);
                    assert(held(after.state()).insert(f) =~= held(before.state()).add(
                        joined.to_multiset(),
                    ));
                },
                Poll::Pending => {
                    assert(held(after.state()) =~= held(before.state()).add(joined.to_multiset()));
                },
            }
        },
        _ => {
            if joined.len() > 0 {
                law_launch_adds_one(before, after, joined[0]);
                assert(joined =~= Seq::<OpFuture>::empty().push(joined[0]));
            }
            assert(held(after.state()) =~= held(before.state()).add(joined.to_multiset()));
        },
    }
}

/// The promises and the ops under which `delivered` were delivered.
pub open spec fn answered(delivered: Seq<PendingOp>) -> Seq<PendingOpInfo> {
    delivered.map_values(|op: PendingOp| op.0)
}

/// A driver that has delivered as often as there were ops on its queue at first and submissions
/// returned nothing since has delivered just those, in some order: each under its promise and its
/// op, none twice, and nothing else. Nothing is left then: the next poll is pending, and a driver
/// that counted exactly counts nothing.
pub proof fn law_deliveries_answer_all(
    states: Seq<FuturesUnorderedDriver>,
    calls: Seq<DriverCall>,
)
    requires
        is_history(states, calls),
        without_shutdown(calls),
        !states[0].state().is_borrowed(),
        deliveries(calls).len() == held(states[0].state()).len() + unanswered(calls).len(),
    ensures
        lists_contexts(
            held(states[0].state()).add(all_in_flight(calls).to_multiset()),
            answered(deliveries(calls)),
        ),
        held(states.last().state()) == Multiset::<OpFuture>::empty(),
        counts_exactly(states[0]) ==> states.last().count() == 0,
        forall|after: FuturesUnorderedDriver, task: int, r: Poll<(PromiseId, OpId, OpResult)>|
            #[trigger] states.last().readied(&after, task, r) ==> r is Pending,
{
    broadcast use vstd::seq_lib::group_to_multiset_ensures;

    law_history_delivers_each_once(states, calls);
    lemma_unanswered_are_in_flight(states, calls);
    let launched = all_in_flight(calls);
    let available = held(states[0].state()).add(launched.to_multiset());
    let left = held(states.last().state());
    let completed = choose|completed: Seq<OpFuture>| #[trigger]
        delivers_for(completed, deliveries(calls), available, left);
    assert(available.len() == left.len() + completed.to_multiset().len());
    assert(left =~= Multiset::<OpFuture>::empty());
    assert(available =~= completed.to_multiset());
    assert(answered(deliveries(calls)) =~= completed.map_values(|op: OpFuture| op.info));
    assert forall|after: FuturesUnorderedDriver, task: int, r: Poll<(PromiseId, OpId, OpResult)>|
        #[trigger] states.last().readied(&after, task, r) implies r is Pending by {
        law_empty_driver_is_pending(states.last(), after, task, r);
    }
}

/// On a driver that starts with nothing on its queue, the promises and the ops of as many
/// deliveries as there were submissions that returned nothing are those of the submissions, in some
/// order.
pub proof fn law_deliveries_answer_the_unanswered(
    states: Seq<FuturesUnorderedDriver>,
    calls: Seq<DriverCall>,
)
    requires
        is_history(states, calls),
        without_shutdown(calls),
        !states[0].state().is_borrowed(),
        held(states[0].state()) == Multiset::<OpFuture>::empty(),
        deliveries(calls).len() == unanswered(calls).len(),
    ensures
        answered(deliveries(calls)).to_multiset() == unanswered(calls).to_multiset(),
{
    law_deliveries_answer_all(states, calls);
    lemma_unanswered_are_in_flight(states, calls);
    let launched = all_in_flight(calls);
    assert(held(states[0].state()).add(launched.to_multiset()) =~= launched.to_multiset());
    assert(lists_contexts(launched.to_multiset(), unanswered(calls)));
    lemma_contexts_permute(
        launched.to_multiset(),
        answered(deliveries(calls)),
        unanswered(calls),
    );
}

/// The submissions that return nothing are those that put an op in flight.
proof fn lemma_unanswered_are_in_flight(
    states: Seq<FuturesUnorderedDriver>,
    calls: Seq<DriverCall>,
)
    requires
        is_history(states, calls),
    ensures
        unanswered(calls) == all_in_flight(calls).map_values(|op: OpFuture| op.info),
    decreases calls.len(),
{
    if calls.len() > 0 {
        lemma_history_without_last(states, calls);
        lemma_unanswered_are_in_flight(states.drop_last(), calls.drop_last());
        match calls.last() {
            DriverCall::NestedPoll { task, poll, r } => {
                law_reentrant_poll_conserves(
                    states[calls.len() - 1],
                    states.last(),
                    task,
                    poll,
                    r,
                );
                law_reentry_only_buffers(poll.states, poll.calls);
            },
            _ => {},
        }
    }
    assert(unanswered(calls) =~= all_in_flight(calls).map_values(|op: OpFuture| op.info));
}

/// Sequences of the same things in another order are mapped to such sequences.
proof fn lemma_map_permutes<A, B>(a: Seq<A>, b: Seq<A>, f: spec_fn(A) -> B)
    requires
        a.to_multiset() == b.to_multiset(),
    ensures
        a.map_values(f).to_multiset() == b.map_values(f).to_multiset(),
    decreases a.len(),
{
    broadcast use vstd::seq_lib::group_to_multiset_ensures;

    assert(a.len() == a.to_multiset().len());
    assert(b.len() == b.to_multiset().len());
    if a.len() == 0 {
        assert(a.map_values(f) =~= b.map_values(f));
    } else {
        let last: int = a.len() - 1;
        assert(a.contains(a[last]));
        assert(b.to_multiset().count(a[last]) > 0);
        let i = choose|i: int| 0 <= i < b.len() && b[i] == a[last];
        lemma_map_permutes(a.remove(last), b.remove(i), f);
        assert(a.map_values(f).remove(last) =~= a.remove(last).map_values(f));
        assert(b.map_values(f).remove(i) =~= b.remove(i).map_values(f));
        let x = f(a[last]);
        let a_mapped = a.map_values(f).to_multiset();
        let b_mapped = b.map_values(f).to_multiset();
        assert(a.map_values(f).contains(a.map_values(f)[last]));
        assert(b.map_values(f).contains(b.map_values(f)[i]));
        assert(a_mapped =~= a_mapped.remove(x).insert(x));
        assert(b_mapped =~= b_mapped.remove(x).insert(x));
    }
}

/// The tasks from which the ops on the queue have been polled since the last shutdown, oldest
/// first: `earlier` are those before `call`, which was made on `before`.
pub open spec fn polls_after(
    earlier: Seq<int>,
    before: FuturesUnorderedDriver,
    call: DriverCall,
) -> Seq<int> {
    match call {
        DriverCall::Poll { task, .. } if held(before.state()).len() > 0 => earlier.push(task),
        DriverCall::NestedPoll { task, .. } => earlier.push(task),
        DriverCall::Shutdown => Seq::empty(),
        _ => earlier,
    }
}

/// The tasks that polled in a history while something was on the queue, since the last shutdown,
/// oldest first.
pub open spec fn polls_of_history(
    states: Seq<FuturesUnorderedDriver>,
    calls: Seq<DriverCall>,
) -> Seq<int>
    decreases calls.len(),
{
    if calls.len() == 0 {
        polls_among(history(states[0].state()))
    } else {
        polls_after(
            polls_of_history(states.drop_last(), calls.drop_last()),
            states[calls.len() - 1],
            calls.last(),
        )
    }
}

/// Ops in flight are polled inside polls of the driver alone, once for each poll that finds any,
/// and with its task: no other call polls them, neither a submission from inside a poll nor a
/// shutdown, after which there is nothing left that has been polled.
pub proof fn law_ops_are_polled_in_polls(
    states: Seq<FuturesUnorderedDriver>,
    calls: Seq<DriverCall>,
)
    requires
        is_history(states, calls),
        !states[0].state().is_borrowed(),
    ensures
        !states.last().state().is_borrowed(),
        polls_among(history(states.last().state())) == polls_of_history(states, calls),
    decreases calls.len(),
{
    if calls.len() > 0 {
        let n = calls.len() - 1;
        lemma_history_without_last(states, calls);
        law_ops_are_polled_in_polls(states.drop_last(), calls.drop_last());
        let before = states[n].state();
        let after = states[n + 1].state();
        match calls.last() {
            DriverCall::Shutdown => {},
            DriverCall::Poll { task, r } => {
                lemma_call_conserves(states[n], calls.last(), states[n + 1]);
                let result = match r {
                    Poll::Ready((promise_id, op_id, result)) => Poll::Ready(
                        PendingOp(PendingOpInfo(promise_id, op_id), result),
                    ),
                    Poll::Pending => Poll::Pending,
                };
                lemma_step_polls(before, QueueStep::Poll { task, result }, after);
            },
            DriverCall::NestedPoll { task, poll, r } => {
                lemma_call_conserves(states[n], calls.last(), states[n + 1]);
                lemma_spawns_poll_nothing(history(before), before.pending());
                assert(history(after).drop_last() =~= history(before) + spawns(before.pending()));
            },
            _ => {
                lemma_call_conserves(states[n], calls.last(), states[n + 1]);
                let joined = put_in_flight(calls.last());
                if joined.len() > 0 {
                    lemma_step_polls(before, QueueStep::Spawn { f: joined[0] }, after);
                }
            },
        }
    }
}

/// Every op that was put in flight since the last shutdown was done already, with its result at
/// hand.
pub open spec fn holds_only_done(driver: FuturesUnorderedDriver) -> bool {
    &&& !driver.state().is_borrowed()
    &&& only_done(history(driver.state()))
    &&& all_done(driver.state().pending())
}

/// All of `ops` are done, with their results at hand.
pub open spec fn all_done(ops: Seq<OpFuture>) -> bool {
    forall|i: int| 0 <= i < ops.len() ==> (#[trigger] ops[i]).is_done()
}

/// A driver on which only ops that were done already were put in flight, such as deferred ones that
/// were ready at once, holds no others, whatever else was called.
pub proof fn law_only_done_is_kept(
    states: Seq<FuturesUnorderedDriver>,
    calls: Seq<DriverCall>,
)
    requires
        is_history(states, calls),
        holds_only_done(states[0]),
        all_done(all_in_flight(calls)),
    ensures
        holds_only_done(states.last()),
    decreases calls.len(),
{
    if calls.len() > 0 {
        let n = calls.len() - 1;
        let first_calls = calls.drop_last();
        lemma_history_without_last(states, calls);
        let joined = put_in_flight(calls.last());
        assert forall|i: int| 0 <= i < all_in_flight(first_calls).len() implies (
        #[trigger] all_in_flight(first_calls)[i]).is_done() by {
            assert(all_in_flight(calls)[i] == all_in_flight(first_calls)[i]);
        }
        assert forall|i: int| 0 <= i < joined.len() implies (#[trigger] joined[i]).is_done() by {
            assert(all_in_flight(calls)[all_in_flight(first_calls).len() + i] == joined[i]);
        }
        law_only_done_is_kept(states.drop_last(), first_calls);
        let before = states[n].state();
        let after = states[n + 1].state();
        lemma_spawns_only_done(history(before), before.pending());
        match calls.last() {
            DriverCall::Poll { task, r } => {
                lemma_poll_of_done(states[n], states[n + 1], task, r);
            },
            DriverCall::NestedPoll { task, poll, r } => {
                law_reentrant_poll_conserves(states[n], states[n + 1], task, poll, r);
                law_reentry_only_buffers(poll.states, poll.calls);
                assert(after.pending() =~= joined);
                assert(all_done(after.pending()));
                assert(only_done(history(after)));
            },
            DriverCall::Shutdown => {},
            _ => {
                if joined.len() > 0 {
                    assert(joined[0].is_done());
                    assert(after.pending() =~= before.pending());
                    assert(history(after) == history(before).push(
                        CollectionCall::Spawn(joined[0]),
                    ));
                }
            },
        }
    }
}

/// Putting ops that are done into a set that only such ops were put into leaves it so.
proof fn lemma_spawns_only_done(calls: Seq<CollectionCall<OpFuture>>, ops: Seq<OpFuture>)
    requires
        only_done(calls),
        all_done(ops),
    ensures
        only_done(calls + spawns(ops)),
{
    let all = calls + spawns(ops);
    assert forall|i: int| 0 <= i < all.len() implies (
    #[trigger] all[i] matches CollectionCall::Spawn(op) ==> op.is_done()) by {
        if i < calls.len() {
            assert(all[i] == calls[i]);
        } else {
            assert(all[i] == CollectionCall::Spawn(ops[i - calls.len()]));
        }
    }
}

/// A poll of a driver that holds only ops that are done delivers one of them, if it holds any.
proof fn lemma_poll_of_done(
    before: FuturesUnorderedDriver,
    after: FuturesUnorderedDriver,
    task: int,
    r: Poll<(PromiseId, OpId, OpResult)>,
)
    requires
        holds_only_done(before),
        before.readied(&after, task, r),
    ensures
        holds_only_done(after),
        held(before.state()).len() > 0 ==> r is Ready,
{
    let found: Poll<PendingOp> = match r {
        Poll::Ready((promise_id, op_id, result)) => Poll::Ready(
            PendingOp(PendingOpInfo(promise_id, op_id), result),
        ),
        Poll::Pending => Poll::Pending,
    };
    let lent = choose|lent: Ops| #[trigger]
        polled_through(before.state(), after.state(), task, lent, found);
    assert(polled_through(before.state(), after.state(), task, lent, found));
    lemma_spawns_only_done(history(before.state()), before.state().pending());
    lemma_poll_buffers_nothing(before.state(), after.state(), task, found);
}

/// A driver that holds only ops that are done delivers all of them, one with each poll: of as many
/// polls as there are ops, each delivers, the promises and the ops delivered are those of the ops,
/// in some order, and then nothing is left. A driver that counted exactly counts nothing then.
pub proof fn law_done_ops_are_all_delivered(
    states: Seq<FuturesUnorderedDriver>,
    calls: Seq<DriverCall>,
)
    requires
        is_history(states, calls),
        holds_only_done(states[0]),
        forall|i: int| 0 <= i < calls.len() ==> #[trigger] calls[i] is Poll,
        calls.len() == held(states[0].state()).len(),
    ensures
        forall|i: int| 0 <= i < calls.len() ==> delivery(#[trigger] calls[i]) is Some,
        deliveries(calls).len() == calls.len(),
        lists_contexts(held(states[0].state()), answered(deliveries(calls))),
        held(states.last().state()) == Multiset::<OpFuture>::empty(),
        counts_exactly(states[0]) ==> states.last().count() == 0,
        forall|after: FuturesUnorderedDriver, task: int, r: Poll<(PromiseId, OpId, OpResult)>|
            #[trigger] states.last().readied(&after, task, r) ==> r is Pending,
{
    lemma_polls_of_done(states, calls);
    lemma_polls_launch_nothing(calls);
    let none = all_in_flight(calls);
    assert(held(states[0].state()).add(none.to_multiset()) =~= held(states[0].state())) by {
        broadcast use vstd::seq_lib::group_to_multiset_ensures;

    }
    assert(without_shutdown(calls));
    law_deliveries_answer_all(states, calls);
}

/// Polls put nothing in flight.
proof fn lemma_polls_launch_nothing(calls: Seq<DriverCall>)
    requires
        forall|i: int| 0 <= i < calls.len() ==> #[trigger] calls[i] is Poll,
    ensures
        all_in_flight(calls) == Seq::<OpFuture>::empty(),
        unanswered(calls) == Seq::<PendingOpInfo>::empty(),
    decreases calls.len(),
{
    if calls.len() > 0 {
        let first_calls = calls.drop_last();
        assert forall|i: int| 0 <= i < first_calls.len() implies #[trigger] first_calls[i] is Poll by {
            assert(calls[i] is Poll);
        }
        assert(calls[calls.len() - 1] is Poll);
        lemma_polls_launch_nothing(first_calls);
    }
    assert(all_in_flight(calls) =~= Seq::<OpFuture>::empty());
    assert(unanswered(calls) =~= Seq::<PendingOpInfo>::empty());
}

/// Polls of a driver that holds only ops that are done each deliver, as long as there are ops.
proof fn lemma_polls_of_done(states: Seq<FuturesUnorderedDriver>, calls: Seq<DriverCall>)
    requires
        is_history(states, calls),
        holds_only_done(states[0]),
        forall|i: int| 0 <= i < calls.len() ==> #[trigger] calls[i] is Poll,
        calls.len() <= held(states[0].state()).len(),
    ensures
        forall|i: int| 0 <= i < calls.len() ==> delivery(#[trigger] calls[i]) is Some,
        deliveries(calls).len() == calls.len(),
        holds_only_done(states.last()),
        held(states.last().state()).len() == held(states[0].state()).len() - calls.len(),
    decreases calls.len(),
{
    if calls.len() > 0 {
        let n = calls.len() - 1;
        let first_calls = calls.drop_last();
        lemma_history_without_last(states, calls);
        assert forall|i: int| 0 <= i < first_calls.len() implies #[trigger] first_calls[i] is Poll by {
            assert(calls[i] is Poll);
        }
        lemma_polls_of_done(states.drop_last(), first_calls);
        assert(calls[n] is Poll);
        match calls.last() {
            DriverCall::Poll { task, r } => {
                lemma_poll_of_done(states[n], states[n + 1], task, r);
                law_delivery_takes_one(states[n], states[n + 1], task, r);
            },
            _ => {},
        }
        assert forall|i: int| 0 <= i < calls.len() implies delivery(#[trigger] calls[i]) is Some by {
            if i < n {
                assert(delivery(first_calls[i]) is Some);
            }
        }
    }
}

/// What one step on the queue polls.
proof fn lemma_step_polls(
    before: Queue<Ops, OpFuture>,
    step: QueueStep<Ops>,
    after: Queue<Ops, OpFuture>,
)
    requires
        !before.is_borrowed(),
        steps_to(before, step, after),
    ensures
        polls_among(history(after)) == match step {
            QueueStep::Poll { task, .. } if held(before).len() > 0 => polls_among(
                history(before),
            ).push(task),
            _ => polls_among(history(before)),
        },
{
    let states = seq![before, after];
    let steps = seq![step];
    law_only_polls_poll(states, steps);
    assert(steps.last() == step);
    assert(steps.drop_last() =~= Seq::<QueueStep<Ops>>::empty());
    assert(polls_of_run(states.drop_last(), steps.drop_last()) =~= Seq::<int>::empty());
    assert(polls_among(history(before)) + Seq::<int>::empty() =~= polls_among(history(before)));
    match step {
        QueueStep::Poll { task, .. } if held(before).len() > 0 => {
            assert(polls_of_run(states, steps) =~= Seq::empty().push(task));
            assert(polls_among(history(after)) =~= polls_among(history(before)).push(task));
        },
        _ => {},
    }
}

/// An op that can fail and one that cannot are scheduled alike: submitted to the same driver under
/// the same promise and op, with first polls that are both done or both not, both are answered at
/// once or neither is, and the drivers are told apart neither by their length, nor by whom they
/// wake, nor by the ops that their stats list.
pub proof fn law_fallible_and_infallible_are_alike(
    before: FuturesUnorderedDriver,
    fallible: FuturesUnorderedDriver,
    infallible: FuturesUnorderedDriver,
    info: PendingOpInfo,
    deferred: bool,
    first: Poll<OpResult>,
    first_value: Poll<OpValue>,
    work: OpWork,
    value_work: OpWork,
    returned: Option<OpResult>,
    returned_value: Option<OpValue>,
    contexts: Seq<PendingOpInfo>,
    value_contexts: Seq<PendingOpInfo>,
    excluded: Set<usize>,
)
    requires
        before.submitted(&fallible, info, deferred, first, work, returned),
        before.submitted(
            &infallible,
            info,
            deferred,
            value_polled(first_value),
            value_work,
            value_returned(returned_value),
        ),
        first is Ready <==> first_value is Ready,
        !before.state().is_borrowed() ==> lists_contexts(in_flight(fallible.state()), contexts),
        !before.state().is_borrowed() ==> lists_contexts(
            in_flight(infallible.state()),
            value_contexts,
        ),
    ensures
        returned is Some <==> returned_value is Some,
        fallible.count() == infallible.count(),
        fallible.state().registered() == infallible.state().registered(),
        fallible.state().wakeups() == infallible.state().wakeups(),
        fallible.state().pending().len() == infallible.state().pending().len(),
        !before.state().is_borrowed() ==> not_excluded(contexts, excluded).to_multiset()
            == not_excluded(value_contexts, excluded).to_multiset(),
{
    let op = put_in_flight(DriverCall::Submit { info, deferred, first, work, returned });
    let value_op = put_in_flight(
        DriverCall::Submit {
            info,
            deferred,
            first: value_polled(first_value),
            work: value_work,
            returned: value_returned(returned_value),
        },
    );
    if !before.state().is_borrowed() {
        if op.len() > 0 {
            lemma_contexts_with(
                in_flight(before.state()),
                op[0],
                value_op[0],
                contexts,
                value_contexts,
            );
        } else {
            lemma_contexts_permute(in_flight(before.state()), contexts, value_contexts);
        }
        lemma_filter_permutes(
            contexts,
            value_contexts,
            |info: PendingOpInfo| !excluded.contains(info.1 as usize),
        );
    }
}

/// The same of lazy submissions, which poll neither op.
pub proof fn law_lazy_fallible_and_infallible_are_alike(
    before: FuturesUnorderedDriver,
    fallible: FuturesUnorderedDriver,
    infallible: FuturesUnorderedDriver,
    info: PendingOpInfo,
    work: LocalFutureObj<'static, OpResult>,
    value_work: LocalFutureObj<'static, OpValue>,
    contexts: Seq<PendingOpInfo>,
    value_contexts: Seq<PendingOpInfo>,
    excluded: Set<usize>,
)
    requires
        before.launched(&fallible, OpFuture { info, work: OpWork::Fallible(work) }),
        before.launched(&infallible, OpFuture { info, work: OpWork::Infallible(value_work) }),
        !before.state().is_borrowed() ==> lists_contexts(in_flight(fallible.state()), contexts),
        !before.state().is_borrowed() ==> lists_contexts(
            in_flight(infallible.state()),
            value_contexts,
        ),
    ensures
        fallible.count() == infallible.count(),
        fallible.state().registered() == infallible.state().registered(),
        fallible.state().wakeups() == infallible.state().wakeups(),
        fallible.state().pending().len() == infallible.state().pending().len(),
        !before.state().is_borrowed() ==> not_excluded(contexts, excluded).to_multiset()
            == not_excluded(value_contexts, excluded).to_multiset(),
{
    if !before.state().is_borrowed() {
        lemma_contexts_with(
            in_flight(before.state()),
            OpFuture { info, work: OpWork::Fallible(work) },
            OpFuture { info, work: OpWork::Infallible(value_work) },
            contexts,
            value_contexts,
        );
        lemma_filter_permutes(
            contexts,
            value_contexts,
            |info: PendingOpInfo| !excluded.contains(info.1 as usize),
        );
    }
}

/// Two lists of the contexts of the same ops are the same but for their order.
proof fn lemma_contexts_permute(
    ops: Multiset<OpFuture>,
    a: Seq<PendingOpInfo>,
    b: Seq<PendingOpInfo>,
)
    requires
        lists_contexts(ops, a),
        lists_contexts(ops, b),
    ensures
        a.to_multiset() == b.to_multiset(),
{
    let info = |op: OpFuture| op.info;
    let order_a = choose|order: Seq<OpFuture>| #[trigger]
        order.to_multiset() == ops && a == order.map_values(info);
    let order_b = choose|order: Seq<OpFuture>| #[trigger]
        order.to_multiset() == ops && b == order.map_values(info);
    lemma_map_permutes(order_a, order_b, info);
}

/// Lists of the contexts of the same ops and one more are the same but for their order, if that
/// one has the same context in both.
proof fn lemma_contexts_with(
    ops: Multiset<OpFuture>,
    f: OpFuture,
    g: OpFuture,
    a: Seq<PendingOpInfo>,
    b: Seq<PendingOpInfo>,
)
    requires
        lists_contexts(ops.insert(f), a),
        lists_contexts(ops.insert(g), b),
        f.info == g.info,
    ensures
        a.to_multiset() == b.to_multiset(),
{
    broadcast use vstd::seq_lib::group_to_multiset_ensures;

    let info = |op: OpFuture| op.info;
    let order_a = choose|order: Seq<OpFuture>| #[trigger]
        order.to_multiset() == ops.insert(f) && a == order.map_values(info);
    assert(order_a.to_multiset().count(f) > 0);
    let i = choose|i: int| 0 <= i < order_a.len() && order_a[i] == f;
    let order_b = order_a.remove(i).push(g);
    assert(order_b.to_multiset() =~= ops.insert(g));
    assert(order_b.map_values(info) =~= a.remove(i).push(g.info));
    assert(a.contains(a[i]));
    assert(order_b.map_values(info).to_multiset() =~= a.to_multiset());
    lemma_contexts_permute(ops.insert(g), order_b.map_values(info), b);
}

/// What a filter keeps of the same things in another order is the same but for its order.
proof fn lemma_filter_permutes<A>(a: Seq<A>, b: Seq<A>, keep: spec_fn(A) -> bool)
    requires
        a.to_multiset() == b.to_multiset(),
    ensures
        a.filter(keep).to_multiset() == b.filter(keep).to_multiset(),
{
    assert forall|x: A| a.filter(keep).to_multiset().count(x) == #[trigger] b.filter(
        keep,
    ).to_multiset().count(x) by {
        lemma_filter_count(a, keep, x);
        lemma_filter_count(b, keep, x);
    }
    assert(a.filter(keep).to_multiset() =~= b.filter(keep).to_multiset());
}

/// A filter keeps all of what it keeps at all.
pub(crate) proof fn lemma_filter_count<A>(s: Seq<A>, keep: spec_fn(A) -> bool, x: A)
    ensures
        s.filter(keep).to_multiset().count(x) == if keep(x) {
            s.to_multiset().count(x)
        } else {
            0
        },
    decreases s.len(),
{
    broadcast use vstd::seq_lib::group_to_multiset_ensures;

    reveal(Seq::filter);
    if s.len() == 0 {
        assert(s.filter(keep) =~= Seq::empty());
        assert(!s.contains(x));
    } else {
        lemma_filter_count(s.drop_last(), keep, x);
        assert(s =~= s.drop_last().push(s.last()));
    }
}

} // verus!
