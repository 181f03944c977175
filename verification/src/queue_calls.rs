//! What each call on a submission queue does, told by what goes into the call and what comes out
//! of it.
use core::task::Context;
use core::task::Poll;
use std::collections::VecDeque;

use futures::stream::FuturesUnordered;
use vstd::multiset::Multiset;
use vstd::prelude::*;

use crate::op_futures::ops_history;
use crate::op_futures::ops_in_flight;
use crate::op_futures::OpFuture;
use crate::op_futures::OpWork;
use crate::op_results::PendingOp;
use crate::op_results::PendingOpInfo;
use crate::submission_queue::buffered;
use crate::submission_queue::new_submission_queue;
use crate::submission_queue::poll_begun;
use crate::submission_queue::poll_lent;
use crate::submission_queue::polled;
use crate::submission_queue::polled_in;
use crate::submission_queue::polled_through;
use crate::submission_queue::registered_after;
use crate::submission_queue::spawned;
use crate::submission_queue::spawns;
use crate::submission_queue::woken_in;
use crate::submission_queue::Buffer;
use crate::submission_queue::CollectionCall;
use crate::submission_queue::Queue;
use crate::submission_queue::Reentry;
use crate::submission_queue::SubmissionQueue;
use crate::submission_queue::SubmissionQueueFutures;
use crate::submission_queue::SubmissionQueueResults;
use crate::waker::context_task;

verus! {

/// What happens from inside a collection adds up one by one. A submission joins the end of the
/// buffer, and wakes the task that is registered then. A poll makes its task the registered one, and
/// wakes nobody.
pub proof fn law_reentries_one_by_one<Fut>(
    registered: Option<int>,
    earlier: Seq<Reentry<Fut>>,
    f: Fut,
    task: int,
)
    ensures
        buffered(Seq::<Reentry<Fut>>::empty()).len() == 0,
        !polled_in(Seq::<Reentry<Fut>>::empty()),
        registered_after(registered, Seq::<Reentry<Fut>>::empty()) == registered,
        woken_in(registered, Seq::<Reentry<Fut>>::empty()).len() == 0,
        buffered(earlier.push(Reentry::Spawn(f))) == buffered(earlier).push(f),
        polled_in(earlier.push(Reentry::Spawn(f))) == polled_in(earlier),
        registered_after(registered, earlier.push(Reentry::Spawn(f))) == registered_after(
            registered,
            earlier,
        ),
        match registered_after(registered, earlier) {
            Some(waiting) => woken_in(registered, earlier.push(Reentry::Spawn(f))) == woken_in(
                registered,
                earlier,
            ).push(waiting),
            None => woken_in(registered, earlier.push(Reentry::Spawn(f))) == woken_in(
                registered,
                earlier,
            ),
        },
        buffered(earlier.push(Reentry::Poll(task))) == buffered(earlier),
        polled_in(earlier.push(Reentry::Poll(task))),
        registered_after(registered, earlier.push(Reentry::Poll(task))) == Some(task),
        woken_in(registered, earlier.push(Reentry::Poll(task))) == woken_in(registered, earlier),
{
    let spawn = earlier.push(Reentry::Spawn(f));
    let poll = earlier.push(Reentry::Poll(task));
    assert(spawn.drop_last() =~= earlier);
    assert(poll.drop_last() =~= earlier);
    assert(poll[earlier.len() as int] is Poll);
    if polled_in(earlier) {
        let i = choose|i: int| 0 <= i < earlier.len() && #[trigger] earlier[i] is Poll;
        assert(spawn[i] is Poll);
    }
    if polled_in(spawn) {
        let i = choose|i: int| 0 <= i < spawn.len() && #[trigger] spawn[i] is Poll;
        assert(earlier[i] is Poll);
    }
}

/// What happens to a buffer from inside a collection is what happens one by one.
pub proof fn law_buffer_reentered<Fut>(
    before: Buffer<Fut>,
    after: Buffer<Fut>,
    reentries: Seq<Reentry<Fut>>,
)
    ensures
        before.reentered(&after, reentries) <==> {
            &&& after.pending() == before.pending() + buffered(reentries)
            &&& after.overtaken() == (before.overtaken() || polled_in(reentries))
            &&& after.registered() == registered_after(before.registered(), reentries)
            &&& after.wakeups() == before.wakeups() + woken_in(before.registered(), reentries)
            &&& after.nested() == registered_after(before.nested(), reentries)
            &&& after.nested_wakeups() == before.nested_wakeups()
            &&& after.id() == before.id()
        },
{
}

/// A submission to a queue with its collection in place puts the future into it. With the
/// collection handed out the future joins the end of the buffer. Either way the registered task is
/// woken, and what happens from inside the collection happens before that.
pub proof fn law_spawn_in_full<F: SubmissionQueueFutures>(
    before: Queue<F, F::Future>,
    after: Queue<F, F::Future>,
    f: F::Future,
)
    requires
        spawned(before, after, f),
    ensures
        after.id() == before.id(),
        after.nested_wakeups() == before.nested_wakeups(),
        match before.futures() {
            None => {
                &&& after.futures() is None
                &&& after.pending() == before.pending().push(f)
                &&& after.registered() == before.registered()
                &&& after.buffer().overtaken() == before.buffer().overtaken()
                &&& after.buffer().nested() == before.buffer().nested()
                &&& match before.registered() {
                    Some(task) => after.wakeups() == before.wakeups().push(task),
                    None => after.wakeups() == before.wakeups(),
                }
            },
            Some(start) => {
                &&& after.futures() matches Some(end)
                &&& start.reentries().is_prefix_of(end.reentries())
                &&& end.in_flight() == start.in_flight().insert(f)
                &&& end.history() == start.history().push(CollectionCall::Spawn(f))
                &&& ({
                    let inside = end.reentries().skip(start.reentries().len() as int);
                    let woken = before.wakeups() + woken_in(before.registered(), inside);
                    &&& after.pending() == before.pending() + buffered(inside)
                    &&& after.registered() == registered_after(before.registered(), inside)
                    &&& match after.registered() {
                        Some(task) => after.wakeups() == woken.push(task),
                        None => after.wakeups() == woken,
                    }
                })
            },
        },
{
}

/// A poll of a queue with its collection handed out is pending, registers its task, and changes
/// nothing else but that it is noted. Any other poll puts the buffer into the collection, oldest
/// first, and polls the collection once, unless it is empty, and gives what that poll gave. One
/// future that was there completes and leaves, or none does. The task is registered before and after
/// the buffer is put in. Only a poll that gives something wakes a task that polled meanwhile.
pub proof fn law_poll_in_full<F: SubmissionQueueFutures>(
    before: Queue<F, F::Future>,
    after: Queue<F, F::Future>,
    task: int,
    r: Poll<F::Output>,
)
    requires
        polled(before, after, task, r),
    ensures
        after.id() == before.id(),
        match before.futures() {
            None => {
                &&& r is Pending
                &&& after.futures() is None
                &&& after.pending() == before.pending()
                &&& after.registered() == Some(task)
                &&& after.wakeups() == before.wakeups()
                &&& after.buffer().overtaken()
                &&& after.buffer().nested() == Some(task)
                &&& after.nested_wakeups() == before.nested_wakeups()
            },
            Some(start) => !after.is_borrowed() && exists|lent: F| #![trigger lent.in_flight()]
                {
                    let end = after.futures()->0;
                    let first = lent.reentries().skip(start.reentries().len() as int);
                    let second = end.reentries().skip(lent.reentries().len() as int);
                    &&& start.reentries().is_prefix_of(lent.reentries())
                    &&& lent.reentries().is_prefix_of(end.reentries())
                    &&& lent.in_flight() == start.in_flight().add(before.pending().to_multiset())
                    &&& lent.history() == start.history() + before.pending().map_values(
                        |f: F::Future| CollectionCall::Spawn(f),
                    )
                    &&& if lent.in_flight().len() > 0 {
                        &&& end.history() == lent.history().push(CollectionCall::Poll(task))
                        &&& lent.due() ==> r is Ready
                        &&& match r {
                            Poll::Ready(out) => exists|f: F::Future| #[trigger]
                                lent.in_flight().contains(f) && F::yields(f, out)
                                    && end.in_flight() == lent.in_flight().remove(f),
                            Poll::Pending => end.in_flight() == lent.in_flight(),
                        }
                    } else {
                        end == lent && r is Pending
                    }
                    &&& after.pending() == buffered(first) + buffered(second)
                    &&& !after.buffer().overtaken()
                    &&& after.registered() == registered_after(Some(task), second)
                    &&& after.wakeups() == before.wakeups() + woken_in(Some(task), first)
                        + woken_in(Some(task), second)
                    &&& after.buffer().nested() == registered_after(
                        before.buffer().nested(),
                        first + second,
                    )
                    &&& match (
                        r is Ready && polled_in(first + second),
                        after.buffer().nested(),
                    ) {
                        (true, Some(nested)) => after.nested_wakeups()
                            == before.nested_wakeups().push(nested),
                        _ => after.nested_wakeups() == before.nested_wakeups(),
                    }
                },
        },
{
    if !before.is_borrowed() {
        let lent = choose|lent: F| #[trigger] polled_through(before, after, task, lent, r);
        assert(polled_through(before, after, task, lent, r));
        assert(spawns(before.pending()) =~= before.pending().map_values(
            |f: F::Future| CollectionCall::Spawn(f),
        ));
        assert(lent.in_flight() == before.futures()->0.in_flight().add(
            before.pending().to_multiset(),
        ));
    }
}

/// A collection that is handed out to be polled holds what was in the collection and in the buffer,
/// put in oldest first, and the task is registered. The buffer then holds what was submitted
/// meanwhile.
pub proof fn law_lent_in_full<F: SubmissionQueueFutures>(
    before: Queue<F, F::Future>,
    after: Buffer<F::Future>,
    task: int,
    lent: F,
)
    requires
        poll_lent(before, after, task, lent),
    ensures
        ({
            let start = before.futures()->0;
            let inside = lent.reentries().skip(start.reentries().len() as int);
            &&& start.reentries().is_prefix_of(lent.reentries())
            &&& lent.in_flight() == start.in_flight().add(before.pending().to_multiset())
            &&& lent.history() == start.history() + before.pending().map_values(
                |f: F::Future| CollectionCall::Spawn(f),
            )
            &&& after.pending() == buffered(inside)
            &&& after.overtaken() == polled_in(inside)
            &&& after.registered() == Some(task)
            &&& after.wakeups() == before.wakeups() + woken_in(Some(task), inside)
            &&& after.nested() == registered_after(before.buffer().nested(), inside)
            &&& after.nested_wakeups() == before.nested_wakeups()
            &&& after.id() == before.id()
        }),
{
    assert(spawns(before.pending()) =~= before.pending().map_values(
        |f: F::Future| CollectionCall::Spawn(f),
    ));
}

/// Starting a poll hands the collection out just if it is in place and there is anything in it or
/// in the buffer. Where there is nothing the collection stays in place, and where it is out already
/// the poll is noted and is over.
pub proof fn law_begin_in_full<F: SubmissionQueueFutures>(
    before: Queue<F, F::Future>,
    after: Queue<F, F::Future>,
    task: int,
    lent: Option<F>,
)
    requires
        poll_begun(before, after, task, lent),
    ensures
        match before.futures() {
            None => {
                &&& lent is None
                &&& after.futures() is None
                &&& after.pending() == before.pending()
                &&& after.registered() == Some(task)
                &&& after.wakeups() == before.wakeups()
                &&& after.buffer().overtaken()
                &&& after.buffer().nested() == Some(task)
                &&& after.nested_wakeups() == before.nested_wakeups()
            },
            Some(start) => {
                &&& lent is Some <==> start.in_flight().add(before.pending().to_multiset()).len() > 0
                &&& lent is Some ==> after.futures() is None && poll_lent(
                    before,
                    after.buffer(),
                    task,
                    lent->0,
                )
                &&& lent is None ==> !after.is_borrowed() && after.registered() == Some(task)
                    && after.futures()->0.in_flight() == start.in_flight().add(
                    before.pending().to_multiset(),
                ) && after.nested_wakeups() == before.nested_wakeups()
            },
        },
{
}

/// Each call on a queue is what the laws above say of it.
pub proof fn law_queue_calls<F: SubmissionQueueFutures>()
    ensures
        forall|queue: SubmissionQueue<F>, state: &mut Queue<F, F::Future>, f: F::Future| #[trigger]
            call_ensures(SubmissionQueue::<F>::spawn, (&queue, state, f), ()) ==> spawned(
                *state,
                *final(state),
                f,
            ),
        forall|
            results: SubmissionQueueResults<F>,
            state: &mut Queue<F, F::Future>,
            cx: &mut Context<'_>,
            r: Poll<F::Output>,
        | #[trigger]
            call_ensures(SubmissionQueueResults::<F>::poll_next_unpin, (&results, state, cx), r)
                ==> polled(*state, *final(state), context_task(*cx), r),
        forall|
            results: SubmissionQueueResults<F>,
            state: &mut Queue<F, F::Future>,
            cx: Context<'_>,
            lent: Option<F>,
        | #[trigger]
            call_ensures(SubmissionQueueResults::<F>::begin_poll_next, (&results, state, &cx), lent)
                ==> poll_begun(*state, *final(state), context_task(cx), lent),
{
}

/// A poll that finds anything polls the collection, in the same context, once the buffer is put into
/// it, and gives what that poll gives.
pub proof fn law_poll_passes_on<F: SubmissionQueueFutures>()
    ensures
        forall|
            results: SubmissionQueueResults<F>,
            state: &mut Queue<F, F::Future>,
            cx: &mut Context<'_>,
            r: Poll<F::Output>,
        | #[trigger]
            call_ensures(SubmissionQueueResults::<F>::poll_next_unpin, (&results, state, cx), r)
                && !state.is_borrowed() && state.futures()->0.in_flight().add(
                state.pending().to_multiset(),
            ).len() > 0 ==> exists|
                futures: &mut F,
                c: &mut Context<'_>,
                owner: &mut Buffer<F::Future>,
            | #[trigger]
                call_ensures(F::poll_next_unpin, (futures, c, owner), r) && *c == *cx
                    && futures.in_flight() == state.futures()->0.in_flight().add(
                    state.pending().to_multiset(),
                ) && final(state).futures() == Some(*final(futures)),
{
}

/// Finishing a poll puts the collection back as it is given, keeps the buffer and the registered
/// task, and wakes a task that polled meanwhile just if there was progress.
pub proof fn law_finish<F: SubmissionQueueFutures>()
    ensures
        forall|
            results: SubmissionQueueResults<F>,
            state: &mut Queue<F, F::Future>,
            futures: F,
            progress: bool,
        | #[trigger]
            call_ensures(
                SubmissionQueueResults::<F>::finish_poll_next,
                (&results, state, futures, progress),
                (),
            ) ==> {
                &&& final(state).futures() == Some(futures)
                &&& final(state).pending() == state.pending()
                &&& final(state).registered() == state.registered()
                &&& final(state).wakeups() == state.wakeups()
                &&& !final(state).buffer().overtaken()
                &&& match (progress && state.buffer().overtaken(), state.buffer().nested()) {
                    (true, Some(nested)) => final(state).nested_wakeups()
                        == state.nested_wakeups().push(nested),
                    _ => final(state).nested_wakeups() == state.nested_wakeups(),
                }
                &&& final(state).id() == state.id()
            },
{
}

/// From inside a call into the collection, a submission joins the end of the buffer and wakes the
/// registered task, and a poll is pending, registers its task and is noted.
pub proof fn law_calls_from_inside<F: SubmissionQueueFutures>()
    ensures
        forall|queue: SubmissionQueue<F>, buffer: &mut Buffer<F::Future>, f: F::Future| #[trigger]
            call_ensures(SubmissionQueue::<F>::spawn_inside, (&queue, buffer, f), ()) ==> {
                &&& final(buffer).pending() == buffer.pending().push(f)
                &&& final(buffer).overtaken() == buffer.overtaken()
                &&& final(buffer).registered() == buffer.registered()
                &&& match buffer.registered() {
                    Some(task) => final(buffer).wakeups() == buffer.wakeups().push(task),
                    None => final(buffer).wakeups() == buffer.wakeups(),
                }
                &&& final(buffer).nested() == buffer.nested()
                &&& final(buffer).nested_wakeups() == buffer.nested_wakeups()
                &&& final(buffer).id() == buffer.id()
            },
        forall|
            results: SubmissionQueueResults<F>,
            buffer: &mut Buffer<F::Future>,
            cx: Context<'_>,
            r: Poll<F::Output>,
        | #[trigger]
            call_ensures(SubmissionQueueResults::<F>::poll_inside, (&results, buffer, &cx), r)
                ==> {
                &&& r is Pending
                &&& final(buffer).pending() == buffer.pending()
                &&& final(buffer).overtaken()
                &&& final(buffer).registered() == Some(context_task(cx))
                &&& final(buffer).wakeups() == buffer.wakeups()
                &&& final(buffer).nested() == Some(context_task(cx))
                &&& final(buffer).nested_wakeups() == buffer.nested_wakeups()
                &&& final(buffer).id() == buffer.id()
            },
{
}

/// A new queue is empty, in one piece and wakes nobody, and its rights are for it. What is read of a
/// queue or handed out of it is what it holds.
pub proof fn law_queue_is_made_and_read<F: SubmissionQueueFutures>()
    ensures
        forall|r: (Queue<F, F::Future>, SubmissionQueue<F>, SubmissionQueueResults<F>)| #[trigger]
            call_ensures(new_submission_queue::<F>, (), r) ==> {
                &&& !r.0.is_borrowed()
                &&& r.0.futures()->0.in_flight() == Multiset::<F::Future>::empty()
                &&& r.0.futures()->0.history().len() == 0
                &&& r.0.pending().len() == 0
                &&& r.0.registered() is None
                &&& r.0.wakeups().len() == 0
                &&& r.0.nested_wakeups().len() == 0
                &&& r.1.id() == r.0.id()
                &&& r.2.id() == r.0.id()
            },
        forall|state: Queue<F, F::Future>, queue: SubmissionQueue<F>| #[trigger]
            call_ensures(Queue::<F, F::Future>::submissions, (&state,), queue) ==> queue.id()
                == state.id(),
        forall|state: Queue<F, F::Future>, results: SubmissionQueueResults<F>| #[trigger]
            call_ensures(Queue::<F, F::Future>::results, (&state,), results) ==> results.id()
                == state.id(),
        forall|state: Queue<F, F::Future>, futures: Option<&F>| #[trigger]
            call_ensures(Queue::<F, F::Future>::borrow, (&state,), futures) ==> {
                &&& futures is Some <==> state.futures() is Some
                &&& futures is Some ==> *futures->0 == state.futures()->0
            },
        forall|state: &mut Queue<F, F::Future>, futures: Option<&mut F>| #[trigger]
            call_ensures(Queue::<F, F::Future>::borrow_mut, (state,), futures) ==> {
                &&& futures is Some <==> state.futures() is Some
                &&& futures is None ==> final(state).futures() is None
                &&& futures is Some ==> *futures->0 == state.futures()->0 && final(state).futures()
                    == Some(*final(futures->0))
                &&& final(state).buffer() == state.buffer()
            },
        forall|state: &mut Queue<F, F::Future>, dropped: VecDeque<F::Future>| #[trigger]
            call_ensures(Queue::<F, F::Future>::take_pending, (state,), dropped) ==> {
                &&& dropped@ == state.pending()
                &&& final(state).futures() == state.futures()
                &&& final(state).pending().len() == 0
                &&& final(state).registered() == state.registered()
                &&& final(state).wakeups() == state.wakeups()
                &&& final(state).nested_wakeups() == state.nested_wakeups()
                &&& final(state).id() == state.id()
            },
        forall|state: &mut Queue<F, F::Future>, futures: F| #[trigger]
            call_ensures(Queue::<F, F::Future>::begin_clear, (state,), futures) ==> {
                &&& state.futures() == Some(futures)
                &&& final(state).futures() is None
                &&& final(state).buffer() == state.buffer()
            },
        forall|state: &mut Queue<F, F::Future>, futures: F, dropped: VecDeque<F::Future>|
            #[trigger]
            call_ensures(Queue::<F, F::Future>::finish_clear, (state, futures), dropped) ==> {
                &&& dropped@ == state.pending()
                &&& final(state).futures() == Some(futures)
                &&& final(state).pending().len() == 0
                &&& final(state).registered() == state.registered()
                &&& final(state).wakeups() == state.wakeups()
                &&& final(state).nested_wakeups() == state.nested_wakeups()
                &&& final(state).id() == state.id()
            },
{
}

/// The set of ops is a collection of a queue: it starts empty, counts its ops, takes in an op without
/// polling it, and when it is polled one op completes and leaves, or none does. The queue is not
/// reached from inside it.
pub proof fn law_ops_are_a_collection()
    ensures
        forall|ops: FuturesUnordered<OpFuture>| #[trigger]
            call_ensures(
                <FuturesUnordered<OpFuture> as SubmissionQueueFutures>::default,
                (),
                ops,
            ) ==> ops_in_flight(ops).len() == 0 && ops_history(ops).len() == 0,
        forall|ops: FuturesUnordered<OpFuture>, n: usize| #[trigger]
            call_ensures(
                <FuturesUnordered<OpFuture> as SubmissionQueueFutures>::len,
                (&ops,),
                n,
            ) ==> n == ops_in_flight(ops).len(),
        forall|ops: &mut FuturesUnordered<OpFuture>, f: OpFuture, owner: &mut Buffer<OpFuture>|
            #[trigger]
            call_ensures(
                <FuturesUnordered<OpFuture> as SubmissionQueueFutures>::spawn,
                (ops, f, owner),
                (),
            ) ==> ops_in_flight(*final(ops)) == ops_in_flight(*ops).insert(f) && ops_history(
                *final(ops),
            ) == ops_history(*ops).push(CollectionCall::Spawn(f)),
        forall|
            ops: &mut FuturesUnordered<OpFuture>,
            cx: &mut Context<'_>,
            owner: &mut Buffer<OpFuture>,
            r: Poll<PendingOp>,
        | #[trigger]
            call_ensures(
                <FuturesUnordered<OpFuture> as SubmissionQueueFutures>::poll_next_unpin,
                (ops, cx, owner),
                r,
            ) ==> match r {
                Poll::Ready(op) => exists|f: OpFuture| #[trigger]
                    ops_in_flight(*ops).contains(f) && f.yields(op) && ops_in_flight(*final(ops))
                        == ops_in_flight(*ops).remove(f),
                Poll::Pending => ops_in_flight(*final(ops)) == ops_in_flight(*ops),
            },
        forall|
            ops: &mut FuturesUnordered<OpFuture>,
            cx: &mut Context<'_>,
            owner: &mut Buffer<OpFuture>,
            r: Poll<PendingOp>,
        | #[trigger]
            call_ensures(
                <FuturesUnordered<OpFuture> as SubmissionQueueFutures>::poll_next_unpin,
                (ops, cx, owner),
                r,
            ) ==> {
                let calls = ops_history(*ops);
                &&& ops_history(*final(ops)) == calls.push(CollectionCall::Poll(context_task(*cx)))
                &&& ops_in_flight(*ops).len() > 0 && (forall|i: int|
                    0 <= i < calls.len() ==> (#[trigger] calls[i] matches CollectionCall::Spawn(op)
                        ==> op.work matches OpWork::Done(Some(_)))) ==> r is Ready
                &&& final(owner).pending() == owner.pending()
                &&& final(owner).overtaken() == owner.overtaken()
                &&& final(owner).registered() == owner.registered()
                &&& final(owner).wakeups() == owner.wakeups()
                &&& final(owner).nested() == owner.nested()
                &&& final(owner).nested_wakeups() == owner.nested_wakeups()
            },
{
}

/// A queue takes every submission and every poll by its own rights, and hands its collection out and
/// takes it back whenever it is there and whenever it is not.
pub proof fn law_queue_accepts<F: SubmissionQueueFutures>()
    ensures
        forall|queue: SubmissionQueue<F>, state: &mut Queue<F, F::Future>, f: F::Future|
            state.id() == queue.id() ==> #[trigger] call_requires(
                SubmissionQueue::<F>::spawn,
                (&queue, state, f),
            ),
        forall|
            results: SubmissionQueueResults<F>,
            state: &mut Queue<F, F::Future>,
            cx: &mut Context<'_>,
        |
            state.id() == results.id() ==> #[trigger] call_requires(
                SubmissionQueueResults::<F>::poll_next_unpin,
                (&results, state, cx),
            ),
        forall|
            results: SubmissionQueueResults<F>,
            state: &mut Queue<F, F::Future>,
            cx: Context<'_>,
        |
            state.id() == results.id() ==> #[trigger] call_requires(
                SubmissionQueueResults::<F>::begin_poll_next,
                (&results, state, &cx),
            ),
        forall|
            results: SubmissionQueueResults<F>,
            state: &mut Queue<F, F::Future>,
            futures: F,
            progress: bool,
        |
            state.id() == results.id() && state.futures() is None ==> #[trigger] call_requires(
                SubmissionQueueResults::<F>::finish_poll_next,
                (&results, state, futures, progress),
            ),
        forall|queue: SubmissionQueue<F>, buffer: &mut Buffer<F::Future>, f: F::Future|
            buffer.id() == queue.id() ==> #[trigger] call_requires(
                SubmissionQueue::<F>::spawn_inside,
                (&queue, buffer, f),
            ),
        forall|
            results: SubmissionQueueResults<F>,
            buffer: &mut Buffer<F::Future>,
            cx: Context<'_>,
        |
            buffer.id() == results.id() ==> #[trigger] call_requires(
                SubmissionQueueResults::<F>::poll_inside,
                (&results, buffer, &cx),
            ),
        forall|state: &mut Queue<F, F::Future>|
            state.futures() is Some ==> #[trigger] call_requires(
                Queue::<F, F::Future>::begin_clear,
                (state,),
            ),
        forall|state: &mut Queue<F, F::Future>, futures: F|
            state.futures() is None ==> #[trigger] call_requires(
                Queue::<F, F::Future>::finish_clear,
                (state, futures),
            ),
{
}

/// Polling an op is what one poll of an op is, and its context is what is known of it.
pub proof fn law_op_calls()
    ensures
        forall|op: &mut OpFuture, cx: &mut Context<'_>, r: Poll<PendingOp>| #[trigger]
            call_ensures(OpFuture::advance, (op, cx), r) ==> op.advanced(*cx, *final(op), r),
        forall|op: OpFuture, info: PendingOpInfo| #[trigger]
            call_ensures(OpFuture::context, (&op,), info) ==> info == op.info,
{
}

} // verus!
