//! What holds of a submission queue over several calls.
use core::task::Poll;

use vstd::multiset::Multiset;
use vstd::prelude::*;

use crate::submission_queue::buffered;
use crate::submission_queue::held;
use crate::submission_queue::history;
use crate::submission_queue::in_flight;
use crate::submission_queue::lemma_reentries_add;
use crate::submission_queue::lemma_reentries_through;
use crate::submission_queue::poll_finished;
use crate::submission_queue::poll_outcome;
use crate::submission_queue::polled;
use crate::submission_queue::polled_in;
use crate::submission_queue::polled_through;
use crate::submission_queue::reentries_between;
use crate::submission_queue::reentries_since;
use crate::submission_queue::registered_after;
use crate::submission_queue::spawned;
use crate::submission_queue::spawns;
use crate::submission_queue::submitted_since;
use crate::submission_queue::woken_in;
use crate::submission_queue::CollectionCall;
use crate::submission_queue::Queue;
use crate::submission_queue::Reentry;
use crate::submission_queue::SubmissionQueueFutures;

verus! {

/// A submission loses nothing: afterwards the queue answers for all that it did before, for the
/// submitted future, and for what the collection itself submitted meanwhile.
pub proof fn law_spawn_conserves<F: SubmissionQueueFutures>(
    before: Queue<F, F::Future>,
    after: Queue<F, F::Future>,
    f: F::Future,
)
    requires
        !before.is_borrowed(),
        spawned(before, after, f),
    ensures
        held(after) == held(before).insert(f).add(submitted_since(before, after).to_multiset()),
{
    vstd::seq_lib::lemma_multiset_commutative(before.pending(), submitted_since(before, after));
    assert(held(after) =~= held(before).insert(f).add(
        submitted_since(before, after).to_multiset(),
    ));
}

/// A poll loses nothing and delivers nothing twice: afterwards the queue answers for all that it
/// did before and for what the collection itself submitted meanwhile, less the one future whose
/// output the poll returned, if it returned one.
pub proof fn law_poll_conserves<F: SubmissionQueueFutures>(
    before: Queue<F, F::Future>,
    after: Queue<F, F::Future>,
    task: int,
    result: Poll<F::Output>,
)
    requires
        !before.is_borrowed(),
        polled(before, after, task, result),
    ensures
        match result {
            Poll::Ready(out) => exists|f: F::Future| #[trigger]
                held(before).contains(f) && F::yields(f, out) && held(after).insert(f) == held(
                    before,
                ).add(submitted_since(before, after).to_multiset()),
            Poll::Pending => held(after) == held(before).add(
                submitted_since(before, after).to_multiset(),
            ),
        },
{
    lemma_poll_leaves(before, after, task, result);
    let joined = submitted_since(before, after).to_multiset();
    match result {
        Poll::Ready(out) => {
            let f = choose|f: F::Future| #[trigger]
                held(before).contains(f) && F::yields(f, out) && in_flight(after) == held(
                    before,
                ).remove(f);
            assert(held(after).insert(f) =~= held(before).add(joined));
        },
        Poll::Pending => {
            assert(held(after) =~= held(before).add(joined));
        },
    }
}

/// What was buffered leaves the buffer with the next poll: it is in the collection then, or it is
/// what the poll returned the output of.
pub proof fn law_poll_drains_the_buffer<F: SubmissionQueueFutures>(
    before: Queue<F, F::Future>,
    after: Queue<F, F::Future>,
    task: int,
    result: Poll<F::Output>,
    f: F::Future,
)
    requires
        !before.is_borrowed(),
        before.pending().contains(f),
        polled(before, after, task, result),
    ensures
        in_flight(after).contains(f) || (result matches Poll::Ready(out) && F::yields(f, out)),
        after.pending() == submitted_since(before, after),
{
    broadcast use vstd::seq_lib::group_to_multiset_ensures;

    lemma_poll_leaves(before, after, task, result);
    assert(before.pending().to_multiset().contains(f));
    assert(held(before).contains(f));
}

/// What a poll leaves of the queue, whatever happened inside it.
proof fn lemma_poll_leaves<F: SubmissionQueueFutures>(
    before: Queue<F, F::Future>,
    after: Queue<F, F::Future>,
    task: int,
    result: Poll<F::Output>,
)
    requires
        !before.is_borrowed(),
        polled(before, after, task, result),
    ensures
        !after.is_borrowed(),
        poll_outcome::<F>(held(before), in_flight(after), result),
        after.pending() == submitted_since(before, after),
        history(after) == if held(before).len() > 0 {
            (history(before) + spawns(before.pending())).push(CollectionCall::Poll(task))
        } else {
            history(before) + spawns(before.pending())
        },
        held(before).len() == 0 ==> result is Pending,
{
    let lent = choose|lent: F| #[trigger] polled_through(before, after, task, lent, result);
    lemma_reentries_through(before, after, task, lent, result);
}

/// A submission made while the collection is out reaches the collection by the poll after: it is
/// buffered, the collection comes back, and the poll moves it in.
pub proof fn law_deferred_submission_is_polled<F: SubmissionQueueFutures>(
    lent: Queue<F, F::Future>,
    buffered: Queue<F, F::Future>,
    returned: Queue<F, F::Future>,
    after: Queue<F, F::Future>,
    f: F::Future,
    futures: F,
    progress: bool,
    task: int,
    result: Poll<F::Output>,
)
    requires
        lent.is_borrowed(),
        spawned(lent, buffered, f),
        poll_finished(buffered, returned, futures, progress),
        polled(returned, after, task, result),
    ensures
        buffered.pending().last() == f,
        in_flight(after).contains(f) || (result matches Poll::Ready(out) && F::yields(f, out)),
{
    assert(returned.pending()[returned.pending().len() - 1] == f);
    law_poll_drains_the_buffer(returned, after, task, result, f);
}

/// Submissions made while the collection is out are put into it by the poll after, in the order in
/// which they were made.
pub proof fn law_submission_order_is_kept<F: SubmissionQueueFutures>(
    lent: Queue<F, F::Future>,
    first: Queue<F, F::Future>,
    second: Queue<F, F::Future>,
    returned: Queue<F, F::Future>,
    after: Queue<F, F::Future>,
    f: F::Future,
    g: F::Future,
    futures: F,
    progress: bool,
    task: int,
    result: Poll<F::Output>,
)
    requires
        lent.is_borrowed(),
        spawned(lent, first, f),
        spawned(first, second, g),
        poll_finished(second, returned, futures, progress),
        polled(returned, after, task, result),
    ensures
        ({
            let at: int = (history(returned).len() + lent.pending().len()) as int;
            &&& history(after)[at] == CollectionCall::Spawn(f)
            &&& history(after)[at + 1] == CollectionCall::Spawn(g)
            &&& history(after).last() == CollectionCall::<F::Future>::Poll(task)
        }),
{
    broadcast use vstd::seq_lib::group_to_multiset_ensures;

    lemma_poll_leaves(returned, after, task, result);
    assert(returned.pending() =~= lent.pending().push(f).push(g));
    assert(held(returned).len() >= returned.pending().to_multiset().len());
    let at: int = lent.pending().len() as int;
    assert(spawns(returned.pending())[at] == CollectionCall::Spawn(f));
    assert(spawns(returned.pending())[at + 1] == CollectionCall::Spawn(g));
}

/// A submission wakes the task that polled last.
pub proof fn law_submission_wakes_the_poller<F: SubmissionQueueFutures>(
    before: Queue<F, F::Future>,
    waiting: Queue<F, F::Future>,
    after: Queue<F, F::Future>,
    task: int,
    result: Poll<F::Output>,
    f: F::Future,
)
    requires
        polled(before, waiting, task, result),
        spawned(waiting, after, f),
        !before.is_borrowed() ==> !polled_in(reentries_since(before, waiting)) && !polled_in(
            reentries_since(waiting, after),
        ),
    ensures
        after.registered() == Some(task),
        after.wakeups().len() > waiting.wakeups().len(),
        after.wakeups().last() == task,
{
    if !before.is_borrowed() {
        let lent = choose|lent: F| #[trigger] polled_through(before, waiting, task, lent, result);
        lemma_reentries_through(before, waiting, task, lent, result);
        lemma_no_polls_in_parts(
            reentries_between(before.futures()->0, lent),
            reentries_between(lent, waiting.futures()->0),
        );
        lemma_without_polls(task, reentries_between(lent, waiting.futures()->0));
        lemma_without_polls(task, reentries_since(waiting, after));
    }
}

/// A submission that a poll runs into, while it moves the buffer or polls the collection, wakes
/// the task that polls, once for each.
pub proof fn law_submission_during_a_poll_wakes_it<F: SubmissionQueueFutures>(
    before: Queue<F, F::Future>,
    after: Queue<F, F::Future>,
    task: int,
    result: Poll<F::Output>,
)
    requires
        !before.is_borrowed(),
        polled(before, after, task, result),
        !polled_in(reentries_since(before, after)),
    ensures
        after.registered() == Some(task),
        after.wakeups() == before.wakeups() + Seq::new(
            submitted_since(before, after).len(),
            |i: int| task,
        ),
{
    let lent = choose|lent: F| #[trigger] polled_through(before, after, task, lent, result);
    lemma_reentries_through(before, after, task, lent, result);
    let first = reentries_between(before.futures()->0, lent);
    let second = reentries_between(lent, after.futures()->0);
    lemma_no_polls_in_parts(first, second);
    lemma_without_polls(task, first);
    lemma_without_polls(task, second);
    assert(after.pending().len() == buffered(first).len() + buffered(second).len());
    assert(after.wakeups() =~= before.wakeups() + Seq::new(
        submitted_since(before, after).len(),
        |i: int| task,
    ));
}

/// A task that polls while another poll has the collection is brought back by the progress of that
/// other poll: a poll that returns an output wakes it. Of several such tasks it is the last. A poll
/// that returns none wakes no such task.
pub proof fn law_nested_poller_is_woken_by_progress<F: SubmissionQueueFutures>(
    before: Queue<F, F::Future>,
    after: Queue<F, F::Future>,
    task: int,
    result: Poll<F::Output>,
)
    requires
        !before.is_borrowed(),
        polled(before, after, task, result),
    ensures
        if result is Ready && polled_in(reentries_since(before, after)) {
            &&& after.nested_wakeups() == before.nested_wakeups().push(
                after.nested_wakeups().last(),
            )
            &&& exists|i: int| #[trigger]
                is_last_poll(reentries_since(before, after), i, after.nested_wakeups().last())
        } else {
            after.nested_wakeups() == before.nested_wakeups()
        },
{
    let lent = choose|lent: F| #[trigger] polled_through(before, after, task, lent, result);
    lemma_reentries_through(before, after, task, lent, result);
    let reentries = reentries_since(before, after);
    if result is Ready && polled_in(reentries) {
        lemma_last_poll(before.buffer().nested(), reentries);
        let last = registered_after(before.buffer().nested(), reentries)->0;
        let i = choose|i: int| #[trigger] is_last_poll(reentries, i, last);
        assert(after.nested_wakeups().last() == last);
        assert(is_last_poll(reentries, i, after.nested_wakeups().last()));
    }
}

/// A task that polls while the buffer is moved does not keep the slot of the task whose poll moves
/// it: unless a task polls from inside the poll of the collection, what is submitted after the poll
/// wakes the task that polled.
pub proof fn law_drain_leaves_the_poller_registered<F: SubmissionQueueFutures>(
    before: Queue<F, F::Future>,
    after: Queue<F, F::Future>,
    task: int,
    lent: F,
    result: Poll<F::Output>,
)
    requires
        !before.is_borrowed(),
        polled_through(before, after, task, lent, result),
        !polled_in(reentries_between(lent, after.futures()->0)),
    ensures
        after.registered() == Some(task),
{
    lemma_without_polls(task, reentries_between(lent, after.futures()->0));
}

/// Where nothing polls in two parts together, nothing polls in either.
proof fn lemma_no_polls_in_parts<Fut>(first: Seq<Reentry<Fut>>, second: Seq<Reentry<Fut>>)
    requires
        !polled_in(first + second),
    ensures
        !polled_in(first),
        !polled_in(second),
{
    lemma_reentries_add(None, first, second);
}

/// The last poll among `reentries` is the one at `i`, and it came from `task`.
pub open spec fn is_last_poll<Fut>(reentries: Seq<Reentry<Fut>>, i: int, task: int) -> bool {
    &&& 0 <= i < reentries.len()
    &&& reentries[i] == Reentry::<Fut>::Poll(task)
    &&& forall|j: int| i < j < reentries.len() ==> #[trigger] reentries[j] is Spawn
}

/// The task that polled last is the registered one.
pub(crate) proof fn lemma_last_poll<Fut>(registered: Option<int>, reentries: Seq<Reentry<Fut>>)
    requires
        polled_in(reentries),
    ensures
        exists|i: int| #[trigger]
            is_last_poll(reentries, i, registered_after(registered, reentries)->0),
        registered_after(registered, reentries) is Some,
    decreases reentries.len(),
{
    let i = choose|i: int| 0 <= i < reentries.len() && #[trigger] reentries[i] is Poll;
    let earlier = reentries.drop_last();
    match reentries.last() {
        Reentry::Spawn(_) => {
            assert(earlier[i] is Poll);
            lemma_last_poll(registered, earlier);
            let task = registered_after(registered, earlier)->0;
            let k = choose|k: int| #[trigger] is_last_poll(earlier, k, task);
            assert forall|j: int| k < j < reentries.len() implies #[trigger] reentries[j] is Spawn by {
                if j < earlier.len() {
                    assert(earlier[j] is Spawn);
                }
            }
            assert(reentries[k] == earlier[k]);
            assert(registered_after(registered, reentries) == Some(task));
            assert(is_last_poll(reentries, k, registered_after(registered, reentries)->0));
        },
        Reentry::Poll(task) => {
            assert(registered_after(registered, reentries) == Some(task));
            let k: int = reentries.len() - 1;
            assert(is_last_poll(reentries, k, registered_after(registered, reentries)->0));
        },
    }
}

/// Where nothing polls, every submission wakes the same task.
proof fn lemma_without_polls<Fut>(task: int, reentries: Seq<Reentry<Fut>>)
    requires
        !polled_in(reentries),
    ensures
        registered_after(Some(task), reentries) == Some(task),
        woken_in(Some(task), reentries) == Seq::new(buffered(reentries).len(), |i: int| task),
    decreases reentries.len(),
{
    if reentries.len() > 0 {
        let earlier = reentries.drop_last();
        assert(reentries[reentries.len() - 1] is Spawn);
        assert forall|i: int| 0 <= i < earlier.len() implies !(#[trigger] earlier[i] is Poll) by {
            assert(!(reentries[i] is Poll));
        }
        lemma_without_polls(task, earlier);
    }
    assert(woken_in(Some(task), reentries) =~= Seq::new(
        buffered(reentries).len(),
        |i: int| task,
    ));
}

/// However deep submissions and polls nest, once a task has polled there is a task to wake, and
/// every submission after that wakes one.
pub proof fn law_every_submission_wakes<F: SubmissionQueueFutures>(
    before: Queue<F, F::Future>,
    waiting: Queue<F, F::Future>,
    after: Queue<F, F::Future>,
    task: int,
    result: Poll<F::Output>,
    f: F::Future,
)
    requires
        polled(before, waiting, task, result),
        spawned(waiting, after, f),
    ensures
        after.wakeups().len() > waiting.wakeups().len(),
        after.registered() == Some(after.wakeups().last()),
{
    if !before.is_borrowed() {
        let lent = choose|lent: F| #[trigger] polled_through(before, waiting, task, lent, result);
        lemma_stays_registered(task, reentries_between(lent, waiting.futures()->0));
        lemma_stays_registered(waiting.registered()->0, reentries_since(waiting, after));
    }
}

/// Once a task is registered, one always is.
proof fn lemma_stays_registered<Fut>(task: int, reentries: Seq<Reentry<Fut>>)
    ensures
        registered_after(Some(task), reentries) is Some,
    decreases reentries.len(),
{
    if reentries.len() > 0 {
        lemma_stays_registered(task, reentries.drop_last());
    }
}

/// A poll while the collection is out comes back pending and touches no future. It is noted, for
/// the poll that has the collection to wake its task.
pub proof fn law_nested_poll_is_pending<F: SubmissionQueueFutures>(
    before: Queue<F, F::Future>,
    after: Queue<F, F::Future>,
    task: int,
    result: Poll<F::Output>,
)
    requires
        before.is_borrowed(),
        polled(before, after, task, result),
    ensures
        result is Pending,
        after.is_borrowed(),
        after.pending() == before.pending(),
        after.buffer().overtaken(),
        after.buffer().nested() == Some(task),
        after.registered() == Some(task),
{
}

/// A poll of a queue that answers for nothing is pending.
pub proof fn law_empty_queue_is_pending<F: SubmissionQueueFutures>(
    before: Queue<F, F::Future>,
    after: Queue<F, F::Future>,
    task: int,
    result: Poll<F::Output>,
)
    requires
        !before.is_borrowed(),
        held(before) == Multiset::<F::Future>::empty(),
        polled(before, after, task, result),
    ensures
        result is Pending,
        in_flight(after) == Multiset::<F::Future>::empty(),
{
    lemma_poll_leaves(before, after, task, result);
}

/// A call on a queue.
pub enum QueueStep<F: SubmissionQueueFutures> {
    /// `f` was submitted.
    Spawn { f: F::Future },
    /// The task `task` polled and got `result`.
    Poll { task: int, result: Poll<F::Output> },
}

/// `step` turns `before` into `after`.
pub open spec fn steps_to<F: SubmissionQueueFutures>(
    before: Queue<F, F::Future>,
    step: QueueStep<F>,
    after: Queue<F, F::Future>,
) -> bool {
    match step {
        QueueStep::Spawn { f } => spawned(before, after, f),
        QueueStep::Poll { task, result } => polled(before, after, task, result),
    }
}

/// `states` are the states that a queue goes through under `steps`.
pub open spec fn is_run<F: SubmissionQueueFutures>(
    states: Seq<Queue<F, F::Future>>,
    steps: Seq<QueueStep<F>>,
) -> bool {
    &&& states.len() == steps.len() + 1
    &&& forall|i: int| #![trigger steps[i]]
        0 <= i < steps.len() ==> steps_to(states[i], steps[i], states[i + 1])
}

/// All that was submitted in a run, by the steps and from inside the collection.
pub open spec fn submissions<F: SubmissionQueueFutures>(
    states: Seq<Queue<F, F::Future>>,
    steps: Seq<QueueStep<F>>,
) -> Multiset<F::Future>
    decreases steps.len(),
{
    if steps.len() == 0 {
        Multiset::empty()
    } else {
        let earlier = submissions(states.drop_last(), steps.drop_last());
        let inside = submitted_since(
            states[steps.len() - 1],
            states[steps.len() as int],
        ).to_multiset();
        match steps.last() {
            QueueStep::Spawn { f } => earlier.insert(f).add(inside),
            QueueStep::Poll { .. } => earlier.add(inside),
        }
    }
}

/// The outputs that the polls of a run returned, oldest first.
pub open spec fn outputs<F: SubmissionQueueFutures>(steps: Seq<QueueStep<F>>) -> Seq<F::Output>
    decreases steps.len(),
{
    if steps.len() == 0 {
        Seq::empty()
    } else {
        let earlier = outputs(steps.drop_last());
        match steps.last() {
            QueueStep::Poll { result: Poll::Ready(out), .. } => earlier.push(out),
            _ => earlier,
        }
    }
}

/// `completed` are the futures that came to `outs`, and what there was at first, together with
/// what was submitted, is what there is at last together with them.
pub open spec fn accounts_for<F: SubmissionQueueFutures>(
    completed: Seq<F::Future>,
    outs: Seq<F::Output>,
    available: Multiset<F::Future>,
    left: Multiset<F::Future>,
) -> bool {
    &&& completed.len() == outs.len()
    &&& forall|i: int| 0 <= i < outs.len() ==> F::yields(#[trigger] completed[i], outs[i])
    &&& available == left.add(completed.to_multiset())
}

/// Over any run of submissions and polls nothing is lost and nothing is delivered twice: every
/// future that was there at first or was submitted is still there, or has been delivered once.
pub proof fn law_run_conserves<F: SubmissionQueueFutures>(
    states: Seq<Queue<F, F::Future>>,
    steps: Seq<QueueStep<F>>,
)
    requires
        is_run(states, steps),
        !states[0].is_borrowed(),
    ensures
        !states.last().is_borrowed(),
        exists|completed: Seq<F::Future>| #[trigger]
            accounts_for::<F>(
                completed,
                outputs(steps),
                held(states[0]).add(submissions(states, steps)),
                held(states.last()),
            ),
    decreases steps.len(),
{
    broadcast use vstd::seq_lib::group_to_multiset_ensures;

    if steps.len() == 0 {
        let none = Seq::<F::Future>::empty();
        assert(held(states[0]).add(submissions(states, steps)) =~= held(states.last()).add(
            none.to_multiset(),
        ));
        assert(accounts_for::<F>(
            none,
            outputs(steps),
            held(states[0]).add(submissions(states, steps)),
            held(states.last()),
        ));
    } else {
        let n = steps.len() - 1;
        let first_states = states.drop_last();
        let first_steps = steps.drop_last();
        lemma_run_without_last(states, steps);
        law_run_conserves(first_states, first_steps);
        let before = states[n];
        let after = states[n + 1];
        assert(first_states.last() == before);
        assert(states.last() == after);
        assert(steps_to(before, steps[n], after));
        let earlier = choose|completed: Seq<F::Future>| #[trigger]
            accounts_for::<F>(
                completed,
                outputs(first_steps),
                held(states[0]).add(submissions(first_states, first_steps)),
                held(before),
            );
        let base = held(states[0]).add(submissions(first_states, first_steps));
        let available = held(states[0]).add(submissions(states, steps));
        let joined = submitted_since(before, after).to_multiset();
        assert(base == held(before).add(earlier.to_multiset()));
        match steps.last() {
            QueueStep::Spawn { f } => {
                law_spawn_conserves(before, after, f);
                assert(available =~= base.insert(f).add(joined));
                assert(available =~= held(after).add(earlier.to_multiset()));
                assert(accounts_for::<F>(earlier, outputs(steps), available, held(after)));
            },
            QueueStep::Poll { task, result } => {
                law_poll_conserves(before, after, task, result);
                assert(available =~= base.add(joined));
                match result {
                    Poll::Ready(out) => {
                        let f = choose|f: F::Future| #[trigger]
                            held(before).contains(f) && F::yields(f, out) && held(after).insert(f)
                                == held(before).add(joined);
                        let completed = earlier.push(f);
                        assert(completed.to_multiset() =~= earlier.to_multiset().insert(f));
                        assert(available =~= held(after).insert(f).add(earlier.to_multiset()));
                        assert(available =~= held(after).add(completed.to_multiset()));
                        assert(accounts_for::<F>(completed, outputs(steps), available, held(after)));
                    },
                    Poll::Pending => {
                        assert(available =~= held(after).add(earlier.to_multiset()));
                        assert(accounts_for::<F>(earlier, outputs(steps), available, held(after)));
                    },
                }
            },
        }
    }
}

/// The tasks from which the collection was polled, oldest first.
pub open spec fn polls_among<Fut>(calls: Seq<CollectionCall<Fut>>) -> Seq<int>
    decreases calls.len(),
{
    if calls.len() == 0 {
        Seq::empty()
    } else {
        let earlier = polls_among(calls.drop_last());
        match calls.last() {
            CollectionCall::Spawn(_) => earlier,
            CollectionCall::Poll(task) => earlier.push(task),
        }
    }
}

/// The tasks that polled in a run while the queue answered for something, oldest first.
pub open spec fn polls_of_run<F: SubmissionQueueFutures>(
    states: Seq<Queue<F, F::Future>>,
    steps: Seq<QueueStep<F>>,
) -> Seq<int>
    decreases steps.len(),
{
    if steps.len() == 0 {
        Seq::empty()
    } else {
        let earlier = polls_of_run(states.drop_last(), steps.drop_last());
        match steps.last() {
            QueueStep::Poll { task, .. } if held(states[steps.len() - 1]).len() > 0 => earlier.push(
                task,
            ),
            _ => earlier,
        }
    }
}

/// The futures are polled inside polls of the queue alone, once for each poll that finds any, and
/// with its task: a submission polls none.
pub proof fn law_only_polls_poll<F: SubmissionQueueFutures>(
    states: Seq<Queue<F, F::Future>>,
    steps: Seq<QueueStep<F>>,
)
    requires
        is_run(states, steps),
        !states[0].is_borrowed(),
    ensures
        !states.last().is_borrowed(),
        polls_among(history(states.last())) == polls_among(history(states[0])) + polls_of_run(
            states,
            steps,
        ),
    decreases steps.len(),
{
    if steps.len() == 0 {
        assert(polls_among(history(states[0])) + Seq::empty() =~= polls_among(history(states[0])));
    } else {
        let n = steps.len() - 1;
        let first_states = states.drop_last();
        let first_steps = steps.drop_last();
        lemma_run_without_last(states, steps);
        law_only_polls_poll(first_states, first_steps);
        let before = states[n];
        let after = states[n + 1];
        assert(first_states.last() == before);
        assert(steps_to(before, steps[n], after));
        match steps[n] {
            QueueStep::Spawn { f } => {
                assert(history(after).drop_last() =~= history(before));
            },
            QueueStep::Poll { task, result } => {
                let drained = history(before) + spawns(before.pending());
                lemma_poll_leaves(before, after, task, result);
                lemma_spawns_poll_nothing(history(before), before.pending());
                if held(before).len() > 0 {
                    assert(history(after).drop_last() =~= drained);
                }
            },
        }
        assert(polls_among(history(after)) =~= polls_among(history(states[0])) + polls_of_run(
            states,
            steps,
        ));
    }
}

/// Putting futures into a collection polls it from no task.
pub(crate) proof fn lemma_spawns_poll_nothing<Fut>(calls: Seq<CollectionCall<Fut>>, futures: Seq<Fut>)
    ensures
        polls_among(calls + spawns(futures)) == polls_among(calls),
    decreases futures.len(),
{
    let all = calls + spawns(futures);
    if futures.len() == 0 {
        assert(all =~= calls);
    } else {
        assert(all.drop_last() =~= calls + spawns(futures.drop_last()));
        assert(all.last() == CollectionCall::Spawn(futures.last()));
        lemma_spawns_poll_nothing(calls, futures.drop_last());
    }
}

/// A run less its last step is a run.
proof fn lemma_run_without_last<F: SubmissionQueueFutures>(
    states: Seq<Queue<F, F::Future>>,
    steps: Seq<QueueStep<F>>,
)
    requires
        is_run(states, steps),
        steps.len() > 0,
    ensures
        is_run(states.drop_last(), steps.drop_last()),
{
    let first_states = states.drop_last();
    let first_steps = steps.drop_last();
    assert forall|i: int| #![trigger first_steps[i]] 0 <= i < first_steps.len() implies steps_to(
        first_states[i],
        first_steps[i],
        first_states[i + 1],
    ) by {
        assert(steps[i] == first_steps[i]);
    }
}

} // verus!
