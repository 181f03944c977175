//! What ops are answered with, told by the polls of their work alone.
use core::task::Context;
use core::task::Poll;

use futures::task::LocalFutureObj;
use vstd::prelude::*;

use crate::driver::settled;
use crate::driver::value_polled;
use crate::driver::FuturesUnorderedDriver;
use crate::driver::Settled;
use crate::driver_laws::law_delivery_takes_one;
use crate::driver_laws::law_fallible_answer_is_what_the_work_comes_to;
use crate::driver_laws::law_infallible_answer_is_what_the_work_comes_to;
use crate::driver_laws::law_launch_adds_one;
use crate::op_futures::comes_to;
use crate::op_futures::ops_in_flight;
use crate::op_futures::work_first_polled;
use crate::op_futures::work_polled;
use crate::op_futures::OpFuture;
use crate::op_futures::OpWork;
use crate::op_results::OpId;
use crate::op_results::OpResult;
use crate::op_results::OpValue;
use crate::op_results::PendingOp;
use crate::op_results::PendingOpInfo;
use crate::op_results::PromiseId;
use crate::submission_queue::held;

verus! {

/// One poll of an op polls its work once, in the same context, and passes on what that poll gives:
/// an output completes the op with just that output, under its own promise and op, and otherwise
/// the op keeps just the work that the poll left. Work that is done completes the op with the
/// result that it was done with, once.
pub proof fn law_poll_passes_on_what_the_work_gives(
    before: OpFuture,
    cx: Context<'_>,
    after: OpFuture,
    polled: Poll<PendingOp>,
)
    requires
        before.advanced(cx, after, polled),
    ensures
        after.info == before.info,
        match before.work {
            OpWork::Fallible(work) => exists|
                rest: LocalFutureObj<'static, OpResult>,
                given: Poll<OpResult>,
            | #[trigger]
                work_polled(work, cx, rest, given) && match given {
                    Poll::Ready(result) => polled == Poll::Ready(PendingOp(before.info, result))
                        && after.work == OpWork::Done(None),
                    Poll::Pending => polled == Poll::<PendingOp>::Pending && after.work
                        == OpWork::Fallible(rest),
                },
            OpWork::Infallible(work) => exists|
                rest: LocalFutureObj<'static, OpValue>,
                given: Poll<OpValue>,
            | #[trigger]
                work_polled(work, cx, rest, given) && match given {
                    Poll::Ready(value) => polled == Poll::Ready(PendingOp(before.info, Ok(value)))
                        && after.work == OpWork::Done(None),
                    Poll::Pending => polled == Poll::<PendingOp>::Pending && after.work
                        == OpWork::Infallible(rest),
                },
            OpWork::Done(Some(result)) => polled == Poll::Ready(PendingOp(before.info, result))
                && after.work == OpWork::Done(None),
            OpWork::Done(None) => polled == Poll::<PendingOp>::Pending && after.work
                == OpWork::Done(None),
        },
{
    match (before.work, polled) {
        (OpWork::Fallible(work), Poll::Ready(op)) => {
            let rest = choose|rest: LocalFutureObj<'static, OpResult>| #[trigger]
                work_polled(work, cx, rest, Poll::Ready(op.1));
            assert(work_polled(work, cx, rest, Poll::Ready(op.1)));
        },
        (OpWork::Infallible(work), Poll::Ready(op)) => {
            let value = op.1->Ok_0;
            let rest = choose|rest: LocalFutureObj<'static, OpValue>| #[trigger]
                work_polled(work, cx, rest, Poll::Ready(value));
            assert(work_polled(work, cx, rest, Poll::Ready(value)));
        },
        _ => {},
    }
}

/// `works[0]` is polled again and again: the poll in `contexts[i]` turns `works[i]` into
/// `works[i + 1]`, all polls but the last are pending, and the last gives `output`.
pub open spec fn polled_to<T>(
    works: Seq<LocalFutureObj<'static, T>>,
    contexts: Seq<Context<'_>>,
    output: T,
) -> bool {
    &&& contexts.len() > 0
    &&& works.len() == contexts.len() + 1
    &&& forall|i: int| #![trigger contexts[i]]
        0 <= i < contexts.len() - 1 ==> work_polled(
            works[i],
            contexts[i],
            works[i + 1],
            Poll::Pending,
        )
    &&& work_polled(
        works[contexts.len() - 1],
        contexts.last(),
        works.last(),
        Poll::Ready(output),
    )
}

/// The polls by which work comes to its output can be listed.
proof fn lemma_polls_listed<T>(work: LocalFutureObj<'static, T>, pending: nat, output: T)
    requires
        comes_to(work, pending, output),
    ensures
        exists|works: Seq<LocalFutureObj<'static, T>>, contexts: Seq<Context<'_>>| #[trigger]
            polled_to(works, contexts, output) && works[0] == work,
    decreases pending,
{
    if pending == 0 {
        let (cx, rest) = choose|cx: Context<'_>, rest: LocalFutureObj<'static, T>| #[trigger]
            work_polled(work, cx, rest, Poll::Ready(output));
        let works = seq![work, rest];
        let contexts = seq![cx];
        assert(polled_to(works, contexts, output));
    } else {
        let (cx, rest) = choose|cx: Context<'_>, rest: LocalFutureObj<'static, T>| #[trigger]
            work_polled(work, cx, rest, Poll::Pending) && comes_to(
                rest,
                (pending - 1) as nat,
                output,
            );
        lemma_polls_listed(rest, (pending - 1) as nat, output);
        let (later, later_contexts) = choose|
            works: Seq<LocalFutureObj<'static, T>>,
            contexts: Seq<Context<'_>>,
        | #[trigger] polled_to(works, contexts, output) && works[0] == rest;
        let works = seq![work] + later;
        let contexts = seq![cx] + later_contexts;
        assert forall|i: int| #![trigger contexts[i]]
            0 <= i < contexts.len() - 1 implies work_polled(
            works[i],
            contexts[i],
            works[i + 1],
            Poll::Pending,
        ) by {
            if i > 0 {
                assert(contexts[i] == later_contexts[i - 1]);
                assert(works[i] == later[i - 1]);
                assert(works[i + 1] == later[i]);
            }
        }
        assert(works[contexts.len() - 1] == later[later_contexts.len() - 1]);
        assert(works.last() == later.last());
        assert(contexts.last() == later_contexts.last());
        assert(polled_to(works, contexts, output));
    }
}

/// Work that is polled to an output comes to it.
proof fn lemma_listed_polls_come_to<T>(
    works: Seq<LocalFutureObj<'static, T>>,
    contexts: Seq<Context<'_>>,
    output: T,
)
    requires
        polled_to(works, contexts, output),
    ensures
        comes_to(works[0], (contexts.len() - 1) as nat, output),
    decreases contexts.len(),
{
    if contexts.len() == 1 {
        assert(work_polled(works[0], contexts[0], works[1], Poll::Ready(output)));
    } else {
        let later = works.drop_first();
        let later_contexts = contexts.drop_first();
        assert forall|i: int| #![trigger later_contexts[i]]
            0 <= i < later_contexts.len() - 1 implies work_polled(
            later[i],
            later_contexts[i],
            later[i + 1],
            Poll::Pending,
        ) by {
            assert(later_contexts[i] == contexts[i + 1]);
        }
        lemma_listed_polls_come_to(later, later_contexts, output);
        assert(work_polled(works[0], contexts[0], works[1], Poll::Pending));
    }
}

/// What an op can complete with is told by the polls of its work: some polls that are pending, and
/// then one that gives just the value that the op completes with, each on what the one before left.
/// There is nothing else that it can complete with, and nothing of this that it cannot.
pub proof fn law_op_yields_what_polls_give(f: OpFuture, done: PendingOp)
    ensures
        f.yields(done) <==> done.0 == f.info && match f.work {
            OpWork::Fallible(work) => exists|
                works: Seq<LocalFutureObj<'static, OpResult>>,
                contexts: Seq<Context<'_>>,
            | #![trigger works.len(), contexts.len()]
                contexts.len() > 0 && works.len() == contexts.len() + 1 && works[0] == work && (
                forall|i: int| #![trigger contexts[i]]
                    0 <= i < contexts.len() - 1 ==> work_polled(
                        works[i],
                        contexts[i],
                        works[i + 1],
                        Poll::Pending,
                    )) && work_polled(
                    works[contexts.len() - 1],
                    contexts.last(),
                    works.last(),
                    Poll::Ready(done.1),
                ),
            OpWork::Infallible(work) => done.1 matches Ok(value) && exists|
                works: Seq<LocalFutureObj<'static, OpValue>>,
                contexts: Seq<Context<'_>>,
            | #![trigger works.len(), contexts.len()]
                contexts.len() > 0 && works.len() == contexts.len() + 1 && works[0] == work && (
                forall|i: int| #![trigger contexts[i]]
                    0 <= i < contexts.len() - 1 ==> work_polled(
                        works[i],
                        contexts[i],
                        works[i + 1],
                        Poll::Pending,
                    )) && work_polled(
                    works[contexts.len() - 1],
                    contexts.last(),
                    works.last(),
                    Poll::Ready(value),
                ),
            OpWork::Done(result) => result == Some(done.1),
        },
{
    match f.work {
        OpWork::Fallible(work) => {
            lemma_comes_to_is_polled_to(work, done.1);
        },
        OpWork::Infallible(work) => {
            if done.1 is Ok {
                lemma_comes_to_is_polled_to(work, done.1->Ok_0);
            }
        },
        OpWork::Done(_) => {},
    }
}

/// Work comes to an output just if polls of it can be listed that come to it.
proof fn lemma_comes_to_is_polled_to<T>(work: LocalFutureObj<'static, T>, output: T)
    ensures
        (exists|pending: nat| #[trigger] comes_to(work, pending, output)) <==> exists|
            works: Seq<LocalFutureObj<'static, T>>,
            contexts: Seq<Context<'_>>,
        | #![trigger works.len(), contexts.len()]
            contexts.len() > 0 && works.len() == contexts.len() + 1 && works[0] == work && (forall|
                i: int,
            | #![trigger contexts[i]]
                0 <= i < contexts.len() - 1 ==> work_polled(
                    works[i],
                    contexts[i],
                    works[i + 1],
                    Poll::Pending,
                )) && work_polled(
                works[contexts.len() - 1],
                contexts.last(),
                works.last(),
                Poll::Ready(output),
            ),
{
    if exists|pending: nat| #[trigger] comes_to(work, pending, output) {
        let pending = choose|pending: nat| #[trigger] comes_to(work, pending, output);
        lemma_polls_listed(work, pending, output);
        let (works, contexts) = choose|
            works: Seq<LocalFutureObj<'static, T>>,
            contexts: Seq<Context<'_>>,
        | #[trigger] polled_to(works, contexts, output) && works[0] == work;
        assert(works.len() == contexts.len() + 1);
    }
    assert forall|works: Seq<LocalFutureObj<'static, T>>, contexts: Seq<Context<'_>>|
        #[trigger] polled_to(works, contexts, output) && works[0] == work implies exists|
        pending: nat,
    | #[trigger] comes_to(work, pending, output) by {
        lemma_listed_polls_come_to(works, contexts, output);
    }
    if exists|works: Seq<LocalFutureObj<'static, T>>, contexts: Seq<Context<'_>>|
        #![trigger works.len(), contexts.len()]
        contexts.len() > 0 && works.len() == contexts.len() + 1 && works[0] == work && (forall|
            i: int,
        | #![trigger contexts[i]]
            0 <= i < contexts.len() - 1 ==> work_polled(
                works[i],
                contexts[i],
                works[i + 1],
                Poll::Pending,
            )) && work_polled(
            works[contexts.len() - 1],
            contexts.last(),
            works.last(),
            Poll::Ready(output),
        ) {
        let (works, contexts) = choose|
            works: Seq<LocalFutureObj<'static, T>>,
            contexts: Seq<Context<'_>>,
        | #![trigger works.len(), contexts.len()]
            contexts.len() > 0 && works.len() == contexts.len() + 1 && works[0] == work && (forall|
                i: int,
            | #![trigger contexts[i]]
                0 <= i < contexts.len() - 1 ==> work_polled(
                    works[i],
                    contexts[i],
                    works[i + 1],
                    Poll::Pending,
                )) && work_polled(
                works[contexts.len() - 1],
                contexts.last(),
                works.last(),
                Poll::Ready(output),
            );
        assert(polled_to(works, contexts, output));
    }
}

/// What is delivered after an op that can fail was submitted is what an op gave that was on the
/// queue before, or it is delivered under the promise and the op that were submitted, with just
/// what the submitted work gave: it was polled some number of times, the first time at submission
/// unless the submission was lazy, and the last of these polls gave what is delivered.
pub proof fn law_fallible_delivery_is_what_the_work_gave(
    before: FuturesUnorderedDriver,
    submitted: FuturesUnorderedDriver,
    after: FuturesUnorderedDriver,
    lazy: bool,
    deferred: bool,
    info: PendingOpInfo,
    op: LocalFutureObj<'static, OpResult>,
    first: Poll<OpResult>,
    rest: LocalFutureObj<'static, OpResult>,
    task: int,
    delivered: (PromiseId, OpId, OpResult),
)
    requires
        !before.state().is_borrowed(),
        if lazy {
            before.launched(&submitted, OpFuture { info, work: OpWork::Fallible(op) })
        } else {
            work_first_polled(op, rest, first) && before.submitted(
                &submitted,
                info,
                deferred,
                first,
                OpWork::Fallible(rest),
                None,
            )
        },
        submitted.readied(&after, task, Poll::Ready(delivered)),
    ensures
        ({
            ||| exists|f: OpFuture| #[trigger]
                ops_in_flight(before.state().futures()->0).add(
                    before.state().pending().to_multiset(),
                ).contains(f) && f.info == PendingOpInfo(delivered.0, delivered.1) && f.yields(
                    PendingOp(PendingOpInfo(delivered.0, delivered.1), delivered.2),
                )
            ||| delivered.0 == info.0 && delivered.1 == info.1 && exists|
                    works: Seq<LocalFutureObj<'static, OpResult>>,
                    contexts: Seq<Context<'_>>,
                | #![trigger works.len(), contexts.len()]
                    contexts.len() > 0 && works.len() == contexts.len() + 1 && works[0] == op && (forall|
                        i: int,
                    | #![trigger contexts[i]]
                        0 <= i < contexts.len() - 1 ==> work_polled(
                            works[i],
                            contexts[i],
                            works[i + 1],
                            Poll::Pending,
                        )) && work_polled(
                        works[contexts.len() - 1],
                        contexts.last(),
                        works.last(),
                        Poll::Ready(delivered.2),
                    )
        }),
{
    let done = PendingOp(PendingOpInfo(delivered.0, delivered.1), delivered.2);
    let unpolled = OpFuture { info, work: OpWork::Fallible(op) };
    let task_op = if lazy {
        unpolled
    } else {
        match settled(info, deferred, first, OpWork::Fallible(rest)) {
            Settled::Launch(launched) => launched,
            Settled::Return(_) => unpolled,
        }
    };
    if !lazy {
        law_fallible_answer_is_what_the_work_comes_to(info, deferred, op, first, rest);
    }
    law_launch_adds_one(before, submitted, task_op);
    law_delivery_takes_one(submitted, after, task, Poll::Ready(delivered));
    let f = choose|f: OpFuture| #[trigger]
        held(submitted.state()).contains(f) && f.yields(done) && held(after.state()) == held(
            submitted.state(),
        ).remove(f);
    law_op_yields_what_polls_give(f, done);
    law_op_yields_what_polls_give(unpolled, done);
    if f != task_op {
        assert(held(before.state()).contains(f));
    } else {
        assert(unpolled.yields(done));
    }
}

/// The same of an op that cannot fail: it is delivered with just the value that the submitted work
/// gave, and not with an error.
pub proof fn law_infallible_delivery_is_what_the_work_gave(
    before: FuturesUnorderedDriver,
    submitted: FuturesUnorderedDriver,
    after: FuturesUnorderedDriver,
    lazy: bool,
    deferred: bool,
    info: PendingOpInfo,
    op: LocalFutureObj<'static, OpValue>,
    first: Poll<OpValue>,
    rest: LocalFutureObj<'static, OpValue>,
    task: int,
    delivered: (PromiseId, OpId, OpResult),
)
    requires
        !before.state().is_borrowed(),
        if lazy {
            before.launched(&submitted, OpFuture { info, work: OpWork::Infallible(op) })
        } else {
            work_first_polled(op, rest, first) && before.submitted(
                &submitted,
                info,
                deferred,
                value_polled(first),
                OpWork::Infallible(rest),
                None,
            )
        },
        submitted.readied(&after, task, Poll::Ready(delivered)),
    ensures
        ({
            ||| exists|f: OpFuture| #[trigger]
                ops_in_flight(before.state().futures()->0).add(
                    before.state().pending().to_multiset(),
                ).contains(f) && f.info == PendingOpInfo(delivered.0, delivered.1) && f.yields(
                    PendingOp(PendingOpInfo(delivered.0, delivered.1), delivered.2),
                )
            ||| delivered.2 matches Ok(value) && delivered.0 == info.0 && delivered.1 == info.1 && exists|
                    works: Seq<LocalFutureObj<'static, OpValue>>,
                    contexts: Seq<Context<'_>>,
                | #![trigger works.len(), contexts.len()]
                    contexts.len() > 0 && works.len() == contexts.len() + 1 && works[0] == op && (forall|
                        i: int,
                    | #![trigger contexts[i]]
                        0 <= i < contexts.len() - 1 ==> work_polled(
                            works[i],
                            contexts[i],
                            works[i + 1],
                            Poll::Pending,
                        )) && work_polled(
                        works[contexts.len() - 1],
                        contexts.last(),
                        works.last(),
                        Poll::Ready(value),
                    )
        }),
{
    let done = PendingOp(PendingOpInfo(delivered.0, delivered.1), delivered.2);
    let unpolled = OpFuture { info, work: OpWork::Infallible(op) };
    let task_op = if lazy {
        unpolled
    } else {
        match settled(info, deferred, value_polled(first), OpWork::Infallible(rest)) {
            Settled::Launch(launched) => launched,
            Settled::Return(_) => unpolled,
        }
    };
    if !lazy {
        law_infallible_answer_is_what_the_work_comes_to(info, deferred, op, first, rest);
    }
    law_launch_adds_one(before, submitted, task_op);
    law_delivery_takes_one(submitted, after, task, Poll::Ready(delivered));
    let f = choose|f: OpFuture| #[trigger]
        held(submitted.state()).contains(f) && f.yields(done) && held(after.state()) == held(
            submitted.state(),
        ).remove(f);
    law_op_yields_what_polls_give(f, done);
    law_op_yields_what_polls_give(unpolled, done);
    if f != task_op {
        assert(held(before.state()).contains(f));
    } else {
        assert(unpolled.yields(done));
    }
}

} // verus!
