//! The waker slot of a submission queue.
use core::task::Context;

use deno_unsync::UnsyncWaker;
use vstd::prelude::*;

verus! {

/// The context that a poll runs in, with the waker of the task that polls.
#[verifier::external_type_specification]
#[verifier::external_body]
pub struct ExContext<'a>(Context<'a>);

/// The single-threaded waker slot of `deno_unsync`.
#[verifier::external_type_specification]
#[verifier::external_body]
pub struct ExUnsyncWaker(UnsyncWaker);

/// The task that the waker of a context wakes.
pub uninterp spec fn context_task(cx: Context<'_>) -> int;

/// The task whose waker a slot holds, if it holds one.
pub uninterp spec fn registered_task(slot: UnsyncWaker) -> Option<int>;

/// The tasks that were woken through a slot, oldest first.
pub uninterp spec fn woken_tasks(slot: UnsyncWaker) -> Seq<int>;

/// The woken tasks after one more wake of a slot in which `registered` is the task.
pub open spec fn after_wake(woken: Seq<int>, registered: Option<int>) -> Seq<int> {
    match registered {
        Some(task) => woken.push(task),
        None => woken,
    }
}

/// Calls `UnsyncWaker::default`, which makes a slot that holds no waker. Nothing was woken
/// through it.
#[verifier::external_body]
pub(crate) fn empty_slot() -> (slot: UnsyncWaker)
    ensures
        registered_task(slot) is None,
        woken_tasks(slot) == Seq::<int>::empty(),
{
    UnsyncWaker::default()
}

/// Calls `UnsyncWaker::register` with the waker of `cx`: from then on the slot wakes the task of
/// `cx`. A waker that already wakes that task (`Waker::will_wake`) is kept, any other is replaced
/// by a clone of the one in `cx`. Nothing is woken.
#[verifier::external_body]
pub(crate) fn register(slot: &mut UnsyncWaker, cx: &Context<'_>)
    ensures
        registered_task(*final(slot)) == Some(context_task(*cx)),
        woken_tasks(*final(slot)) == woken_tasks(*old(slot)),
{
    slot.register(cx.waker());
}

/// Calls `UnsyncWaker::wake_by_ref`, which wakes the task whose waker the slot holds, if it holds
/// one, and keeps the waker. What the task does on being woken is left unsaid.
#[verifier::external_body]
pub(crate) fn wake_by_ref(slot: &mut UnsyncWaker)
    ensures
        registered_task(*final(slot)) == registered_task(*old(slot)),
        woken_tasks(*final(slot)) == after_wake(
            woken_tasks(*old(slot)),
            registered_task(*old(slot)),
        ),
{
    slot.wake_by_ref();
}

} // verus!
