//! What each call on op contexts, op frames and the op state does, told by what goes into the call
//! and what comes out of it.
use core::cell::BorrowError;
use core::cell::BorrowMutError;
use core::cell::Ref;
use core::cell::RefCell;
use core::cell::RefMut;
use std::rc::Rc;
use std::sync::Arc;

use futures::task::AtomicWaker;
use vstd::prelude::*;

use crate::op_ctx::ExternalReference;
use crate::op_ctx::OpCtx;
use crate::op_decl::Embedder;
use crate::op_decl::OpDecl;
use crate::op_decl::OpMetadata;
use crate::op_decl::OpsTracker;
use crate::op_results::OpId;
use crate::op_stack::op_stack_description;
use crate::op_stack::reentrancy_check;
use crate::op_stack::reentrancy_conflict;
use crate::op_stack::CurrentOp;
use crate::op_stack::OpFrame;
use crate::op_stack::OpStack;
use crate::op_stack::OpStackAccess;
use crate::op_stack::ReentrancyGuard;
use crate::op_state::borrow_failure_text;
use crate::op_state::borrow_op_state;
use crate::op_state::borrow_op_state_mut;
use crate::op_state::borrowed_or_reason;
use crate::op_state::initial_task;
use crate::op_state::op_state_borrow_failed;
use crate::op_state::ExternalOpsTracker;
use crate::op_state::OpState;

verus! {

/// The engine is given the context of the op and its slow function, and then its fast function with
/// the description of its types, or two empty slots. With metrics the functions are those of the
/// declaration that report them, and else those that do not, whether or not there is a fast one.
pub proof fn law_external_references<E: Embedder>(
    ctx: OpCtx<E>,
    references: [ExternalReference<E>; 4],
)
    requires
        call_ensures(OpCtx::<E>::external_references, (&ctx,), references),
    ensures
        references@.len() == 4,
        references@[0] == ExternalReference::<E>::Context,
        match ctx.metrics_fn {
            Some(_) => references@[1] == ExternalReference::<E>::SlowFunction(
                ctx.decl.slow_fn_with_metrics,
            ),
            None => references@[1] == ExternalReference::<E>::SlowFunction(ctx.decl.slow_fn),
        },
        match (
            ctx.metrics_fn,
            ctx.decl.fast_fn,
            ctx.decl.fast_fn_with_metrics,
            ctx.fast_fn_info,
        ) {
            (Some(_), _, Some(fast), Some(types)) => references@[2]
                == ExternalReference::<E>::FastFunction(fast) && references@[3]
                == ExternalReference::<E>::FastFunctionInfo(types),
            (None, Some(fast), _, Some(types)) => references@[2]
                == ExternalReference::<E>::FastFunction(fast) && references@[3]
                == ExternalReference::<E>::FastFunctionInfo(types),
            _ => references@[2] == ExternalReference::<E>::Null && references@[3]
                == ExternalReference::<E>::Null,
        },
{
}

/// A context keeps all that it is made of, and takes the types of its fast function from the one
/// that is in use: the one that reports metrics just if metrics are reported.
pub proof fn law_new_context<E: Embedder>(
    id: OpId,
    isolate: E::Isolate,
    op_driver: Rc<E::OpDriver>,
    decl: OpDecl<E>,
    state: Rc<RefCell<E::OpState>>,
    runtime_state: E::RuntimeState,
    metrics_fn: Option<E::MetricsFn>,
    enable_stack_trace: bool,
    ctx: OpCtx<E>,
)
    requires
        call_ensures(
            OpCtx::<E>::new,
            (
                id,
                isolate,
                op_driver,
                decl,
                state,
                runtime_state,
                metrics_fn,
                enable_stack_trace,
            ),
            ctx,
        ),
    ensures
        ctx.id == id,
        ctx.isolate == isolate,
        ctx.state == state,
        ctx.enable_stack_trace == enable_stack_trace,
        ctx.decl == decl,
        ctx.metrics_fn == metrics_fn,
        ctx.op_driver == op_driver,
        ctx.runtime_state == runtime_state,
        match metrics_fn {
            Some(_) => ctx.fast_fn_info == decl.fast_fn_with_metrics,
            None => ctx.fast_fn_info == decl.fast_fn,
        },
{
}

/// What is read of a context is what it holds.
pub proof fn law_context_is_read<E: Embedder>(
    ctx: OpCtx<E>,
    decl: OpDecl<E>,
    enabled: bool,
    op_driver: E::OpDriver,
    runtime_state: E::RuntimeState,
)
    ensures
        call_ensures(OpCtx::<E>::decl, (&ctx,), &decl) ==> decl == ctx.decl,
        call_ensures(OpCtx::<E>::metrics_enabled, (&ctx,), enabled) ==> enabled == (
        ctx.metrics_fn is Some),
        call_ensures(OpCtx::<E>::op_driver, (&ctx,), &op_driver) ==> op_driver == *ctx.op_driver,
        call_ensures(OpCtx::<E>::runtime_state, (&ctx,), &runtime_state) ==> runtime_state
            == ctx.runtime_state,
{
}

/// Metadata that nothing is known of says nothing.
pub proof fn law_default_metadata(metadata: OpMetadata)
    requires
        call_ensures(OpMetadata::default, (), metadata),
    ensures
        metadata.sanitizer_details is None,
        metadata.sanitizer_fix is None,
{
}

/// An op is turned away just if it is not re-entrant and another op that is not is running, and
/// then both are named.
pub proof fn law_reentrancy_conflict<E: Embedder>(
    current: CurrentOp,
    decl: OpDecl<E>,
    reason: Option<String>,
)
    requires
        call_ensures(reentrancy_conflict::<E>, (&current, &decl), reason),
    ensures
        match (decl.is_reentrant, current.op) {
            (false, Some(running)) => reason matches Some(text) && text@ == "op "@ + running@
                + " was not marked as #[op2(reentrant)], but re-entrantly invoked op "@
                + decl.name@,
            _ => reason is None,
        },
{
}

/// A thread starts with no op and no frame. An op that starts gets a frame on top, with its name
/// and its thread. If it is not re-entrant it is the one that keeps others out; else who does is
/// unchanged. When it ends, its frame goes, and it keeps nobody out any more.
pub proof fn law_op_frames<E: Embedder>()
    ensures
        forall|current: CurrentOp| #[trigger]
            call_ensures(CurrentOp::new, (), current) ==> current.op is None,
        forall|stack: OpStack| #[trigger]
            call_ensures(OpStack::new, (), stack) ==> stack.frames@.len() == 0,
        forall|
            current: &mut CurrentOp,
            stack: Option<&mut OpStack>,
            decl: OpDecl<E>,
            thread: String,
            guard: Option<ReentrancyGuard>,
        | #[trigger]
            call_ensures(reentrancy_check::<E>, (current, stack, &decl, thread), guard) ==> {
                &&& guard is Some
                &&& guard->0.is_blocking() == !decl.is_reentrant
                &&& final(current).op == if decl.is_reentrant {
                    current.op
                } else {
                    Some(decl.name)
                }
                &&& stack is Some ==> final(stack->0).frames@ == stack->0.frames@.push(
                    (OpFrame { name: decl.name, thread }),
                )
            },
        forall|guard: ReentrancyGuard, current: &mut CurrentOp, stack: Option<&mut OpStack>|
            #[trigger]
            call_ensures(ReentrancyGuard::drop, (guard, current, stack), ()) ==> {
                &&& final(current).op == if guard.is_blocking() {
                    None
                } else {
                    current.op
                }
                &&& stack is Some && stack->0.frames@.len() > 0 ==> final(stack->0).frames@
                    == stack->0.frames@.drop_last()
                &&& stack is Some && stack->0.frames@.len() == 0 ==> final(stack->0).frames@.len()
                    == 0
            },
{
}

/// A stack reads frame by frame, outermost first, each as its name and its thread, with an arrow
/// between them. Where there is nothing to read, it says why.
pub proof fn law_description(stack: OpStack, below: OpStack, text: String, below_text: String)
    ensures
        call_ensures(op_stack_description, (&OpStackAccess::Frames(&stack),), text) ==> {
            &&& stack.frames@.len() == 0 ==> text@ == "<no op frames>"@
            &&& stack.frames@.len() == 1 ==> text@ == stack.frames@[0].name@ + " on "@
                + stack.frames@[0].thread@
            &&& stack.frames@.len() > 1 && below.frames@ == stack.frames@.drop_last()
                && call_ensures(
                op_stack_description,
                (&OpStackAccess::Frames(&below),),
                below_text,
            ) ==> text@ == below_text@ + " -> "@ + stack.frames@.last().name@ + " on "@
                + stack.frames@.last().thread@
        },
        call_ensures(op_stack_description, (&OpStackAccess::Unavailable,), text) ==> text@
            == "<op stack unavailable>"@,
        call_ensures(op_stack_description, (&OpStackAccess::Untracked,), text) ==> text@
            == "<only tracked in debug builds>"@,
{
    let last = stack.frames@.last();
    if stack.frames@.len() > 1 && below.frames@ == stack.frames@.drop_last() && call_ensures(
        op_stack_description,
        (&OpStackAccess::Frames(&stack),),
        text,
    ) && call_ensures(op_stack_description, (&OpStackAccess::Frames(&below),), below_text) {
        assert(text@ =~= below_text@ + " -> "@ + last.name@ + " on "@ + last.thread@);
    }
}

/// The count of outside operations goes up by one with `ref_op`, and over to zero where it is full,
/// and down by one with `unref_op`, but not below zero. Operations are pending just if the count is
/// not zero.
pub proof fn law_tracker()
    ensures
        forall|count: usize, tracker: ExternalOpsTracker| #[trigger]
            call_ensures(ExternalOpsTracker::with_count, (count,), tracker) ==> tracker.count()
                == count,
        forall|tracker: ExternalOpsTracker, count: usize| #[trigger]
            call_ensures(ExternalOpsTracker::get, (&tracker,), count) ==> count == tracker.count(),
        forall|tracker: &mut ExternalOpsTracker| #[trigger]
            call_ensures(ExternalOpsTracker::ref_op, (tracker,), ()) ==> {
                &&& tracker.count() < usize::MAX ==> final(tracker).count() == tracker.count() + 1
                &&& tracker.count() == usize::MAX ==> final(tracker).count() == 0
            },
        forall|tracker: &mut ExternalOpsTracker| #[trigger]
            call_ensures(ExternalOpsTracker::unref_op, (tracker,), ()) ==> {
                &&& tracker.count() > 0 ==> final(tracker).count() == tracker.count() - 1
                &&& tracker.count() == 0 ==> final(tracker).count() == 0
            },
        forall|tracker: ExternalOpsTracker, pending: bool| #[trigger]
            call_ensures(ExternalOpsTracker::has_pending_ops, (&tracker,), pending) ==> pending == (
            tracker.count() != 0),
        forall|tracker: ExternalOpsTracker| #[trigger]
            call_ensures(<ExternalOpsTracker as OpsTracker>::idle, (), tracker) ==> tracker.count()
                == 0,
{
}

/// A new state holds new resources and new shared state, counts no operation, has a waker slot that
/// nobody has registered with, and keeps the feature checker and the callback that it is given.
pub proof fn law_new_state<E: Embedder>(
    maybe_feature_checker: Option<Arc<E::FeatureChecker>>,
    op_stack_trace_callback: Option<E::OpStackTraceCallback>,
    state: OpState<E>,
)
    requires
        call_ensures(
            OpState::<E>::new,
            (maybe_feature_checker, op_stack_trace_callback),
            state,
        ),
    ensures
        call_ensures(E::ResourceTable::default, (), state.resource_table),
        call_ensures(E::GothamState::default, (), state.gotham_state),
        call_ensures(AtomicWaker::new, (), *state.waker),
        initial_task(*state.waker) is None,
        match maybe_feature_checker {
            Some(checker) => state.feature_checker == checker,
            None => call_ensures(E::FeatureChecker::default, (), *state.feature_checker),
        },
        state.external_ops_tracker.under_way() == 0,
        state.op_stack_trace_callback == op_stack_trace_callback,
{
}

/// Clearing a state replaces its resources and its shared state by new ones and touches nothing
/// else. The state reads as its shared state, and what is written there is written to nothing else.
pub proof fn law_state_is_cleared_and_read<E: Embedder>()
    ensures
        forall|state: &mut OpState<E>| #[trigger]
            call_ensures(OpState::<E>::clear, (state,), ()) ==> {
                &&& call_ensures(E::GothamState::default, (), final(state).gotham_state)
                &&& call_ensures(E::ResourceTable::default, (), final(state).resource_table)
                &&& final(state).waker == state.waker
                &&& final(state).feature_checker == state.feature_checker
                &&& final(state).external_ops_tracker == state.external_ops_tracker
                &&& final(state).op_stack_trace_callback == state.op_stack_trace_callback
            },
        forall|state: OpState<E>, target: E::GothamState| #[trigger]
            call_ensures(OpState::<E>::deref, (&state,), &target) ==> target == state.gotham_state,
        forall|state: &mut OpState<E>, target: &mut E::GothamState| #[trigger]
            call_ensures(OpState::<E>::deref_mut, (state,), target) ==> {
                &&& *target == state.gotham_state
                &&& final(state).gotham_state == *final(target)
                &&& final(state).resource_table == state.resource_table
                &&& final(state).waker == state.waker
                &&& final(state).feature_checker == state.feature_checker
                &&& final(state).external_ops_tracker == state.external_ops_tracker
                &&& final(state).op_stack_trace_callback == state.op_stack_trace_callback
            },
{
}

/// What is said of a conflict names the kind of the borrow and the thread, and reads the stack as
/// it is described.
pub proof fn law_borrow_failure(
    kind: &str,
    thread: &str,
    frames: OpStackAccess<'_>,
    text: String,
    description: String,
)
    requires
        call_ensures(op_state_borrow_failed, (kind, thread, &frames), text),
        call_ensures(op_stack_description, (&frames,), description),
    ensures
        text@ == "op state is already borrowed; this op wanted a "@ + kind@ + " borrow on "@
            + thread@ + ". Live op frames: "@ + description@,
{
}

/// An attempt that succeeded is passed on, and one that failed is reported.
pub proof fn law_attempt_is_passed_on<B, X>(
    attempt: Result<B, X>,
    kind: &str,
    thread: &str,
    frames: OpStackAccess<'_>,
    r: Result<B, String>,
    description: String,
)
    requires
        call_ensures(borrowed_or_reason::<B, X>, (attempt, kind, thread, &frames), r),
        call_ensures(op_stack_description, (&frames,), description),
    ensures
        match attempt {
            Ok(reference) => r == Ok::<B, String>(reference),
            Err(_) => r matches Err(text) && text@
                == "op state is already borrowed; this op wanted a "@ + kind@ + " borrow on "@
                + thread@ + ". Live op frames: "@ + description@,
        },
{
}

/// Borrowing the op state gives what an attempt to borrow it gives: the very reference, or a report
/// of the conflict that names the kind of the borrow.
pub proof fn law_borrow<S>(
    state: &RefCell<S>,
    thread: &str,
    frames: OpStackAccess<'_>,
    shared: Result<Ref<'_, S>, String>,
    exclusive: Result<RefMut<'_, S>, String>,
    description: String,
)
    requires
        call_ensures(borrow_op_state::<S>, (state, thread, &frames), shared),
        call_ensures(borrow_op_state_mut::<S>, (state, thread, &frames), exclusive),
        call_ensures(op_stack_description, (&frames,), description),
    ensures
        match shared {
            Ok(reference) => call_ensures(
                RefCell::<S>::try_borrow,
                (state,),
                Ok::<Ref<'_, S>, BorrowError>(reference),
            ),
            Err(text) => {
                &&& exists|conflict: BorrowError| #[trigger]
                    call_ensures(
                        RefCell::<S>::try_borrow,
                        (state,),
                        Err::<Ref<'_, S>, BorrowError>(conflict),
                    )
                &&& text@ == "op state is already borrowed; this op wanted a "@ + "shared"@
                    + " borrow on "@ + thread@ + ". Live op frames: "@ + description@
            },
        },
        match exclusive {
            Ok(reference) => call_ensures(
                RefCell::<S>::try_borrow_mut,
                (state,),
                Ok::<RefMut<'_, S>, BorrowMutError>(reference),
            ),
            Err(text) => {
                &&& exists|conflict: BorrowMutError| #[trigger]
                    call_ensures(
                        RefCell::<S>::try_borrow_mut,
                        (state,),
                        Err::<RefMut<'_, S>, BorrowMutError>(conflict),
                    )
                &&& text@ == "op state is already borrowed; this op wanted a "@ + "mutable"@
                    + " borrow on "@ + thread@ + ". Live op frames: "@ + description@
            },
        },
{
    let attempt = choose|attempt: Result<Ref<'_, S>, BorrowError>| #[trigger]
        call_ensures(RefCell::<S>::try_borrow, (state,), attempt) && match attempt {
            Ok(reference) => shared == Ok::<Ref<'_, S>, String>(reference),
            Err(_) => shared matches Err(text) && text@ == borrow_failure_text(
                "shared"@,
                thread@,
                frames,
            ),
        };
    match attempt {
        Ok(_) => {},
        Err(conflict) => {
            assert(call_ensures(
                RefCell::<S>::try_borrow,
                (state,),
                Err::<Ref<'_, S>, BorrowError>(conflict),
            ));
        },
    }
    let attempt = choose|attempt: Result<RefMut<'_, S>, BorrowMutError>| #[trigger]
        call_ensures(RefCell::<S>::try_borrow_mut, (state,), attempt) && match attempt {
            Ok(reference) => exclusive == Ok::<RefMut<'_, S>, String>(reference),
            Err(_) => exclusive matches Err(text) && text@ == borrow_failure_text(
                "mutable"@,
                thread@,
                frames,
            ),
        };
    match attempt {
        Ok(_) => {},
        Err(conflict) => {
            assert(call_ensures(
                RefCell::<S>::try_borrow_mut,
                (state,),
                Err::<RefMut<'_, S>, BorrowMutError>(conflict),
            ));
        },
    }
}

/// Every context gives its references, and every op starts that is re-entrant or that nothing keeps
/// out. All else can be called at any time.
pub proof fn law_ops_accept<E: Embedder, S>()
    ensures
        forall|ctx: OpCtx<E>| #[trigger]
            call_requires(OpCtx::<E>::external_references, (&ctx,)),
        forall|
            current: &mut CurrentOp,
            stack: Option<&mut OpStack>,
            decl: OpDecl<E>,
            thread: String,
        |
            decl.is_reentrant || current.op is None ==> #[trigger] call_requires(
                reentrancy_check::<E>,
                (current, stack, &decl, thread),
            ),
        forall|current: CurrentOp, decl: OpDecl<E>| #[trigger]
            call_requires(reentrancy_conflict::<E>, (&current, &decl)),
        forall|guard: ReentrancyGuard, current: &mut CurrentOp, stack: Option<&mut OpStack>|
            #[trigger] call_requires(ReentrancyGuard::drop, (guard, current, stack)),
        forall|access: OpStackAccess<'_>| #[trigger]
            call_requires(op_stack_description, (&access,)),
        forall|tracker: &mut ExternalOpsTracker| #[trigger]
            call_requires(ExternalOpsTracker::ref_op, (tracker,)),
        forall|tracker: &mut ExternalOpsTracker| #[trigger]
            call_requires(ExternalOpsTracker::unref_op, (tracker,)),
        forall|tracker: ExternalOpsTracker| #[trigger]
            call_requires(ExternalOpsTracker::has_pending_ops, (&tracker,)),
        forall|state: &mut OpState<E>| #[trigger] call_requires(OpState::<E>::clear, (state,)),
        forall|state: RefCell<S>, thread: &str, frames: OpStackAccess<'_>| #[trigger]
            call_requires(borrow_op_state::<S>, (&state, thread, &frames)),
        forall|state: RefCell<S>, thread: &str, frames: OpStackAccess<'_>| #[trigger]
            call_requires(borrow_op_state_mut::<S>, (&state, thread, &frames)),
{
}

} // verus!
