//! What holds of op frames, op contexts and the tracker of outside operations over several calls.
use vstd::arithmetic::div_mod::lemma_fundamental_div_mod;
use vstd::arithmetic::div_mod::lemma_fundamental_div_mod_converse;
use vstd::arithmetic::div_mod::lemma_small_mod;
use vstd::arithmetic::mul::lemma_mul_is_commutative;
use vstd::prelude::*;

use crate::op_ctx::fast_fn;
use crate::op_ctx::references_of;
use crate::op_ctx::slow_fn;
use crate::op_ctx::ExternalReference;
use crate::op_ctx::OpCtx;
use crate::op_decl::Embedder;
use crate::op_stack::frame_text;
use crate::op_stack::frames_on_exit;
use crate::op_stack::stack_text;
use crate::op_stack::CurrentOp;
use crate::op_stack::OpFrame;
use crate::op_stack::OpStack;
use crate::op_stack::OpStackAccess;
use crate::op_state::after_ref;
use crate::op_state::after_unref;

verus! {

/// Ops invoked one after the other, each with the ops that it invokes in turn.
pub enum OpCalls {
    Nothing,
    Call {
        frame: OpFrame,
        /// Whether the op keeps others from being invoked.
        blocking: bool,
        /// What is invoked while the op runs.
        inner: Box<OpCalls>,
        /// What is invoked after it.
        next: Box<OpCalls>,
    },
}

/// Runs `calls` on a thread, each op entered and left. There is no outcome where an op is invoked
/// that the thread does not admit.
pub open spec fn run_calls(current: CurrentOp, frames: Seq<OpFrame>, calls: OpCalls) -> Option<
    (CurrentOp, Seq<OpFrame>),
>
    decreases calls,
{
    match calls {
        OpCalls::Nothing => Some((current, frames)),
        OpCalls::Call { frame, blocking, inner, next } => if !current.admits(blocking) {
            None
        } else {
            match run_calls(
                current.on_entry(frame.name, blocking),
                frames.push(frame),
                *inner,
            ) {
                Some((current, frames)) => run_calls(
                    current.on_exit(blocking),
                    frames_on_exit(frames),
                    *next,
                ),
                None => None,
            }
        },
    }
}

/// No op that keeps others from being invoked is invoked inside another one, at any depth;
/// `inside` tells whether `calls` are made inside one.
pub open spec fn never_nests_blocking(calls: OpCalls, inside: bool) -> bool
    decreases calls,
{
    match calls {
        OpCalls::Nothing => true,
        OpCalls::Call { blocking, inner, next, .. } => {
            &&& !(blocking && inside)
            &&& never_nests_blocking(*inner, blocking || inside)
            &&& never_nests_blocking(*next, inside)
        },
    }
}

/// Ops that run to their end leave the thread as they found it, however they nest.
pub proof fn law_calls_restore_the_thread(
    current: CurrentOp,
    frames: Seq<OpFrame>,
    calls: OpCalls,
)
    ensures
        run_calls(current, frames, calls) matches Some(end) ==> end == (current, frames),
    decreases calls,
{
    match calls {
        OpCalls::Nothing => {},
        OpCalls::Call { frame, blocking, inner, next } => {
            if current.admits(blocking) {
                let entered = current.on_entry(frame.name, blocking);
                law_calls_restore_the_thread(entered, frames.push(frame), *inner);
                assert(frames_on_exit(frames.push(frame)) =~= frames);
                assert(entered.on_exit(blocking) == current);
                law_calls_restore_the_thread(current, frames, *next);
            }
        },
    }
}

/// Ops run to their end just when none that keeps others from being invoked is invoked inside
/// another one. Ops marked as re-entrant are admitted anywhere.
pub proof fn law_calls_run_unless_blocking_ops_nest(
    current: CurrentOp,
    frames: Seq<OpFrame>,
    calls: OpCalls,
)
    ensures
        run_calls(current, frames, calls) is Some <==> never_nests_blocking(
            calls,
            current.op is Some,
        ),
    decreases calls,
{
    match calls {
        OpCalls::Nothing => {},
        OpCalls::Call { frame, blocking, inner, next } => {
            if current.admits(blocking) {
                let entered = current.on_entry(frame.name, blocking);
                law_calls_run_unless_blocking_ops_nest(entered, frames.push(frame), *inner);
                law_calls_restore_the_thread(entered, frames.push(frame), *inner);
                assert(frames_on_exit(frames.push(frame)) =~= frames);
                assert(entered.on_exit(blocking) == current);
                law_calls_run_unless_blocking_ops_nest(current, frames, *next);
            }
        },
    }
}

/// The description of a stack reads outermost first: an op entered on top of others is appended
/// to what was said of them.
pub proof fn law_description_appends(below: OpStack, stack: OpStack, frame: OpFrame)
    requires
        below.frames@.len() > 0,
        stack.frames@ == below.frames@.push(frame),
    ensures
        stack_text(OpStackAccess::Frames(&stack)) == stack_text(OpStackAccess::Frames(&below))
            + " -> "@ + frame_text(frame),
{
    assert(stack.frames@.drop_last() =~= below.frames@);
}

/// `unref_op` undoes `ref_op`, short of a full count.
pub proof fn law_unref_undoes_ref(count: usize)
    requires
        count < usize::MAX,
    ensures
        after_unref(after_ref(count)) == count,
{
}

/// The count after `n` operations more.
pub open spec fn after_refs(count: usize, n: nat) -> usize
    decreases n,
{
    if n == 0 {
        count
    } else {
        after_ref(after_refs(count, (n - 1) as nat))
    }
}

/// The count after `n` operations less.
pub open spec fn after_unrefs(count: usize, n: nat) -> usize
    decreases n,
{
    if n == 0 {
        count
    } else {
        after_unref(after_unrefs(count, (n - 1) as nat))
    }
}

/// However many calls of `ref_op` there are, from whatever count, they add up, and start over from
/// zero where the count is full. Short of that, operations are pending after any of them.
pub proof fn law_refs_add_up(count: usize, refs: nat)
    ensures
        after_refs(count, refs) == (count + refs) % (usize::MAX + 1),
        count + refs <= usize::MAX ==> after_refs(count, refs) == count + refs,
        0 < refs <= usize::MAX - count ==> after_refs(count, refs) > 0,
    decreases refs,
{
    let full: int = usize::MAX + 1;
    if refs == 0 {
        lemma_small_mod(count as nat, full as nat);
    } else {
        let before: int = count + refs - 1;
        law_refs_add_up(count, (refs - 1) as nat);
        lemma_fundamental_div_mod(before, full);
        let times: int = before / full;
        let rest: int = before % full;
        if rest + 1 < full {
            lemma_fundamental_div_mod_converse(before + 1, full, times, rest + 1);
        } else {
            assert(full * (times + 1) == full * times + full) by (nonlinear_arith);
            lemma_mul_is_commutative(full, times + 1);
            lemma_fundamental_div_mod_converse(before + 1, full, times + 1, 0);
        }
    }
    if count + refs <= usize::MAX {
        lemma_small_mod((count + refs) as nat, full as nat);
    }
}

/// Operations are pending until as many were unreferenced as there were at first and were
/// referenced since, and more calls of `unref_op` change nothing.
pub proof fn law_pending_until_unreferenced(count: usize, refs: nat, unrefs: nat)
    requires
        count + refs <= usize::MAX,
    ensures
        after_unrefs(after_refs(count, refs), unrefs) > 0 <==> unrefs < count + refs,
        after_unrefs(after_refs(count, refs), unrefs) == if unrefs < count + refs {
            count + refs - unrefs
        } else {
            0
        },
    decreases unrefs,
{
    law_refs_add_up(count, refs);
    if unrefs > 0 {
        law_pending_until_unreferenced(count, refs, (unrefs - 1) as nat);
    }
}

/// Every op takes up four external references, and those of its fast function stand there just
/// when it has one, as a pair that describes one function.
pub proof fn law_references_fill_four_slots<E: Embedder>(ctx: OpCtx<E>)
    requires
        ctx.wf(),
    ensures
        ({
            let metrics = ctx.metrics_fn is Some;
            let slots = references_of::<E>(
                slow_fn(ctx.decl, metrics),
                fast_fn(ctx.decl, metrics),
                ctx.fast_fn_info,
            );
            &&& slots.len() == 4
            &&& slots[0] is Context
            &&& slots[1] == ExternalReference::<E>::SlowFunction(slow_fn(ctx.decl, metrics))
            &&& match fast_fn(ctx.decl, metrics) {
                Some(f) => slots[2] == ExternalReference::<E>::FastFunction(f) && slots[3]
                    == ExternalReference::<E>::FastFunctionInfo(f),
                None => slots[2] is Null && slots[3] is Null,
            }
        }),
{
}

} // verus!
