//! Per-op context.
use core::cell::RefCell;
use std::rc::Rc;

use vstd::prelude::*;

use crate::op_decl::Embedder;
use crate::op_decl::OpDecl;
use crate::op_results::OpId;

verus! {

/// One of the addresses that a snapshot refers to from outside.
pub enum ExternalReference<E: Embedder> {
    /// The context of the op.
    Context,
    /// The function that the engine calls the op by.
    SlowFunction(E::SlowFn),
    /// The address of the function that the engine calls the op by on the fast path.
    FastFunction(E::FastFn),
    /// The description of the types of that function.
    FastFunctionInfo(E::FastFn),
    /// Nothing, in the place of a fast function that the op does not have.
    Null,
}

/// Per-op context.
#[verifier::reject_recursive_types(E)]
pub struct OpCtx<E: Embedder> {
    /// The id for this op. Will be identical across realms.
    pub id: OpId,
    /// The isolate that the op runs in.
    pub isolate: E::Isolate,
    pub state: Rc<RefCell<E::OpState>>,
    pub enable_stack_trace: bool,
    pub decl: OpDecl<E>,
    /// The function whose types describe the fast function of the op.
    pub fast_fn_info: Option<E::FastFn>,
    /// Where metrics of the op are reported to.
    pub metrics_fn: Option<E::MetricsFn>,
    pub op_driver: Rc<E::OpDriver>,
    pub runtime_state: E::RuntimeState,
}

/// The slow function of an op, with metrics or without.
pub open spec fn slow_fn<E: Embedder>(decl: OpDecl<E>, metrics: bool) -> E::SlowFn {
    if metrics {
        decl.slow_fn_with_metrics
    } else {
        decl.slow_fn
    }
}

/// The fast function of an op, if it has one, with metrics or without.
pub open spec fn fast_fn<E: Embedder>(decl: OpDecl<E>, metrics: bool) -> Option<E::FastFn> {
    if metrics {
        decl.fast_fn_with_metrics
    } else {
        decl.fast_fn
    }
}

impl<E: Embedder> OpCtx<E> {
    /// The types of the fast function are those of the one in use.
    pub open spec fn wf(&self) -> bool {
        self.fast_fn_info == fast_fn(self.decl, self.metrics_fn is Some)
    }

    /// Makes the context of an op. With metrics, the fast function is the one that reports them,
    /// whose parameters may differ.
    pub fn new(
        id: OpId,
        isolate: E::Isolate,
        op_driver: Rc<E::OpDriver>,
        decl: OpDecl<E>,
        state: Rc<RefCell<E::OpState>>,
        runtime_state: E::RuntimeState,
        metrics_fn: Option<E::MetricsFn>,
        enable_stack_trace: bool,
    ) -> (ctx: OpCtx<E>)
        ensures
            ctx.wf(),
            ctx.id == id,
            ctx.isolate == isolate,
            ctx.state == state,
            ctx.enable_stack_trace == enable_stack_trace,
            ctx.decl == decl,
            ctx.metrics_fn == metrics_fn,
            ctx.op_driver == op_driver,
            ctx.runtime_state == runtime_state,
    {
        let fast_fn_info = if metrics_fn.is_some() {
            decl.fast_fn_with_metrics
        } else {
            decl.fast_fn
        };
        OpCtx {
            id,
            isolate,
            state,
            enable_stack_trace,
            decl,
            fast_fn_info,
            metrics_fn,
            op_driver,
            runtime_state,
        }
    }

    pub fn decl(&self) -> (decl: &OpDecl<E>)
        ensures
            *decl == self.decl,
    {
        &self.decl
    }

    pub fn metrics_enabled(&self) -> (enabled: bool)
        ensures
            enabled == (self.metrics_fn is Some),
    {
        self.metrics_fn.is_some()
    }

    /// Generates four external references for each op. If an op does not have a fastcall, it
    /// generates "null" slots to avoid changing the size of the external references array.
    pub fn external_references(&self) -> (references: [ExternalReference<E>; 4])
        ensures
            references@ == references_of::<E>(
                slow_fn(self.decl, self.metrics_fn is Some),
                fast_fn(self.decl, self.metrics_fn is Some),
                self.fast_fn_info,
            ),
    {
        let slow_fn;
        let fast_fn;
        if self.metrics_enabled() {
            slow_fn = self.decl.slow_fn_with_metrics;
            fast_fn = self.decl.fast_fn_with_metrics;
        } else {
            slow_fn = self.decl.slow_fn;
            fast_fn = self.decl.fast_fn;
        }
        let slow_fn = ExternalReference::SlowFunction(slow_fn);
        if let (Some(fast_fn), Some(fast_fn_info)) = (fast_fn, self.fast_fn_info) {
            [
                ExternalReference::Context,
                slow_fn,
                ExternalReference::FastFunction(fast_fn),
                ExternalReference::FastFunctionInfo(fast_fn_info),
            ]
        } else {
            [
                ExternalReference::Context,
                slow_fn,
                ExternalReference::Null,
                ExternalReference::Null,
            ]
        }
    }

    pub fn op_driver(&self) -> (driver: &E::OpDriver)
        ensures
            *driver == *self.op_driver,
    {
        &*self.op_driver
    }

    /// The state of the runtime that the op belongs to.
    pub fn runtime_state(&self) -> (state: &E::RuntimeState)
        ensures
            *state == self.runtime_state,
    {
        &self.runtime_state
    }
}

/// The external references of an op: its context, its slow function, and the fast function with
/// its description, or two empty slots.
pub open spec fn references_of<E: Embedder>(
    slow_fn: E::SlowFn,
    fast_fn: Option<E::FastFn>,
    fast_fn_info: Option<E::FastFn>,
) -> Seq<ExternalReference<E>> {
    seq![ExternalReference::Context, ExternalReference::SlowFunction(slow_fn)]
        + match (fast_fn, fast_fn_info) {
        (Some(fast_fn), Some(fast_fn_info)) => seq![
            ExternalReference::FastFunction(fast_fn),
            ExternalReference::FastFunctionInfo(fast_fn_info),
        ],
        _ => seq![ExternalReference::Null, ExternalReference::Null],
    }
}

} // verus!
