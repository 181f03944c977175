//! What an op is declared to be.
use vstd::prelude::*;

verus! {

/// The types that the embedder supplies.
pub trait Embedder: Sized {
    /// The isolate that ops run in.
    type Isolate;

    /// The function that the engine calls an op by.
    type SlowFn: Copy;

    /// The function that the engine calls an op by when it can skip its own checks.
    type FastFn: Copy;

    /// The function that op metrics are reported to.
    type MetricsFn;

    /// What drives the async ops.
    type OpDriver;

    /// The state of the runtime that an op belongs to.
    type RuntimeState;

    /// The state that ops reach through their contexts.
    type OpState;

    /// The resources that ops hold open.
    type ResourceTable: Default;

    /// The state that ops share.
    type GothamState: Default;

    /// What decides which unstable features are on.
    type FeatureChecker: Default;

    /// What counts the operations outside of the ops.
    type ExternalOpsTracker: OpsTracker;

    /// What is told the stack trace of an op that asks for one.
    type OpStackTraceCallback;
}

/// Counts the operations outside of the ops that should keep the event loop alive.
///
/// The spec function describes the tracker to the verifier; an implementation that is not verified
/// leaves it out.
pub trait OpsTracker: Sized {
    /// How many operations are under way.
    open spec fn under_way(&self) -> usize {
        arbitrary()
    }

    /// A tracker with no operation under way.
    fn idle() -> (tracker: Self)
        ensures
            tracker.under_way() == 0,
    ;
}

/// The declaration of an op.
pub struct OpDecl<E: Embedder> {
    pub name: &'static str,
    /// Whether other ops may be invoked while this one runs.
    pub is_reentrant: bool,
    pub slow_fn: E::SlowFn,
    pub slow_fn_with_metrics: E::SlowFn,
    pub fast_fn: Option<E::FastFn>,
    pub fast_fn_with_metrics: Option<E::FastFn>,
}

/// What a sanitizer says of an op.
#[derive(Debug, Clone, Copy)]
pub struct OpMetadata {
    /// A description of the op for use in sanitizer output.
    pub sanitizer_details: Option<&'static str>,
    /// The fix for the issue described in `sanitizer_details`.
    pub sanitizer_fix: Option<&'static str>,
}

impl OpMetadata {
    /// Metadata of an op that sanitizers have nothing to say of.
    pub fn default() -> (metadata: OpMetadata)
        ensures
            metadata.sanitizer_details is None,
            metadata.sanitizer_fix is None,
    {
        OpMetadata { sanitizer_details: None, sanitizer_fix: None }
    }
}

} // verus!
