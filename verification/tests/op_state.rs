use op_driver::op_ctx::ExternalReference;
use op_driver::op_ctx::OpCtx;
use op_driver::op_decl::Embedder;
use op_driver::op_decl::OpDecl;
use op_driver::op_stack::OpFrame;
use op_driver::op_stack::OpStack;
use op_driver::op_stack::OpStackAccess;
use op_driver::op_state::borrow_op_state;
use op_driver::op_state::borrow_op_state_mut;
use op_driver::op_state::borrowed_or_reason;
use op_driver::op_state::op_state_borrow_failed;
use op_driver::op_state::ExternalOpsTracker;
use op_driver::op_state::OpState;
use std::cell::RefCell;
use std::rc::Rc;
use std::sync::Arc;

struct Host;

impl Embedder for Host {
    type Isolate = &'static str;
    type SlowFn = u32;
    type FastFn = u64;
    type MetricsFn = fn();
    type OpDriver = String;
    type RuntimeState = Vec<u8>;
    type OpState = OpState<Host>;
    type ResourceTable = Vec<&'static str>;
    type GothamState = Vec<i32>;
    type FeatureChecker = u8;
    type ExternalOpsTracker = ExternalOpsTracker;
    type OpStackTraceCallback = char;
}

fn state() -> OpState<Host> {
    OpState::new(None, Some('c'))
}

fn stack() -> OpStack {
    let mut stack = OpStack::new();
    stack.frames.push(OpFrame {
        name: "op_a",
        thread: "ThreadId(1)".to_string(),
    });
    stack
}

#[test]
fn new_state_is_empty() {
    let state = state();
    assert!(state.resource_table.is_empty());
    assert!(state.gotham_state.is_empty());
    assert_eq!(*state.feature_checker, 0);
    assert!(!state.external_ops_tracker.has_pending_ops());
    assert_eq!(state.op_stack_trace_callback, Some('c'));
    assert!(state.waker.take().is_none());
}

#[test]
fn given_feature_checker_is_kept() {
    let checker = Arc::new(7);
    let state = OpState::<Host>::new(Some(checker.clone()), None);
    assert!(Arc::ptr_eq(&state.feature_checker, &checker));
    assert_eq!(state.op_stack_trace_callback, None);
}

#[test]
fn clear_empties_resources_and_shared_state_only() {
    let mut state = OpState::<Host>::new(Some(Arc::new(7)), Some('c'));
    state.resource_table.push("file");
    state.deref_mut().push(3);
    assert_eq!(state.deref(), &vec![3]);
    state.external_ops_tracker.ref_op();
    state.clear();
    assert!(state.resource_table.is_empty());
    assert!(state.deref().is_empty());
    assert_eq!(*state.feature_checker, 7);
    assert_eq!(state.op_stack_trace_callback, Some('c'));
    assert!(state.external_ops_tracker.has_pending_ops());
}

#[test]
fn tracker_counts() {
    let mut tracker = ExternalOpsTracker::with_count(0);
    assert!(!tracker.has_pending_ops());
    tracker.unref_op();
    assert_eq!(tracker.get(), 0);
    tracker.ref_op();
    tracker.ref_op();
    assert_eq!(tracker.get(), 2);
    tracker.unref_op();
    assert!(tracker.has_pending_ops());
    tracker.unref_op();
    assert!(!tracker.has_pending_ops());
    tracker.unref_op();
    assert_eq!(tracker.get(), 0);
}

#[test]
fn full_tracker_starts_over() {
    let mut tracker = ExternalOpsTracker::with_count(usize::MAX);
    tracker.ref_op();
    assert_eq!(tracker.get(), 0);
}

#[test]
fn refs_add_up_from_any_count() {
    for start in [0, 7, usize::MAX - 3] {
        let mut tracker = ExternalOpsTracker::with_count(start);
        for refs in 1..4 {
            tracker.ref_op();
            assert_eq!(tracker.get(), start + refs);
            assert!(tracker.has_pending_ops());
        }
    }
    let mut tracker = ExternalOpsTracker::with_count(usize::MAX - 1);
    for _ in 0..4 {
        tracker.ref_op();
    }
    assert_eq!(tracker.get(), 2);
}

#[test]
fn free_state_is_borrowed() {
    let cell = RefCell::new(state());
    let stack = stack();
    let frames = OpStackAccess::Frames(&stack);
    match borrow_op_state_mut(&cell, "ThreadId(1)", &frames) {
        Ok(mut state) => state.gotham_state.push(1),
        Err(reason) => panic!("{}", reason),
    }
    let first = borrow_op_state(&cell, "ThreadId(1)", &frames);
    let second = borrow_op_state(&cell, "ThreadId(1)", &frames);
    assert_eq!(first.unwrap().gotham_state, vec![1]);
    assert!(second.is_ok());
}

#[test]
fn conflicting_borrow_names_the_frames() {
    let cell = RefCell::new(state());
    let stack = stack();
    let frames = OpStackAccess::Frames(&stack);
    let held = cell.borrow_mut();
    match borrow_op_state(&cell, "ThreadId(1)", &frames) {
        Ok(_) => panic!("the state is borrowed"),
        Err(reason) => assert_eq!(
            reason,
            "op state is already borrowed; this op wanted a shared borrow on ThreadId(1). \
             Live op frames: op_a on ThreadId(1)"
        ),
    }
    drop(held);
    let held = cell.borrow();
    match borrow_op_state_mut(&cell, "ThreadId(2)", &OpStackAccess::Unavailable) {
        Ok(_) => panic!("the state is borrowed"),
        Err(reason) => assert_eq!(
            reason,
            "op state is already borrowed; this op wanted a mutable borrow on ThreadId(2). \
             Live op frames: <op stack unavailable>"
        ),
    }
    drop(held);
}

#[test]
fn attempt_is_passed_on_or_explained() {
    let frames = OpStackAccess::Untracked;
    assert_eq!(
        borrowed_or_reason::<u8, ()>(Ok(3), "shared", "T", &frames),
        Ok(3)
    );
    assert_eq!(
        borrowed_or_reason::<u8, ()>(Err(()), "shared", "T", &frames),
        Err(op_state_borrow_failed("shared", "T", &frames))
    );
    assert_eq!(
        op_state_borrow_failed("shared", "T", &frames),
        "op state is already borrowed; this op wanted a shared borrow on T. \
         Live op frames: <only tracked in debug builds>"
    );
}

fn nothing() {}

fn ctx(fast_fn: Option<u64>, fast_fn_with_metrics: Option<u64>, metrics: bool) -> OpCtx<Host> {
    let metrics_fn = if metrics { Some(nothing as fn()) } else { None };
    let decl = OpDecl {
        name: "op_a",
        is_reentrant: false,
        slow_fn: 1,
        slow_fn_with_metrics: 2,
        fast_fn,
        fast_fn_with_metrics,
    };
    OpCtx::new(
        9,
        "isolate",
        Rc::new("driver".to_string()),
        decl,
        Rc::new(RefCell::new(state())),
        vec![4],
        metrics_fn,
        true,
    )
}

fn describe(references: [ExternalReference<Host>; 4]) -> Vec<String> {
    references
        .into_iter()
        .map(|reference| match reference {
            ExternalReference::Context => "context".to_string(),
            ExternalReference::SlowFunction(f) => format!("slow {}", f),
            ExternalReference::FastFunction(f) => format!("fast {}", f),
            ExternalReference::FastFunctionInfo(f) => format!("info {}", f),
            ExternalReference::Null => "null".to_string(),
        })
        .collect()
}

#[test]
fn references_without_metrics() {
    assert_eq!(
        describe(ctx(Some(3), Some(4), false).external_references()),
        vec!["context", "slow 1", "fast 3", "info 3"]
    );
    assert_eq!(
        describe(ctx(None, Some(4), false).external_references()),
        vec!["context", "slow 1", "null", "null"]
    );
}

#[test]
fn references_with_metrics() {
    assert_eq!(
        describe(ctx(Some(3), Some(4), true).external_references()),
        vec!["context", "slow 2", "fast 4", "info 4"]
    );
    assert_eq!(
        describe(ctx(Some(3), None, true).external_references()),
        vec!["context", "slow 2", "null", "null"]
    );
}

#[test]
fn references_need_both_the_function_and_its_types() {
    let mut ctx = ctx(Some(3), None, false);
    ctx.fast_fn_info = None;
    assert_eq!(
        describe(ctx.external_references()),
        vec!["context", "slow 1", "null", "null"]
    );
}

#[test]
fn context_keeps_what_it_is_given() {
    let ctx = ctx(Some(3), Some(4), true);
    assert_eq!(ctx.id, 9);
    assert_eq!(ctx.isolate, "isolate");
    assert_eq!(ctx.decl().name, "op_a");
    assert!(ctx.metrics_enabled());
    assert_eq!(ctx.fast_fn_info, Some(4));
    assert_eq!(ctx.op_driver(), "driver");
    assert_eq!(ctx.runtime_state(), &vec![4]);
    assert!(ctx.enable_stack_trace);
}
