use op_driver::op_decl::Embedder;
use op_driver::op_decl::OpDecl;
use op_driver::op_decl::OpMetadata;
use op_driver::op_stack::op_stack_description;
use op_driver::op_stack::reentrancy_check;
use op_driver::op_stack::reentrancy_conflict;
use op_driver::op_stack::CurrentOp;
use op_driver::op_stack::OpFrame;
use op_driver::op_stack::OpStack;
use op_driver::op_stack::OpStackAccess;
use op_driver::op_state::ExternalOpsTracker;

struct Host;

impl Embedder for Host {
    type Isolate = ();
    type SlowFn = usize;
    type FastFn = usize;
    type MetricsFn = ();
    type OpDriver = ();
    type RuntimeState = ();
    type OpState = ();
    type ResourceTable = ();
    type GothamState = ();
    type FeatureChecker = ();
    type ExternalOpsTracker = ExternalOpsTracker;
    type OpStackTraceCallback = ();
}

fn decl(name: &'static str, is_reentrant: bool) -> OpDecl<Host> {
    OpDecl {
        name,
        is_reentrant,
        slow_fn: 0,
        slow_fn_with_metrics: 0,
        fast_fn: None,
        fast_fn_with_metrics: None,
    }
}

fn names(stack: &OpStack) -> Vec<&'static str> {
    stack.frames.iter().map(|frame| frame.name).collect()
}

#[test]
fn blocking_op_keeps_others_out() {
    let mut current = CurrentOp::new();
    let mut stack = OpStack::new();
    let read = decl("op_read", false);
    let write = decl("op_write", false);

    assert_eq!(reentrancy_conflict(&current, &read), None);
    let guard = reentrancy_check(&mut current, Some(&mut stack), &read, "ThreadId(1)".to_string());
    assert_eq!(current.op, Some("op_read"));
    assert_eq!(
        reentrancy_conflict(&current, &write),
        Some(
            "op op_read was not marked as #[op2(reentrant)], but re-entrantly invoked op op_write"
                .to_string()
        )
    );
    guard.unwrap().drop(&mut current, Some(&mut stack));
    assert_eq!(current.op, None);
    assert_eq!(reentrancy_conflict(&current, &write), None);
    assert!(stack.frames.is_empty());
}

#[test]
fn reentrant_op_is_admitted_anywhere_and_blocks_nothing() {
    let mut current = CurrentOp::new();
    let mut stack = OpStack::new();
    let outer = decl("op_outer", true);
    let inner = decl("op_inner", false);
    let innermost = decl("op_innermost", true);

    let outer_guard =
        reentrancy_check(&mut current, Some(&mut stack), &outer, "ThreadId(1)".to_string());
    assert_eq!(current.op, None);
    assert_eq!(reentrancy_conflict(&current, &inner), None);
    let inner_guard =
        reentrancy_check(&mut current, Some(&mut stack), &inner, "ThreadId(1)".to_string());
    assert_eq!(reentrancy_conflict(&current, &innermost), None);
    let innermost_guard =
        reentrancy_check(&mut current, Some(&mut stack), &innermost, "ThreadId(1)".to_string());
    assert_eq!(current.op, Some("op_inner"));
    assert_eq!(names(&stack), vec!["op_outer", "op_inner", "op_innermost"]);

    innermost_guard.unwrap().drop(&mut current, Some(&mut stack));
    assert_eq!(current.op, Some("op_inner"));
    inner_guard.unwrap().drop(&mut current, Some(&mut stack));
    assert_eq!(current.op, None);
    outer_guard.unwrap().drop(&mut current, Some(&mut stack));
    assert!(stack.frames.is_empty());
}

#[test]
fn stack_that_cannot_be_reached_is_left_alone() {
    let mut current = CurrentOp::new();
    let mut stack = OpStack::new();
    let read = decl("op_read", false);
    let guard = reentrancy_check(&mut current, None, &read, "ThreadId(1)".to_string());
    assert_eq!(current.op, Some("op_read"));
    guard.unwrap().drop(&mut current, Some(&mut stack));
    assert_eq!(current.op, None);
    assert!(stack.frames.is_empty());
}

#[test]
fn description_reads_outermost_first() {
    let mut stack = OpStack::new();
    assert_eq!(
        op_stack_description(&OpStackAccess::Frames(&stack)),
        "<no op frames>"
    );
    stack.frames.push(OpFrame {
        name: "op_a",
        thread: "ThreadId(1)".to_string(),
    });
    assert_eq!(
        op_stack_description(&OpStackAccess::Frames(&stack)),
        "op_a on ThreadId(1)"
    );
    stack.frames.push(OpFrame {
        name: "op_b",
        thread: "ThreadId(2)".to_string(),
    });
    stack.frames.push(OpFrame {
        name: "op_c",
        thread: "ThreadId(1)".to_string(),
    });
    assert_eq!(
        op_stack_description(&OpStackAccess::Frames(&stack)),
        "op_a on ThreadId(1) -> op_b on ThreadId(2) -> op_c on ThreadId(1)"
    );
}

#[test]
fn description_without_a_stack() {
    assert_eq!(
        op_stack_description(&OpStackAccess::Unavailable),
        "<op stack unavailable>"
    );
    assert_eq!(
        op_stack_description(&OpStackAccess::Untracked),
        "<only tracked in debug builds>"
    );
}

#[test]
fn default_metadata_says_nothing() {
    let metadata = OpMetadata::default();
    assert_eq!(metadata.sanitizer_details, None);
    assert_eq!(metadata.sanitizer_fix, None);
}
