//! Which ops are running on a thread, and which of them may invoke others.
use vstd::prelude::*;
use vstd::string::*;

use crate::op_decl::Embedder;
use crate::op_decl::OpDecl;

verus! {

/// One op running on a thread.
pub struct OpFrame {
    /// The name of the op.
    pub name: &'static str,
    /// The thread that runs it, as it prints.
    pub thread: String,
}

/// The ops running on a thread, outermost first. It names who is running and decides nothing.
pub struct OpStack {
    pub frames: Vec<OpFrame>,
}

impl OpStack {
    /// The stack of a thread on which no op is running.
    pub fn new() -> (stack: OpStack)
        ensures
            stack.frames@ == Seq::<OpFrame>::empty(),
    {
        OpStack { frames: Vec::new() }
    }
}

/// The op on a thread that keeps others from being invoked, if one is running.
pub struct CurrentOp {
    /// The name of the op.
    pub op: Option<&'static str>,
}

impl CurrentOp {
    /// The state of a thread on which nothing keeps ops from being invoked.
    pub fn new() -> (current: CurrentOp)
        ensures
            current.op is None,
    {
        CurrentOp { op: None }
    }

    /// Whether an op may be invoked: a blocking one only while no other is running.
    pub open spec fn admits(self, blocking: bool) -> bool {
        blocking ==> self.op is None
    }

    /// The state while the op `name` runs.
    pub open spec fn on_entry(self, name: &'static str, blocking: bool) -> CurrentOp {
        CurrentOp {
            op: if blocking {
                Some(name)
            } else {
                self.op
            },
        }
    }

    /// The state after an op has run.
    pub open spec fn on_exit(self, blocking: bool) -> CurrentOp {
        CurrentOp {
            op: if blocking {
                None
            } else {
                self.op
            },
        }
    }
}

/// The frames after an op has run.
pub open spec fn frames_on_exit(frames: Seq<OpFrame>) -> Seq<OpFrame> {
    if frames.len() > 0 {
        frames.drop_last()
    } else {
        frames
    }
}

/// Stands for an op that is running.
pub struct ReentrancyGuard {
    /// Whether this op keeps others from being invoked.
    blocking: bool,
}

impl ReentrancyGuard {
    /// Whether this op keeps others from being invoked.
    pub closed spec fn is_blocking(&self) -> bool {
        self.blocking
    }

    /// Ends the op. `stack` is the stack of the thread, if it could be reached.
    pub fn drop(self, current: &mut CurrentOp, stack: Option<&mut OpStack>)
        ensures
            *final(current) == old(current).on_exit(self.is_blocking()),
            stack matches Some(stack) ==> final(stack).frames@ == frames_on_exit(stack.frames@),
    {
        if self.blocking {
            current.op = None;
        }
        if let Some(stack) = stack {
            let _ = stack.frames.pop();
        }
    }
}

/// What is said when the op `current`, which keeps others from being invoked, invokes `invoked`.
pub open spec fn conflict_text(current: Seq<char>, invoked: Seq<char>) -> Seq<char> {
    "op "@ + current + " was not marked as #[op2(reentrant)], but re-entrantly invoked op "@
        + invoked
}

/// Tells why the op `decl` must not be invoked, if it must not.
pub fn reentrancy_conflict<E: Embedder>(current: &CurrentOp, decl: &OpDecl<E>) -> (reason: Option<
    String,
>)
    ensures
        reason is Some <==> !current.admits(!decl.is_reentrant),
        reason matches Some(text) ==> text@ == conflict_text(current.op->0@, decl.name@),
{
    if decl.is_reentrant {
        return None;
    }
    match current.op {
        Some(running) => {
            let mut text = String::from_str("op ");
            text.append(running);
            text.append(" was not marked as #[op2(reentrant)], but re-entrantly invoked op ");
            text.append(decl.name);
            Some(text)
        },
        None => None,
    }
}

/// Starts the op `decl` on `thread`. A re-entrant op gets a frame like any other, but does not
/// keep others from being invoked. `stack` is the stack of the thread, if it could be reached.
pub fn reentrancy_check<E: Embedder>(
    current: &mut CurrentOp,
    stack: Option<&mut OpStack>,
    decl: &OpDecl<E>,
    thread: String,
) -> (guard: Option<ReentrancyGuard>)
    requires
        old(current).admits(!decl.is_reentrant),
    ensures
        guard matches Some(guard) && guard.is_blocking() == !decl.is_reentrant,
        *final(current) == old(current).on_entry(decl.name, !decl.is_reentrant),
        stack matches Some(stack) ==> final(stack).frames@ == stack.frames@.push(
            (OpFrame { name: decl.name, thread }),
        ),
{
    let blocking = !decl.is_reentrant;
    if blocking {
        current.op = Some(decl.name);
    }
    if let Some(stack) = stack {
        stack.frames.push(OpFrame { name: decl.name, thread });
    }
    Some(ReentrancyGuard { blocking })
}

/// What an attempt to read the stack of a thread found.
pub enum OpStackAccess<'a> {
    /// The stack.
    Frames(&'a OpStack),
    /// The stack could not be reached.
    Unavailable,
    /// No stack is kept in this build.
    Untracked,
}

/// How a frame reads.
pub open spec fn frame_text(frame: OpFrame) -> Seq<char> {
    frame.name@ + " on "@ + frame.thread@
}

/// How frames read, one after the other.
pub open spec fn frames_text(frames: Seq<OpFrame>) -> Seq<char>
    decreases frames.len(),
{
    if frames.len() == 0 {
        Seq::empty()
    } else if frames.len() == 1 {
        frame_text(frames[0])
    } else {
        frames_text(frames.drop_last()) + " -> "@ + frame_text(frames.last())
    }
}

/// How an attempt to read a stack reads.
pub open spec fn stack_text(access: OpStackAccess<'_>) -> Seq<char> {
    match access {
        OpStackAccess::Frames(stack) => if stack.frames@.len() == 0 {
            "<no op frames>"@
        } else {
            frames_text(stack.frames@)
        },
        OpStackAccess::Unavailable => "<op stack unavailable>"@,
        OpStackAccess::Untracked => "<only tracked in debug builds>"@,
    }
}

/// Renders a thread's op frames, outermost first.
pub fn op_stack_description(access: &OpStackAccess<'_>) -> (text: String)
    ensures
        text@ == stack_text(*access),
{
    match access {
        OpStackAccess::Frames(stack) => {
            let frames = &stack.frames;
            if frames.len() == 0 {
                return String::from_str("<no op frames>");
            }
            let mut text = String::new();
            let mut i: usize = 0;
            while i < frames.len()
                invariant
                    i <= frames.len(),
                    text@ == frames_text(frames@.take(i as int)),
                decreases frames.len() - i,
            {
                let frame = &frames[i];
                proof {
                    assert(frames@.take(i + 1).drop_last() =~= frames@.take(i as int));
                    assert(frames@.take(i + 1).last() == frame);
                }
                if i > 0 {
                    text.append(" -> ");
                }
                text.append(frame.name);
                text.append(" on ");
                text.append(frame.thread.as_str());
                proof {
                    assert(text@ =~= frames_text(frames@.take(i + 1)));
                }
                i = i + 1;
            }
            assert(frames@.take(i as int) =~= frames@);
            text
        },
        OpStackAccess::Unavailable => String::from_str("<op stack unavailable>"),
        OpStackAccess::Untracked => String::from_str("<only tracked in debug builds>"),
    }
}

} // verus!
