//! The state that ops share, and the count of what keeps the event loop alive.
use core::cell::BorrowError;
use core::cell::BorrowMutError;
use core::cell::Ref;
use core::cell::RefCell;
use core::cell::RefMut;
use std::sync::Arc;

use futures::task::AtomicWaker;
use vstd::prelude::*;
use vstd::string::*;

use crate::op_decl::Embedder;
use crate::op_decl::OpsTracker;
use crate::op_stack::op_stack_description;
use crate::op_stack::stack_text;
use crate::op_stack::OpStackAccess;

verus! {

/// A cell that hands out references and tells at run time when they would conflict.
#[verifier::external_type_specification]
#[verifier::external_body]
#[verifier::reject_recursive_types(T)]
pub struct ExRefCell<T: ?Sized>(RefCell<T>);

/// A shared reference into a `RefCell`.
#[verifier::external_type_specification]
#[verifier::external_body]
#[verifier::reject_recursive_types(T)]
pub struct ExRef<'b, T: ?Sized>(Ref<'b, T>);

/// A mutable reference into a `RefCell`.
#[verifier::external_type_specification]
#[verifier::external_body]
#[verifier::reject_recursive_types(T)]
pub struct ExRefMut<'b, T: ?Sized + 'b>(RefMut<'b, T>);

/// Why a `RefCell` gives no shared reference.
#[verifier::external_type_specification]
#[verifier::external_body]
pub struct ExBorrowError(BorrowError);

/// Why a `RefCell` gives no mutable reference.
#[verifier::external_type_specification]
#[verifier::external_body]
pub struct ExBorrowMutError(BorrowMutError);

/// The thread-safe waker slot of the `futures` crate.
#[verifier::external_type_specification]
#[verifier::external_body]
pub struct ExAtomicWaker(AtomicWaker);

/// `RefCell::try_borrow` gives a reference, or an error where a mutable one is out. Which of the
/// two rests on the references that are out when it is called, of which nothing is claimed.
pub assume_specification<T: ?Sized>[ RefCell::<T>::try_borrow ](cell: &RefCell<T>) -> (r: Result<
    Ref<'_, T>,
    BorrowError,
>)
;

/// `RefCell::try_borrow_mut` gives a mutable reference, or an error where any reference is out.
/// Which of the two rests on the references that are out when it is called, of which nothing is
/// claimed.
pub assume_specification<T: ?Sized>[ RefCell::<T>::try_borrow_mut ](
    cell: &RefCell<T>,
) -> (r: Result<RefMut<'_, T>, BorrowMutError>)
;

/// The task whose waker an `AtomicWaker` held when it was made, if it held one. What is registered
/// with the slot later does not change it.
pub uninterp spec fn initial_task(slot: AtomicWaker) -> Option<int>;

/// `AtomicWaker::new` makes a slot that holds no waker.
pub assume_specification[ AtomicWaker::new ]() -> (waker: AtomicWaker)
    ensures
        initial_task(waker) is None,
;

/// The count after one more operation. It starts over from zero where it is full.
pub open spec fn after_ref(count: usize) -> usize {
    if count == usize::MAX {
        0
    } else {
        (count + 1) as usize
    }
}

/// The count after one operation less. Zero stays.
pub open spec fn after_unref(count: usize) -> usize {
    if count == 0 {
        0
    } else {
        (count - 1) as usize
    }
}

/// Counts the operations outside of the ops that should keep the event loop alive.
///
/// A counter that threads share takes one of these steps at a time, atomically.
#[derive(Debug)]
pub struct ExternalOpsTracker {
    counter: usize,
}

impl ExternalOpsTracker {
    /// How many operations are under way.
    pub closed spec fn count(&self) -> usize {
        self.counter
    }

    /// A tracker of `count` operations.
    pub fn with_count(count: usize) -> (tracker: ExternalOpsTracker)
        ensures
            tracker.count() == count,
    {
        ExternalOpsTracker { counter: count }
    }

    /// How many operations are under way.
    pub fn get(&self) -> (count: usize)
        ensures
            count == self.count(),
    {
        self.counter
    }

    /// Counts one more operation. The count starts over from zero where it is full.
    pub fn ref_op(&mut self)
        ensures
            final(self).count() == after_ref(old(self).count()),
    {
        self.counter = self.counter.wrapping_add(1);
    }

    /// Counts one operation less. A count of zero stays.
    pub fn unref_op(&mut self)
        ensures
            final(self).count() == after_unref(old(self).count()),
    {
        if self.counter != 0 {
            self.counter = self.counter - 1;
        }
    }

    /// Whether any operation is under way.
    pub fn has_pending_ops(&self) -> (pending: bool)
        ensures
            pending == (self.count() > 0),
    {
        self.counter > 0
    }
}

impl OpsTracker for ExternalOpsTracker {
    open spec fn under_way(&self) -> usize {
        self.count()
    }

    fn idle() -> (tracker: ExternalOpsTracker) {
        ExternalOpsTracker::with_count(0)
    }
}

/// Maintains the resources and ops inside a runtime.
pub struct OpState<E: Embedder> {
    pub resource_table: E::ResourceTable,
    pub gotham_state: E::GothamState,
    pub waker: Arc<AtomicWaker>,
    pub feature_checker: Arc<E::FeatureChecker>,
    pub external_ops_tracker: E::ExternalOpsTracker,
    pub op_stack_trace_callback: Option<E::OpStackTraceCallback>,
}

impl<E: Embedder> OpState<E> {
    /// A state with no resources, nothing shared, no operation under way, and a waker slot that is
    /// newly made and empty. Without a feature checker it takes the default one.
    pub fn new(
        maybe_feature_checker: Option<Arc<E::FeatureChecker>>,
        op_stack_trace_callback: Option<E::OpStackTraceCallback>,
    ) -> (state: OpState<E>)
        ensures
            call_ensures(E::ResourceTable::default, (), state.resource_table),
            call_ensures(E::GothamState::default, (), state.gotham_state),
            call_ensures(AtomicWaker::new, (), *state.waker),
            initial_task(*state.waker) is None,
            match maybe_feature_checker {
                Some(checker) => state.feature_checker == checker,
                None => call_ensures(E::FeatureChecker::default, (), *state.feature_checker),
            },
            state.external_ops_tracker.under_way() == 0,
            state.op_stack_trace_callback == op_stack_trace_callback,
    {
        OpState {
            resource_table: E::ResourceTable::default(),
            gotham_state: E::GothamState::default(),
            waker: Arc::new(AtomicWaker::new()),
            feature_checker: match maybe_feature_checker {
                Some(checker) => checker,
                None => Arc::new(E::FeatureChecker::default()),
            },
            external_ops_tracker: E::ExternalOpsTracker::idle(),
            op_stack_trace_callback,
        }
    }

    /// Clears all user-provided resources and state.
    pub fn clear(&mut self)
        ensures
            call_ensures(E::GothamState::default, (), final(self).gotham_state),
            call_ensures(E::ResourceTable::default, (), final(self).resource_table),
            final(self).waker == old(self).waker,
            final(self).feature_checker == old(self).feature_checker,
            final(self).external_ops_tracker == old(self).external_ops_tracker,
            final(self).op_stack_trace_callback == old(self).op_stack_trace_callback,
    {
        self.gotham_state = E::GothamState::default();
        self.resource_table = E::ResourceTable::default();
    }

    /// The state that ops share.
    pub fn deref(&self) -> (target: &E::GothamState)
        ensures
            *target == self.gotham_state,
    {
        &self.gotham_state
    }

    /// The state that ops share, to be changed.
    pub fn deref_mut(&mut self) -> (target: &mut E::GothamState)
        ensures
            *target == old(self).gotham_state,
            final(self).gotham_state == *final(target),
            final(self).resource_table == old(self).resource_table,
            final(self).waker == old(self).waker,
            final(self).feature_checker == old(self).feature_checker,
            final(self).external_ops_tracker == old(self).external_ops_tracker,
            final(self).op_stack_trace_callback == old(self).op_stack_trace_callback,
    {
        &mut self.gotham_state
    }
}

/// What is said when the op state cannot be borrowed.
pub open spec fn borrow_failure_text(
    kind: Seq<char>,
    thread: Seq<char>,
    frames: OpStackAccess<'_>,
) -> Seq<char> {
    "op state is already borrowed; this op wanted a "@ + kind + " borrow on "@ + thread
        + ". Live op frames: "@ + stack_text(frames)
}

/// Says that the op state cannot be borrowed, and which op frames are live on the thread that
/// wanted to.
pub fn op_state_borrow_failed(kind: &str, thread: &str, frames: &OpStackAccess<'_>) -> (text: String)
    ensures
        text@ == borrow_failure_text(kind@, thread@, *frames),
{
    let mut text = String::from_str("op state is already borrowed; this op wanted a ");
    text.append(kind);
    text.append(" borrow on ");
    text.append(thread);
    text.append(". Live op frames: ");
    text.append(op_stack_description(frames).as_str());
    text
}

/// Turns an attempt to borrow the op state into the reference, or into what is said where the
/// attempt failed.
pub fn borrowed_or_reason<B, X>(
    attempt: Result<B, X>,
    kind: &str,
    thread: &str,
    frames: &OpStackAccess<'_>,
) -> (r: Result<B, String>)
    ensures
        match attempt {
            Ok(reference) => r == Ok::<B, String>(reference),
            Err(_) => r matches Err(text) && text@ == borrow_failure_text(kind@, thread@, *frames),
        },
{
    match attempt {
        Ok(reference) => Ok(reference),
        Err(_) => Err(op_state_borrow_failed(kind, thread, frames)),
    }
}

/// Borrows the op state for an op on `thread`: returns the reference that `RefCell::try_borrow`
/// gives on `state`. Where it gives none, the conflict is reported with the op frames that are
/// live on that thread, for the conflict itself does not tell who holds the other reference.
pub fn borrow_op_state<'a, S>(
    state: &'a RefCell<S>,
    thread: &str,
    frames: &OpStackAccess<'_>,
) -> (r: Result<Ref<'a, S>, String>)
    ensures
        exists|attempt: Result<Ref<'a, S>, BorrowError>| #[trigger]
            call_ensures(RefCell::<S>::try_borrow, (state,), attempt) && match attempt {
                Ok(reference) => r == Ok::<Ref<'a, S>, String>(reference),
                Err(_) => r matches Err(text) && text@ == borrow_failure_text(
                    "shared"@,
                    thread@,
                    *frames,
                ),
            },
{
    borrowed_or_reason(state.try_borrow(), "shared", thread, frames)
}

/// Mutable counterpart of [`borrow_op_state`], over `RefCell::try_borrow_mut`.
pub fn borrow_op_state_mut<'a, S>(
    state: &'a RefCell<S>,
    thread: &str,
    frames: &OpStackAccess<'_>,
) -> (r: Result<RefMut<'a, S>, String>)
    ensures
        exists|attempt: Result<RefMut<'a, S>, BorrowMutError>| #[trigger]
            call_ensures(RefCell::<S>::try_borrow_mut, (state,), attempt) && match attempt {
                Ok(reference) => r == Ok::<RefMut<'a, S>, String>(reference),
                Err(_) => r matches Err(text) && text@ == borrow_failure_text(
                    "mutable"@,
                    thread@,
                    *frames,
                ),
            },
{
    borrowed_or_reason(state.try_borrow_mut(), "mutable", thread, frames)
}

} // verus!
