//! Drives the async ops of a runtime, and keeps what ops know of themselves and share.
//!
//! - [`submission_queue`], with its [`waker`] slot: a queue of futures that accepts submissions
//!   while it is being polled; [`queue_calls`] says what each call does, and [`queue_laws`] what
//!   holds over several calls.
//! - [`op_results`], [`op_futures`] and [`driver`]: ops in flight on such a queue; [`driver_calls`]
//!   says what each call on a driver does, [`delivery_laws`] what ops are answered with,
//!   [`driver_laws`] what holds over several calls, and [`driver_history`] what holds over any
//!   number of them.
//! - [`op_decl`], [`op_ctx`], [`op_stack`] and [`op_state`]: the declaration of an op, its
//!   context, the frames of running ops, and the state that ops share; [`op_calls`] says what each
//!   call does, and [`op_laws`] what holds over several calls.
pub mod delivery_laws;
pub mod driver;
pub mod driver_calls;
pub mod driver_history;
pub mod driver_laws;
pub mod op_calls;
pub mod op_ctx;
pub mod op_decl;
pub mod op_futures;
pub mod op_laws;
pub mod op_results;
pub mod op_stack;
pub mod op_state;
pub mod queue_calls;
pub mod queue_laws;
pub mod submission_queue;
pub mod waker;
