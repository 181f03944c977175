//! What an op in flight is known by and what it completes with.
use vstd::prelude::*;

verus! {

/// Names the promise that an op settles.
pub type PromiseId = i32;

/// Names an op.
pub type OpId = u16;

/// The key under which the embedder keeps a value that an op produced.
pub type OpValue = u64;

/// An error that an op failed with, by the key under which the embedder keeps it.
#[derive(Debug, Clone, Copy, PartialEq, Eq, Structural)]
pub struct OpError {
    pub key: u64,
}

/// What an op came to.
pub type OpResult = Result<OpValue, OpError>;

/// What is known of an op in flight: the promise it settles and which op it is.
#[derive(Debug, Clone, Copy, PartialEq, Eq, Structural)]
pub struct PendingOpInfo(pub PromiseId, pub OpId);

/// An op that has completed.
#[derive(Debug)]
pub struct PendingOp(pub PendingOpInfo, pub OpResult);

} // verus!
