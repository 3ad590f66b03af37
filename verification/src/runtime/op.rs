//! One operation in flight.
//!
//! An operation outlives the future that started it. Where that future is dropped while the
//! kernel still works, the operation is orphaned and keeps the memory that the kernel may touch
//! until the kernel reports that it is done.

use vstd::prelude::*;

verus! {

/// What the kernel reported: a result or a negative error number, and flags.
#[derive(Clone, Copy, Debug, PartialEq, Eq, Structural)]
pub struct CqeResult {
    pub res: i32,
    pub flags: u32,
}

/// Whether the kernel is done.
pub enum OpState<W> {
    /// It is not; this one is to be woken.
    Waiting(Option<W>),
    /// It is, with this result.
    Complete(CqeResult),
}

/// An operation with the memory kept for it.
pub struct Op<K, W> {
    pub state: OpState<W>,
    /// The future that started it is gone.
    pub orphaned: bool,
    pub keepalive: Option<K>,
}

impl<K, W> Op<K, W> {
    /// An operation that has just been queued.
    pub fn waiting(keepalive: Option<K>) -> (r: Op<K, W>)
        ensures
            r == (Op { state: OpState::<W>::Waiting(None), orphaned: false, keepalive }),
    {
        Op { state: OpState::Waiting(None), orphaned: false, keepalive }
    }
}

} // verus!
