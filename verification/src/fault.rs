//! Failures of input and output, as the engines see them.

use vstd::prelude::*;
use vstd::string::*;

verus! {

/// The kinds of failure that are told apart.
#[derive(Clone, Copy, Debug, PartialEq, Eq, Structural)]
pub enum IoKind {
    UnexpectedEof,
    TimedOut,
    WouldBlock,
    Interrupted,
    Unsupported,
    WriteZero,
    Other,
}

/// A failed operation: its kind and what is shown of it.
#[derive(Debug)]
pub struct IoFailure {
    pub kind: IoKind,
    pub message: String,
}

impl IoFailure {
    /// The connection ended within a message.
    pub open spec fn is_eof(&self) -> bool {
        self.kind == IoKind::UnexpectedEof && self.message@ == "unexpected end of file"@
    }

    /// The connection ended within a message.
    pub fn unexpected_eof() -> (r: IoFailure)
        ensures
            r.is_eof(),
    {
        IoFailure { kind: IoKind::UnexpectedEof, message: "unexpected end of file".to_owned() }
    }
}

/// An end that comes too early is known by its kind and told by its text.
pub proof fn early_ends_in_words(f: IoFailure)
    requires
        call_ensures(IoFailure::unexpected_eof, (), f),
    ensures
        f.kind == IoKind::UnexpectedEof,
        f.message@ == "unexpected end of file"@,
{
}

} // verus!
