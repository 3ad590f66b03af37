//! Owned buffers.
//!
//! A buffer moves into an operation for as long as the operation lasts and is handed back when
//! it is over, so that the kernel never holds memory that was given away.

use vstd::prelude::*;

verus! {

/// Only the buffers of this module can be handed to the kernel.
pub trait Sealed {
    /// The bytes of the buffer, used or not.
    spec fn storage(&self) -> Seq<u8>;

    /// How many bytes at the start are in use.
    spec fn used(&self) -> nat;
}

/// A buffer that the kernel may read from.
pub trait IoBuf: Sealed {
    /// How many bytes there are to send.
    fn bytes_init(&self) -> (n: usize)
        ensures
            n == self.used(),
    ;
}

/// A buffer that the kernel may write into.
pub trait IoBufMut: IoBuf {
    /// How many bytes can be written.
    fn bytes_total(&self) -> (n: usize)
        ensures
            n == self.storage().len(),
    ;

    /// The first `n` bytes were written.
    fn set_init(&mut self, n: usize)
        requires
            n <= old(self).storage().len(),
        ensures
            final(self).used() == n,
            final(self).storage() == old(self).storage(),
    ;
}

/// A buffer of bytes, of which the first are in use.
#[derive(Debug)]
pub struct OwnedBuf {
    pub bytes: Vec<u8>,
    pub init: usize,
}

impl OwnedBuf {
    /// The bytes in use are among those of the buffer.
    pub open spec fn wf(&self) -> bool {
        self.init <= self.bytes@.len()
    }

    /// An empty buffer with room for `capacity` bytes.
    pub fn with_capacity(capacity: usize) -> (r: OwnedBuf)
        ensures
            r.wf(),
            r.init == 0,
            r.bytes@ == Seq::new(capacity as nat, |i: int| 0u8),
    {
        let mut bytes: Vec<u8> = Vec::new();
        bytes.resize(capacity, 0);
        proof {
            assert(bytes@ =~= Seq::new(capacity as nat, |i: int| 0u8));
        }
        OwnedBuf { bytes, init: 0 }
    }

    /// A buffer whose bytes are all in use.
    pub fn filled(bytes: Vec<u8>) -> (r: OwnedBuf)
        ensures
            r.wf(),
            r.bytes == bytes,
            r.init == bytes@.len(),
    {
        let init: usize = bytes.len();
        OwnedBuf { bytes, init }
    }
}

impl Sealed for OwnedBuf {
    open spec fn storage(&self) -> Seq<u8> {
        self.bytes@
    }

    open spec fn used(&self) -> nat {
        self.init as nat
    }
}

impl IoBuf for OwnedBuf {
    fn bytes_init(&self) -> (n: usize) {
        self.init
    }
}

impl IoBufMut for OwnedBuf {
    fn bytes_total(&self) -> (n: usize) {
        self.bytes.len()
    }

    fn set_init(&mut self, n: usize) {
        self.init = n;
    }
}

} // verus!
