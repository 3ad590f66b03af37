//! A ring of buffers that the kernel picks from: one arena, cut into pieces of one size.

use vstd::prelude::*;

verus! {

/// How many buffers the ring has: a power of two.
pub const BUF_RING_ENTRIES: u32 = 256;

/// The size of each buffer.
pub const BUF_SIZE: usize = 65_536;

/// The layout of a ring of buffers.
#[derive(Clone, Copy, Debug, PartialEq, Eq, Structural)]
pub struct BufRing {
    pub entries: u32,
    pub buf_size: usize,
    pub bgid: u16,
}

impl BufRing {
    /// The arena is no larger than can be addressed, and every buffer has an id.
    pub open spec fn wf(&self) -> bool {
        &&& 0 < self.entries <= 0x1_0000
        &&& self.entries * self.buf_size <= usize::MAX
    }

    /// Where a buffer begins in the arena.
    pub open spec fn start(&self, bid: u16) -> int {
        bid * self.buf_size
    }

    /// A ring of `entries` buffers of `buf_size` bytes; nothing where the arena could not be
    /// addressed or the buffers have no ids.
    pub fn new(bgid: u16, entries: u32, buf_size: usize) -> (r: Option<BufRing>)
        ensures
            r matches Some(b) ==> b == (BufRing { entries, buf_size, bgid }) && b.wf(),
            r is None ==> !(BufRing { entries, buf_size, bgid }).wf(),
    {
        if entries == 0 || entries > 0x1_0000 {
            return None;
        }
        proof {
            assert(entries * buf_size <= 0x1_0000 * 0xffff_ffff_ffff_ffff) by (nonlinear_arith)
                requires
                    entries <= 0x1_0000,
                    buf_size <= 0xffff_ffff_ffff_ffff,
            ;
        }
        let size: u128 = entries as u128 * buf_size as u128;
        if size > usize::MAX as u128 {
            return None;
        }
        Some(BufRing { entries, buf_size, bgid })
    }

    /// The size of the arena.
    pub fn arena_len(&self) -> (r: usize)
        requires
            self.wf(),
        ensures
            r == self.entries * self.buf_size,
    {
        self.entries as usize * self.buf_size
    }

    /// The mask that wraps positions in the ring.
    pub fn mask(&self) -> (r: u32)
        requires
            self.wf(),
        ensures
            r == self.entries - 1,
    {
        self.entries - 1
    }

    /// The group of the buffers.
    pub fn bgid(&self) -> (r: u16)
        ensures
            r == self.bgid,
    {
        self.bgid
    }

    /// Where a buffer begins in the arena.
    pub fn buffer_offset(&self, bid: u16) -> (r: usize)
        requires
            self.wf(),
            bid < self.entries,
        ensures
            r == self.start(bid),
            r + self.buf_size <= self.entries * self.buf_size,
    {
        proof {
            lemma_within(*self, bid);
        }
        bid as usize * self.buf_size
    }
}

proof fn lemma_within(b: BufRing, bid: u16)
    requires
        b.wf(),
        bid < b.entries,
    ensures
        0 <= b.start(bid),
        b.start(bid) + b.buf_size <= b.entries * b.buf_size <= usize::MAX,
{
    assert(bid * b.buf_size + b.buf_size <= b.entries * b.buf_size) by (nonlinear_arith)
        requires
            bid + 1 <= b.entries,
            b.buf_size >= 0,
    ;
    assert(0 <= bid * b.buf_size) by (nonlinear_arith)
        requires
            bid >= 0,
            b.buf_size >= 0,
    ;
}

/// No two buffers share a byte of the arena, and none reaches beyond it.
pub proof fn buffers_do_not_overlap(ring: BufRing, a: u16, b: u16)
    requires
        ring.wf(),
        a < b < ring.entries,
    ensures
        ring.start(a) + ring.buf_size <= ring.start(b),
        ring.start(b) + ring.buf_size <= ring.entries * ring.buf_size,
{
    lemma_within(ring, b);
    assert(a * ring.buf_size + ring.buf_size <= b * ring.buf_size) by (nonlinear_arith)
        requires
            a + 1 <= b,
            ring.buf_size >= 0,
    ;
}

/// The buffers of a ring lie one behind the other, and a mask takes a position round it.
pub proof fn buffers_lie_side_by_side(
    b: BufRing,
    bid: u16,
    offset: usize,
    len: usize,
    mask: u32,
)
    requires
        b.wf(),
        bid < b.entries,
        call_ensures(BufRing::buffer_offset, (&b, bid), offset),
        call_ensures(BufRing::arena_len, (&b,), len),
        call_ensures(BufRing::mask, (&b,), mask),
    ensures
        offset == bid * b.buf_size,
        len == b.entries * b.buf_size,
        mask == b.entries - 1,
{
}

/// A ring of buffers is made with 256 of 64 KiB where nothing else is said.
pub proof fn buffers_by_default()
    ensures
        BUF_RING_ENTRIES == 256,
        BUF_SIZE == 65536,
{
}

} // verus!
