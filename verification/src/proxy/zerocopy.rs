//! Moving body bytes between two sockets through a pipe, so that they never enter user space.

use crate::fault::IoKind;
use crate::proxy::body::{frame, lemma_part, part_left, within_part, CopyState};
use vstd::prelude::*;

verus! {

/// The capacity of the pipe, and the most bytes asked for at once.
pub const PIPE_CAPACITY: usize = 1_048_576;

/// What to do next.
#[derive(Clone, Copy, Debug, PartialEq, Eq, Structural)]
pub enum SpliceAction {
    /// Move up to so many bytes from the source into the pipe.
    Fill(usize),
    /// Move up to so many bytes from the pipe to the destination.
    Drain(usize),
    /// Everything was moved.
    Done,
}

/// How far a move has come. Every byte taken from the source is in the pipe or was sent.
#[derive(Clone, Copy, Debug, PartialEq, Eq, Structural)]
pub struct Splice {
    /// The bytes still to be taken; nothing where the move ends with the source.
    pub remaining: Option<usize>,
    pub in_pipe: usize,
    pub taken: u64,
    pub sent: u64,
    pub at_eof: bool,
}

impl Splice {
    /// Nothing was lost and nothing was made up.
    pub open spec fn wf(&self) -> bool {
        &&& self.taken == self.sent + self.in_pipe
        &&& self.at_eof ==> self.remaining is None && self.in_pipe == 0
    }

    /// A move of which nothing is done.
    pub open spec fn begun(remaining: Option<usize>) -> Splice {
        Splice { remaining, in_pipe: 0, taken: 0, sent: 0, at_eof: false }
    }

    /// A move of exactly `len` bytes.
    pub fn exact(len: usize) -> (r: Splice)
        ensures
            r.wf(),
            r == Splice::begun(Some(len)),
    {
        Splice { remaining: Some(len), in_pipe: 0, taken: 0, sent: 0, at_eof: false }
    }

    /// The move for what comes next of a body, where it can go by a pipe: none of it is
    /// buffered, and it has a known length, as a whole body or a chunk has, or lasts as long as
    /// the connection. The lines between chunks never go by a pipe.
    pub open spec fn next_part(state: CopyState) -> Option<Splice> {
        match part_left(state) {
            Some(left) => if left <= usize::MAX {
                Some(Splice::begun(Some(left as usize)))
            } else {
                None
            },
            None => if state == CopyState::UntilClose {
                Some(Splice::begun(None))
            } else {
                None
            },
        }
    }

    /// The move for what comes next of a body, where splicing is enabled and no byte of it is
    /// buffered.
    pub fn for_body(state: &CopyState, buffered: bool, enabled: bool) -> (r: Option<Splice>)
        ensures
            r == if buffered || !enabled {
                None
            } else {
                Splice::next_part(*state)
            },
    {
        if buffered || !enabled {
            return None;
        }
        let left: u128 = match *state {
            CopyState::Exact { remaining } => remaining,
            CopyState::ChunkData { remaining, .. } => remaining,
            CopyState::UntilClose => {
                return Some(Splice::stream());
            },
            _ => {
                return None;
            },
        };
        if left <= usize::MAX as u128 {
            Some(Splice::exact(left as usize))
        } else {
            None
        }
    }

    /// A move of all that comes until the source ends.
    pub fn stream() -> (r: Splice)
        ensures
            r.wf(),
            r == Splice::begun(None),
    {
        Splice { remaining: None, in_pipe: 0, taken: 0, sent: 0, at_eof: false }
    }

    /// What to do next: empty the pipe, then fill it, until there is no more.
    pub open spec fn action(&self) -> SpliceAction {
        if self.in_pipe > 0 {
            SpliceAction::Drain(self.in_pipe)
        } else {
            match self.remaining {
                Some(n) => if n == 0 {
                    SpliceAction::Done
                } else if n < PIPE_CAPACITY {
                    SpliceAction::Fill(n)
                } else {
                    SpliceAction::Fill(PIPE_CAPACITY)
                },
                None => if self.at_eof {
                    SpliceAction::Done
                } else {
                    SpliceAction::Fill(PIPE_CAPACITY)
                },
            }
        }
    }

    /// What to do next.
    pub fn next(&self) -> (r: SpliceAction)
        ensures
            r == self.action(),
    {
        if self.in_pipe > 0 {
            return SpliceAction::Drain(self.in_pipe);
        }
        match self.remaining {
            Some(n) => if n == 0 {
                SpliceAction::Done
            } else if n < PIPE_CAPACITY {
                SpliceAction::Fill(n)
            } else {
                SpliceAction::Fill(PIPE_CAPACITY)
            },
            None => if self.at_eof {
                SpliceAction::Done
            } else {
                SpliceAction::Fill(PIPE_CAPACITY)
            },
        }
    }

    /// So many bytes went into the pipe. None means that the source ended, which is too early
    /// for a move of known length.
    pub fn filled(&mut self, moved: usize) -> (r: Result<(), IoKind>)
        requires
            old(self).wf(),
            old(self).action() matches SpliceAction::Fill(want) && moved <= want,
            old(self).taken + moved <= u64::MAX,
        ensures
            final(self).wf(),
            r == if moved == 0 && old(self).remaining is Some {
                Err::<(), IoKind>(IoKind::UnexpectedEof)
            } else {
                Ok(())
            },
            *final(self) == if moved == 0 {
                (Splice { at_eof: old(self).remaining is None, ..*old(self) })
            } else {
                (Splice {
                    remaining: match old(self).remaining {
                        Some(n) => Some((n - moved) as usize),
                        None => None,
                    },
                    in_pipe: moved,
                    taken: (old(self).taken + moved) as u64,
                    ..*old(self)
                })
            },
    {
        if moved == 0 {
            return match self.remaining {
                Some(_) => {
                    self.at_eof = false;
                    Err(IoKind::UnexpectedEof)
                },
                None => {
                    self.at_eof = true;
                    Ok(())
                },
            };
        }
        self.remaining = match self.remaining {
            Some(n) => Some(n - moved),
            None => None,
        };
        self.in_pipe = moved;
        self.taken = self.taken + moved as u64;
        Ok(())
    }

    /// So many bytes left the pipe. None means that the destination takes no more.
    pub fn drained(&mut self, moved: usize) -> (r: Result<(), IoKind>)
        requires
            old(self).wf(),
            old(self).action() matches SpliceAction::Drain(want) && moved <= want,
        ensures
            final(self).wf(),
            r == if moved == 0 {
                Err::<(), IoKind>(IoKind::WriteZero)
            } else {
                Ok(())
            },
            *final(self) == (Splice {
                in_pipe: (old(self).in_pipe - moved) as usize,
                sent: (old(self).sent + moved) as u64,
                ..*old(self)
            }),
    {
        if moved == 0 {
            return Err(IoKind::WriteZero);
        }
        self.in_pipe = self.in_pipe - moved;
        self.sent = self.sent + moved as u64;
        Ok(())
    }
}

/// Whether `splice` can be used, given what splicing nothing between two empty pipes returned.
pub fn splice_supported(returned: i64, would_block: bool) -> (r: bool)
    ensures
        r == (returned >= 0 || would_block),
{
    returned >= 0 || would_block
}

/// Whether a move has taken what it was to take and has not lost count.
pub open spec fn on_course(s: Splice, len: usize) -> bool {
    &&& s.wf()
    &&& s.remaining matches Some(n) && n + s.taken == len
}

/// A move of known length that is done has sent exactly so many bytes, whatever the sizes of
/// the single steps were.
pub proof fn exact_splice_sends_all(s: Splice, len: usize)
    requires
        on_course(s, len),
        s.action() == SpliceAction::Done,
    ensures
        s.sent == len,
        s.taken == len,
{
}

/// Each step keeps a move of known length on course.
pub proof fn steps_keep_course(s: Splice, len: usize, moved: usize)
    requires
        on_course(s, len),
    ensures
        s.action() matches SpliceAction::Fill(want) && 0 < moved <= want ==> on_course(
            (Splice {
                remaining: Some((s.remaining->0 - moved) as usize),
                in_pipe: moved,
                taken: (s.taken + moved) as u64,
                ..s
            }),
            len,
        ),
        s.action() matches SpliceAction::Drain(want) && 0 < moved <= want ==> on_course(
            (Splice {
                in_pipe: (s.in_pipe - moved) as usize,
                sent: (s.sent + moved) as u64,
                ..s
            }),
            len,
        ),
{
}

/// How a body goes on once the move for its next part was carried out.
pub open spec fn after_part(state: CopyState) -> CopyState {
    match state {
        CopyState::ChunkData { copied, .. } => CopyState::ChunkLine { copied },
        _ => CopyState::Done,
    }
}

/// The move for the next part of a body was carried out.
pub fn spliced(state: &mut CopyState)
    requires
        Splice::next_part(*old(state)) is Some,
    ensures
        *final(state) == after_part(*old(state)),
{
    *state = match *state {
        CopyState::ChunkData { copied, .. } => CopyState::ChunkLine { copied },
        _ => CopyState::Done,
    };
}

/// A part of known length that goes by a pipe is just what would have been copied, and leaves
/// the body where copying would have left it.
pub proof fn splicing_moves_what_copying_would(
    state: CopyState,
    input: Seq<u8>,
    max: Option<usize>,
)
    requires
        Splice::next_part(state) matches Some(s) && s.remaining == Some(input.len() as usize),
        input.len() <= usize::MAX,
    ensures
        within_part(frame(state, input, max), input.len() as int, after_part(state)),
{
    lemma_part(state, input, max);
}

/// What is in the pipe goes out before more is taken in; no more is taken than is left, and no
/// more than 1 MiB at once.
pub proof fn pipes_are_emptied_first(s: Splice)
    ensures
        s.in_pipe > 0 ==> s.action() == SpliceAction::Drain(s.in_pipe),
        s.action() matches SpliceAction::Fill(n) ==> s.in_pipe == 0 && 0 < n <= 1048576 && (
        s.remaining matches Some(left) ==> n <= left),
        s.in_pipe == 0 && s.remaining == Some(0usize) ==> s.action() == SpliceAction::Done,
        s.in_pipe == 0 && s.remaining is None && s.at_eof ==> s.action() == SpliceAction::Done,
        s.action() == SpliceAction::Done ==> s.in_pipe == 0 && (s.remaining == Some(0usize) || (
        s.remaining is None && s.at_eof)),
{
}

/// Whole bodies, chunks and bodies that last as long as their connection go by a pipe; lines and
/// trailers do not.
pub proof fn parts_that_go_by_a_pipe(n: usize, copied: usize)
    ensures
        Splice::next_part(CopyState::Exact { remaining: n as u128 }) == Some(
            Splice::begun(Some(n)),
        ),
        Splice::next_part(CopyState::ChunkData { copied, remaining: n as u128 }) == Some(
            Splice::begun(Some(n)),
        ),
        Splice::next_part(CopyState::UntilClose) == Some(Splice::begun(None)),
        Splice::next_part(CopyState::ChunkLine { copied }) is None,
        Splice::next_part(CopyState::Trailer) is None,
        Splice::next_part(CopyState::Done) is None,
        Splice::begun(Some(n)).action() == if n == 0 {
            SpliceAction::Done
        } else if n < 1048576 {
            SpliceAction::Fill(n)
        } else {
            SpliceAction::Fill(1048576)
        },
{
}

/// Splicing can be used where it moves nothing between empty pipes, or would have to wait.
pub proof fn splicing_is_tried_on_empty_pipes(returned: i64, would_block: bool, r: bool)
    requires
        call_ensures(splice_supported, (returned, would_block), r),
    ensures
        returned >= 0 ==> r,
        returned < 0 ==> r == would_block,
{
}

/// What enters the pipe is counted and owed, and a body that ends early is an error where its
/// length is known.
pub proof fn filling_is_counted(s: &mut Splice, moved: usize, r: Result<(), IoKind>)
    requires
        old(s).wf(),
        old(s).action() matches SpliceAction::Fill(want) && moved <= want,
        old(s).taken + moved <= u64::MAX,
        call_ensures(Splice::filled, (s, moved), r),
    ensures
        r is Err <==> moved == 0 && old(s).remaining is Some,
        r is Err ==> r == Err::<(), IoKind>(IoKind::UnexpectedEof),
        final(s).taken == old(s).taken + moved,
        final(s).in_pipe == moved,
        final(s).sent == old(s).sent,
        old(s).remaining matches Some(n) ==> final(s).remaining == Some((n - moved) as usize),
        old(s).remaining is None && moved == 0 ==> final(s).action() == SpliceAction::Done,
{
}

/// What leaves the pipe is counted, and a peer that takes nothing is an error.
pub proof fn draining_is_counted(s: &mut Splice, moved: usize, r: Result<(), IoKind>)
    requires
        old(s).wf(),
        old(s).action() matches SpliceAction::Drain(want) && moved <= want,
        call_ensures(Splice::drained, (s, moved), r),
    ensures
        r is Err <==> moved == 0,
        r is Err ==> r == Err::<(), IoKind>(IoKind::WriteZero),
        final(s).in_pipe == old(s).in_pipe - moved,
        final(s).sent == old(s).sent + moved,
        final(s).taken == old(s).taken,
        final(s).remaining == old(s).remaining,
{
}

/// A part goes by a pipe only where that is enabled and nothing of it is buffered; then it is
/// done.
pub proof fn parts_are_spliced_whole(
    state: &mut CopyState,
    buffered: bool,
    enabled: bool,
    r: Option<Splice>,
)
    requires
        call_ensures(Splice::for_body, (&*old(state), buffered, enabled), r),
        Splice::next_part(*old(state)) is Some,
        call_ensures(spliced, (state,), ()),
    ensures
        buffered || !enabled ==> r is None,
        !buffered && enabled ==> r is Some,
        *old(state) is Exact || *old(state) is UntilClose ==> *final(state) == CopyState::Done,
        *old(state) matches CopyState::ChunkData { copied, .. } ==> *final(state) == (
        CopyState::ChunkLine { copied }),
{
}

} // verus!
