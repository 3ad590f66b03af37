//! Passing message bodies on: how many of the bytes at hand belong to the body, and when it ends.

use crate::octets::{
    discard_buffer_prefix, find, index_of, lemma_index_from, lemma_index_is, occurs_at, prefix_of,
    rest_after, utf8_text,
};
use crate::proxy::head::BodyKind;
use crate::text::{
    digit_value, is_space, lemma_numeral, lemma_pieces_head, numbers_hold_only_digits, numeral,
    numeral_reads_back, parse_number, parsed_number, pieces, split_at_char, texts, trim, trimmed,
    trimming_takes_off_padding,
};
use vstd::prelude::*;
use vstd::slice::slice_subrange;
use vstd::string::*;
use vstd::utf8::{
    decode_utf8, encode_utf8, is_ascii_chars, is_ascii_chars_encode_utf8, valid_utf8,
};

verus! {

/// The most bytes asked for in one read.
pub const READ_CHUNK_BYTES: usize = 16_384;

/// The most bytes that a head may take.
pub const MAX_HEADER_BYTES: usize = 65_536;

/// How long a client may take to send a head, in milliseconds.
pub const HEADER_TIMEOUT_MS: u64 = 10_000;

/// Where in a body the next byte stands.
#[derive(Clone, Copy, Debug, PartialEq, Eq, Structural)]
pub enum CopyState {
    /// So many bytes are left.
    Exact { remaining: u128 },
    /// At the line with the size of the next chunk, after chunks of `copied` bytes.
    ChunkLine { copied: usize },
    /// Within a chunk and its line end, of which so many bytes are left.
    ChunkData { copied: usize, remaining: u128 },
    /// Behind the last chunk.
    Trailer,
    /// The body lasts as long as the connection.
    UntilClose,
    /// There is no more.
    Done,
}

/// What bytes at hand mean for a body: how many of them belong to it, and how it goes on.
pub ghost enum Framed {
    More { used: int, state: CopyState },
    Finished { used: int },
    Broken { used: int, why: Seq<char> },
}

impl Framed {
    /// The same, after `k` bytes before.
    pub open spec fn after(self, k: int) -> Framed {
        match self {
            Framed::More { used, state } => Framed::More { used: used + k, state },
            Framed::Finished { used } => Framed::Finished { used: used + k },
            Framed::Broken { used, why } => Framed::Broken { used: used + k, why },
        }
    }

    /// How many bytes belong to the body.
    pub open spec fn taken(self) -> int {
        match self {
            Framed::More { used, .. } => used,
            Framed::Finished { used } => used,
            Framed::Broken { used, .. } => used,
        }
    }
}

/// The end of a line.
pub open spec fn crlf() -> Seq<u8> {
    seq![13u8, 10u8]
}

/// The size that a chunk's first line states: hexadecimal digits, up to a `;`.
pub open spec fn chunk_size(line: Seq<u8>) -> Result<nat, Seq<char>> {
    if !valid_utf8(line) {
        Err("bad chunk"@)
    } else {
        match parsed_number(
            pieces(trimmed(decode_utf8(line)), ';')[0],
            16,
            usize::MAX as nat,
        ) {
            Some(n) => Ok(n),
            None => Err("bad chunk size"@),
        }
    }
}

/// Whether chunks of so many bytes are too many.
pub open spec fn too_large(copied: int, max: Option<usize>) -> bool {
    copied > usize::MAX || (max matches Some(m) && copied > m)
}

/// What the state of a body is ranked by, where no byte is used.
pub open spec fn rank(state: CopyState) -> int {
    if state is ChunkData {
        1
    } else {
        0
    }
}

/// What `input` means for a body in `state`, of which chunks may have at most `max` bytes.
pub open spec fn frame(state: CopyState, input: Seq<u8>, max: Option<usize>) -> Framed
    decreases input.len(), rank(state),
{
    let n = input.len() as int;
    match state {
        CopyState::Done => Framed::Finished { used: 0 },
        CopyState::Exact { remaining } => if n >= remaining {
            Framed::Finished { used: remaining as int }
        } else {
            Framed::More { used: n, state: CopyState::Exact { remaining: (remaining - n) as u128 } }
        },
        CopyState::UntilClose => Framed::More { used: n, state },
        CopyState::ChunkData { copied, remaining } => if n >= remaining {
            frame(CopyState::ChunkLine { copied }, input.skip(remaining as int), max).after(
                remaining as int,
            )
        } else {
            Framed::More {
                used: n,
                state: CopyState::ChunkData { copied, remaining: (remaining - n) as u128 },
            }
        },
        CopyState::ChunkLine { copied } => match index_of(input, crlf()) {
            None => Framed::More { used: 0, state },
            Some(i) => if i < 0 || i + 2 > n {
                Framed::More { used: 0, state }
            } else {
                match chunk_size(input.take(i + 2)) {
                    Err(why) => Framed::Broken { used: i + 2, why },
                    Ok(size) => if size == 0 {
                        frame(CopyState::Trailer, input.skip(i + 2), max).after(i + 2)
                    } else if too_large(copied + size, max) {
                        Framed::Broken { used: i + 2, why: "request body too large"@ }
                    } else {
                        frame(
                            CopyState::ChunkData {
                                copied: (copied + size) as usize,
                                remaining: (size + 2) as u128,
                            },
                            input.skip(i + 2),
                            max,
                        ).after(i + 2)
                    },
                }
            },
        },
        CopyState::Trailer => match index_of(input, crlf()) {
            None => Framed::More { used: 0, state },
            Some(i) => if i < 0 || i + 2 > n {
                Framed::More { used: 0, state }
            } else if i == 0 {
                Framed::Finished { used: 2 }
            } else {
                frame(CopyState::Trailer, input.skip(i + 2), max).after(i + 2)
            },
        },
    }
}

/// How many bytes are left of a part of known length: a whole body, or a chunk and its line
/// end.
pub open spec fn part_left(state: CopyState) -> Option<u128> {
    match state {
        CopyState::Exact { remaining } => Some(remaining),
        CopyState::ChunkData { remaining, .. } => Some(remaining),
        _ => None,
    }
}

/// What bytes within a part of known length mean for its body: all of them belong to it.
pub open spec fn within_part(f: Framed, n: int, next: CopyState) -> bool {
    match f {
        Framed::More { used, state } => used == n && state == next,
        Framed::Finished { used } => used == n && next == CopyState::Done,
        Framed::Broken { .. } => false,
    }
}

/// How a body goes on after so many bytes of a part of known length.
pub open spec fn part_after(state: CopyState, n: int) -> CopyState {
    match state {
        CopyState::Exact { remaining } => if n == remaining {
            CopyState::Done
        } else {
            CopyState::Exact { remaining: (remaining - n) as u128 }
        },
        CopyState::ChunkData { copied, remaining } => if n == remaining {
            CopyState::ChunkLine { copied }
        } else {
            CopyState::ChunkData { copied, remaining: (remaining - n) as u128 }
        },
        _ => state,
    }
}

/// Bytes within a part of known length all belong to the body, whatever they are.
pub proof fn lemma_part(state: CopyState, input: Seq<u8>, max: Option<usize>)
    requires
        part_left(state) matches Some(left) && input.len() <= left,
    ensures
        within_part(
            frame(state, input, max),
            input.len() as int,
            part_after(state, input.len() as int),
        ),
{
    if let CopyState::ChunkData { copied, remaining } = state {
        if input.len() == remaining {
            let rest = input.skip(remaining as int);
            assert(rest.len() == 0);
            assert(index_of(rest, crlf()).is_none());
            assert(frame(CopyState::ChunkLine { copied }, rest, max) == (Framed::More {
                used: 0,
                state: CopyState::ChunkLine { copied },
            }));
        }
    }
}

/// Counts off bytes of a part of known length that went by without passing through a buffer.
pub fn passed_by(state: &mut CopyState, n: usize)
    requires
        part_left(*old(state)) matches Some(left) && n <= left,
    ensures
        *final(state) == part_after(*old(state), n as int),
        forall|input: Seq<u8>, max: Option<usize>|
            input.len() == n ==> within_part(
                #[trigger] frame(*old(state), input, max),
                n as int,
                *final(state),
            ),
{
    proof {
        assert forall|input: Seq<u8>, max: Option<usize>| input.len() == n implies within_part(
            #[trigger] frame(*old(state), input, max),
            n as int,
            part_after(*old(state), n as int),
        ) by {
            lemma_part(*old(state), input, max);
        }
    }
    match *state {
        CopyState::Exact { remaining } => {
            *state = if n as u128 == remaining {
                CopyState::Done
            } else {
                CopyState::Exact { remaining: remaining - n as u128 }
            };
        },
        CopyState::ChunkData { copied, remaining } => {
            *state = if n as u128 == remaining {
                CopyState::ChunkLine { copied }
            } else {
                CopyState::ChunkData { copied, remaining: remaining - n as u128 }
            };
        },
        _ => {},
    }
}

/// What was found in the bytes at hand.
pub enum CopyStatus {
    /// The body goes on.
    More,
    /// The body is complete.
    Finished,
    /// The body is malformed or too large.
    Broken(&'static str),
}

/// The bytes to write, and how the body goes on.
pub struct CopyStep {
    pub bytes: Vec<u8>,
    pub status: CopyStatus,
}

/// The state at the start of a body.
pub open spec fn start_of(body: BodyKind) -> CopyState {
    match body {
        BodyKind::Empty => CopyState::Done,
        BodyKind::ContentLength(n) => CopyState::Exact { remaining: n as u128 },
        BodyKind::Chunked => CopyState::ChunkLine { copied: 0 },
        BodyKind::CloseDelimited => CopyState::UntilClose,
    }
}

/// The state at the start of a body.
pub fn start_body(body: BodyKind) -> (r: CopyState)
    ensures
        r == start_of(body),
{
    match body {
        BodyKind::Empty => CopyState::Done,
        BodyKind::ContentLength(length) => CopyState::Exact { remaining: length as u128 },
        BodyKind::Chunked => CopyState::ChunkLine { copied: 0 },
        BodyKind::CloseDelimited => CopyState::UntilClose,
    }
}

/// The size that a chunk's first line states.
pub fn parse_chunk_size(line: &[u8]) -> (r: Result<usize, &'static str>)
    ensures
        match r {
            Ok(n) => chunk_size(line@) == Ok::<nat, Seq<char>>(n as nat),
            Err(m) => chunk_size(line@) == Err::<nat, Seq<char>>(m@),
        },
{
    match utf8_text(line) {
        None => Err("bad chunk"),
        Some(text) => {
            let parts = split_at_char(trim(text.as_str()), ';');
            proof {
                assert(texts(parts@).len() == parts@.len());
                assert(pieces(trimmed(text@), ';').len() > 0);
                assert(texts(parts@)[0] == parts@[0]@);
            }
            match parse_number(parts[0], 16, usize::MAX as u64) {
                Some(n) => Ok(n as usize),
                None => Err("bad chunk size"),
            }
        },
    }
}

proof fn lemma_after(f: Framed, a: int, b: int)
    ensures
        f.after(a).after(b) == f.after(a + b),
        f.after(0) == f,
{
}

/// A body never takes more bytes than there are.
pub proof fn lemma_frame_within(state: CopyState, input: Seq<u8>, max: Option<usize>)
    ensures
        0 <= frame(state, input, max).taken() <= input.len(),
    decreases input.len(), rank(state),
{
    match state {
        CopyState::ChunkData { copied, remaining } => {
            if input.len() >= remaining {
                lemma_frame_within(
                    CopyState::ChunkLine { copied },
                    input.skip(remaining as int),
                    max,
                );
            }
        },
        CopyState::ChunkLine { copied } => {
            if let Some(i) = index_of(input, crlf()) {
                if 0 <= i && i + 2 <= input.len() {
                    if let Ok(size) = chunk_size(input.take(i + 2)) {
                        if size == 0 {
                            lemma_frame_within(CopyState::Trailer, input.skip(i + 2), max);
                        } else if !too_large(copied + size, max) {
                            lemma_frame_within(
                                CopyState::ChunkData {
                                    copied: (copied + size) as usize,
                                    remaining: (size + 2) as u128,
                                },
                                input.skip(i + 2),
                                max,
                            );
                        }
                    }
                }
            }
        },
        CopyState::Trailer => {
            if let Some(i) = index_of(input, crlf()) {
                if 0 < i && i + 2 <= input.len() {
                    lemma_frame_within(CopyState::Trailer, input.skip(i + 2), max);
                }
            }
        },
        _ => {},
    }
}

/// Takes from `buf` the bytes that belong to the body, and moves on behind them.
#[verifier::spinoff_prover]
#[verifier::rlimit(60)]
pub fn forward_body(state: &mut CopyState, buf: &mut Vec<u8>, max: Option<usize>) -> (r: CopyStep)
    ensures
        r.bytes@ == old(buf)@.take(frame(*old(state), old(buf)@, max).taken()),
        final(buf)@ == old(buf)@.skip(frame(*old(state), old(buf)@, max).taken()),
        match r.status {
            CopyStatus::More => frame(*old(state), old(buf)@, max) == (Framed::More {
                used: r.bytes@.len() as int,
                state: *final(state),
            }),
            CopyStatus::Finished => frame(*old(state), old(buf)@, max) == (Framed::Finished {
                used: r.bytes@.len() as int,
            }) && *final(state) == CopyState::Done,
            CopyStatus::Broken(why) => frame(*old(state), old(buf)@, max) == (Framed::Broken {
                used: r.bytes@.len() as int,
                why: why@,
            }),
        },
{
    let ghost s0 = *state;
    let ghost input = buf@;
    let n: usize = buf.len();
    let line_end: [u8; 2] = [13, 10];
    let mut cur: CopyState = *state;
    let mut used: usize = 0;
    let mut status: Option<CopyStatus> = None;
    proof {
        assert(input.skip(0) =~= input);
        assert(line_end@ =~= crlf());
        lemma_frame_within(s0, input, max);
    }
    while status.is_none()
        invariant
            n == input.len(),
            buf@ == input,
            used <= n,
            line_end@ == crlf(),
            0 <= frame(s0, input, max).taken() <= input.len(),
            match status {
                None => frame(s0, input, max) == frame(cur, input.skip(used as int), max).after(
                    used as int,
                ),
                Some(CopyStatus::More) => frame(s0, input, max) == (Framed::More {
                    used: used as int,
                    state: cur,
                }),
                Some(CopyStatus::Finished) => frame(s0, input, max) == (Framed::Finished {
                    used: used as int,
                }) && cur == CopyState::Done,
                Some(CopyStatus::Broken(why)) => frame(s0, input, max) == (Framed::Broken {
                    used: used as int,
                    why: why@,
                }),
            },
        decreases
                if status.is_none() {
                    1int
                } else {
                    0
                },
                n - used,
                rank(cur),
    {
        let left: usize = n - used;
        let ghost rest = input.skip(used as int);
        match cur {
            CopyState::Done => {
                status = Some(CopyStatus::Finished);
            },
            CopyState::Exact { remaining } => {
                if left as u128 >= remaining {
                    used = used + remaining as usize;
                    cur = CopyState::Done;
                    status = Some(CopyStatus::Finished);
                } else {
                    cur = CopyState::Exact { remaining: remaining - left as u128 };
                    used = n;
                    status = Some(CopyStatus::More);
                }
            },
            CopyState::UntilClose => {
                used = n;
                status = Some(CopyStatus::More);
            },
            CopyState::ChunkData { copied, remaining } => {
                if left as u128 >= remaining {
                    let step: usize = remaining as usize;
                    proof {
                        assert(rest.skip(step as int) =~= input.skip(used + step));
                        lemma_after(
                            frame(CopyState::ChunkLine { copied }, input.skip(used + step), max),
                            step as int,
                            used as int,
                        );
                    }
                    used = used + step;
                    cur = CopyState::ChunkLine { copied };
                } else {
                    cur = CopyState::ChunkData { copied, remaining: remaining - left as u128 };
                    used = n;
                    status = Some(CopyStatus::More);
                }
            },
            CopyState::ChunkLine { copied } => {
                let tail = slice_subrange(buf.as_slice(), used, n);
                proof {
                    assert(tail@ =~= rest);
                }
                match find(tail, &line_end) {
                    None => {
                        status = Some(CopyStatus::More);
                    },
                    Some(i) => {
                        let step: usize = i + 2;
                        let line = slice_subrange(tail, 0, step);
                        proof {
                            assert(line@ =~= rest.take(step as int));
                            assert(rest.skip(step as int) =~= input.skip(used + step));
                        }
                        let size = parse_chunk_size(line);
                        used = used + step;
                        match size {
                            Err(why) => {
                                status = Some(CopyStatus::Broken(why));
                            },
                            Ok(size) => {
                                let over = match max {
                                    Some(m) => size > usize::MAX - copied || copied + size > m,
                                    None => size > usize::MAX - copied,
                                };
                                if size == 0 {
                                    cur = CopyState::Trailer;
                                } else if over {
                                    status = Some(CopyStatus::Broken("request body too large"));
                                } else {
                                    cur = CopyState::ChunkData {
                                        copied: copied + size,
                                        remaining: size as u128 + 2,
                                    };
                                }
                                proof {
                                    lemma_after(
                                        frame(cur, input.skip(used as int), max),
                                        step as int,
                                        used - step,
                                    );
                                }
                            },
                        }
                    },
                }
            },
            CopyState::Trailer => {
                let tail = slice_subrange(buf.as_slice(), used, n);
                proof {
                    assert(tail@ =~= rest);
                }
                match find(tail, &line_end) {
                    None => {
                        status = Some(CopyStatus::More);
                    },
                    Some(i) => {
                        let step: usize = i + 2;
                        proof {
                            assert(rest.skip(step as int) =~= input.skip(used + step));
                            lemma_after(
                                frame(CopyState::Trailer, input.skip(used + step), max),
                                step as int,
                                used as int,
                            );
                        }
                        used = used + step;
                        if i == 0 {
                            cur = CopyState::Done;
                            status = Some(CopyStatus::Finished);
                        }
                    },
                }
            },
        }
    }
    let bytes = prefix_of(buf.as_slice(), used);
    discard_buffer_prefix(buf, used);
    proof {
        assert(rest_after(input, used as int) =~= input.skip(used as int));
    }
    *state = cur;
    match status {
        Some(s) => CopyStep { bytes, status: s },
        None => CopyStep { bytes, status: CopyStatus::More },
    }
}

/// How many bytes to ask for next: never more than are known to belong to the body.
pub open spec fn read_size(state: CopyState) -> int {
    match state {
        CopyState::Exact { remaining } => if remaining < READ_CHUNK_BYTES {
            remaining as int
        } else {
            READ_CHUNK_BYTES as int
        },
        CopyState::ChunkData { remaining, .. } => if remaining < READ_CHUNK_BYTES {
            remaining as int
        } else {
            READ_CHUNK_BYTES as int
        },
        _ => READ_CHUNK_BYTES as int,
    }
}

/// How many bytes to ask for next: never more than are known to belong to the body.
pub fn read_limit(state: &CopyState) -> (r: usize)
    ensures
        r == read_size(*state),
{
    match *state {
        CopyState::Exact { remaining } => if remaining < READ_CHUNK_BYTES as u128 {
            remaining as usize
        } else {
            READ_CHUNK_BYTES
        },
        CopyState::ChunkData { remaining, .. } => if remaining < READ_CHUNK_BYTES as u128 {
            remaining as usize
        } else {
            READ_CHUNK_BYTES
        },
        _ => READ_CHUNK_BYTES,
    }
}

/// Whether the body is whole where the connection ends now.
pub fn whole_at_eof(state: &CopyState) -> (r: bool)
    ensures
        r == (*state == CopyState::Done || *state == CopyState::UntilClose),
{
    *state == CopyState::Done || *state == CopyState::UntilClose
}

// ---------------------------------------------------------------------- heads

/// The end of a head.
pub open spec fn head_end() -> Seq<u8> {
    seq![13u8, 10u8, 13u8, 10u8]
}

/// What the bytes at hand mean for a head.
#[derive(Clone, Copy, Debug, PartialEq, Eq, Structural)]
pub enum HeadScan {
    /// The head takes so many bytes.
    Complete(usize),
    /// The head is longer than is allowed.
    TooLarge,
    /// More bytes are needed.
    More,
}

/// What bytes mean for a head: it ends with an empty line, and may take so many bytes.
pub open spec fn head_scan(buf: Seq<u8>) -> HeadScan {
    match index_of(buf, head_end()) {
        Some(i) => HeadScan::Complete((i + 4) as usize),
        None => if buf.len() >= MAX_HEADER_BYTES {
            HeadScan::TooLarge
        } else {
            HeadScan::More
        },
    }
}

/// Looks for the end of a head.
pub fn scan_header_block(buf: &[u8]) -> (r: HeadScan)
    ensures
        r == head_scan(buf@),
        r matches HeadScan::Complete(end) ==> 4 <= end <= buf@.len() && buf@.subrange(
            end - 4,
            end as int,
        ) == head_end(),
{
    let n: usize = buf.len();
    let end: [u8; 4] = [13, 10, 13, 10];
    proof {
        assert(end@ =~= head_end());
    }
    match find(buf, &end) {
        Some(index) => {
            assert(occurs_at(buf@, head_end(), index as int));
            HeadScan::Complete(index + 4)
        },
        None => if n >= MAX_HEADER_BYTES {
            HeadScan::TooLarge
        } else {
            HeadScan::More
        },
    }
}

// ----------------------------------------------------------------------- laws

proof fn lemma_index_extends(a: Seq<u8>, b: Seq<u8>, needle: Seq<u8>)
    requires
        index_of(a, needle).is_some(),
    ensures
        index_of(a + b, needle) == index_of(a, needle),
        0 <= index_of(a, needle)->0,
        index_of(a, needle)->0 + needle.len() <= a.len(),
{
    lemma_index_from(a, needle, 0);
    lemma_index_from(a + b, needle, 0);
    let i = index_of(a, needle)->0;
    assert((a + b).subrange(i, i + needle.len()) =~= a.subrange(i, i + needle.len()));
    assert(occurs_at(a + b, needle, i));
    let k = index_of(a + b, needle)->0;
    if k < i {
        assert((a + b).subrange(k, k + needle.len()) =~= a.subrange(k, k + needle.len()));
        assert(occurs_at(a, needle, k));
    }
}

/// What `a` leaves open, `b` settles as if both had come at once; and what `a` settles, nothing
/// behind it changes.
pub open spec fn extends(state: CopyState, a: Seq<u8>, b: Seq<u8>, max: Option<usize>) -> bool {
    match frame(state, a, max) {
        Framed::More { used, state: next } => 0 <= used <= a.len() && frame(state, a + b, max)
            == frame(next, a.skip(used) + b, max).after(used),
        Framed::Finished { used } => frame(state, a + b, max) == (Framed::Finished { used }),
        Framed::Broken { used, why } => frame(state, a + b, max) == (Framed::Broken {
            used,
            why,
        }),
    }
}

/// However the bytes of a body arrive, the same bytes are passed on.
pub proof fn arrival_does_not_matter(
    state: CopyState,
    a: Seq<u8>,
    b: Seq<u8>,
    max: Option<usize>,
)
    ensures
        extends(state, a, b, max),
    decreases a.len(), rank(state), 1int,
{
    let n = a.len() as int;
    assert(a.skip(0) + b =~= a + b);
    assert(a.skip(n) + b =~= b);
    match state {
        CopyState::ChunkData { copied, remaining } => lemma_arrival_data(
            copied,
            remaining,
            a,
            b,
            max,
        ),
        CopyState::ChunkLine { copied } => lemma_arrival_line(copied, a, b, max),
        CopyState::Trailer => lemma_arrival_trailer(a, b, max),
        _ => {},
    }
}

#[verifier::spinoff_prover]
#[verifier::rlimit(40)]
proof fn lemma_arrival_data(
    copied: usize,
    remaining: u128,
    a: Seq<u8>,
    b: Seq<u8>,
    max: Option<usize>,
)
    ensures
        extends(CopyState::ChunkData { copied, remaining }, a, b, max),
    decreases a.len(), 1int, 0int,
{
    let n = a.len() as int;
    assert(a.skip(n) + b =~= b);
    if n >= remaining {
        let k = remaining as int;
        assert((a + b).skip(k) =~= a.skip(k) + b);
        arrival_does_not_matter(CopyState::ChunkLine { copied }, a.skip(k), b, max);
        lemma_joined(CopyState::ChunkLine { copied }, a, b, k, max);
    } else if n + b.len() >= remaining {
        let left = remaining - n;
        assert((a + b).skip(remaining as int) =~= b.skip(left));
        lemma_after(frame(CopyState::ChunkLine { copied }, b.skip(left), max), left, n);
    }
}

#[verifier::spinoff_prover]
#[verifier::rlimit(40)]
proof fn lemma_arrival_line(copied: usize, a: Seq<u8>, b: Seq<u8>, max: Option<usize>)
    ensures
        extends(CopyState::ChunkLine { copied }, a, b, max),
    decreases a.len(), 0int, 0int,
{
    assert(a.skip(0) + b =~= a + b);
    if index_of(a, crlf()).is_some() {
        lemma_index_extends(a, b, crlf());
        let k = index_of(a, crlf())->0 + 2;
        assert((a + b).skip(k) =~= a.skip(k) + b);
        assert((a + b).take(k) =~= a.take(k));
        if let Ok(size) = chunk_size(a.take(k)) {
            let next = if size == 0 {
                CopyState::Trailer
            } else {
                CopyState::ChunkData {
                    copied: (copied + size) as usize,
                    remaining: (size + 2) as u128,
                }
            };
            if size == 0 || !too_large(copied + size, max) {
                arrival_does_not_matter(next, a.skip(k), b, max);
                lemma_joined(next, a, b, k, max);
            }
        }
    }
}

#[verifier::spinoff_prover]
#[verifier::rlimit(40)]
proof fn lemma_arrival_trailer(a: Seq<u8>, b: Seq<u8>, max: Option<usize>)
    ensures
        extends(CopyState::Trailer, a, b, max),
    decreases a.len(), 0int, 0int,
{
    assert(a.skip(0) + b =~= a + b);
    if index_of(a, crlf()).is_some() {
        lemma_index_extends(a, b, crlf());
        let k = index_of(a, crlf())->0 + 2;
        assert((a + b).skip(k) =~= a.skip(k) + b);
        if k > 2 {
            arrival_does_not_matter(CopyState::Trailer, a.skip(k), b, max);
            lemma_joined(CopyState::Trailer, a, b, k, max);
        }
    }
}

proof fn lemma_joined(next: CopyState, a: Seq<u8>, b: Seq<u8>, k: int, max: Option<usize>)
    requires
        0 <= k <= a.len(),
    ensures
        frame(next, a.skip(k), max) matches Framed::More { used, state: s2 } ==> (0 <= used
            <= a.skip(k).len() ==> a.skip(k).skip(used) + b == a.skip(used + k) + b && frame(
            s2,
            a.skip(used + k) + b,
            max,
        ).after(used).after(k) == frame(s2, a.skip(used + k) + b, max).after(used + k)),
{
    if let Framed::More { used, state: s2 } = frame(next, a.skip(k), max) {
        if 0 <= used <= a.skip(k).len() {
            assert(a.skip(k).skip(used) =~= a.skip(used + k));
            lemma_after(frame(s2, a.skip(used + k) + b, max), used, k);
        }
    }
}

/// Of a body of known length exactly so many bytes are passed on, and none behind them.
pub proof fn exact_body_is_exact(n: usize, input: Seq<u8>, max: Option<usize>)
    ensures
        match frame(start_of(BodyKind::ContentLength(n)), input, max) {
            Framed::Finished { used } => used == n && n <= input.len(),
            Framed::More { used, .. } => used == input.len() && input.len() < n,
            Framed::Broken { .. } => false,
        },
{
}

/// The chunks that were let through never add up to more than is allowed.
pub proof fn chunks_stay_within_limit(state: CopyState, input: Seq<u8>, max: usize)
    requires
        copied_of(state) <= max,
    ensures
        frame(state, input, Some(max)) matches Framed::More { state: next, .. } ==> copied_of(next)
            <= max,
    decreases input.len(), rank(state),
{
    match state {
        CopyState::ChunkData { copied, remaining } => {
            if input.len() >= remaining {
                chunks_stay_within_limit(
                    CopyState::ChunkLine { copied },
                    input.skip(remaining as int),
                    max,
                );
            }
        },
        CopyState::ChunkLine { copied } => {
            if let Some(i) = index_of(input, crlf()) {
                if 0 <= i && i + 2 <= input.len() {
                    if let Ok(size) = chunk_size(input.take(i + 2)) {
                        if size == 0 {
                            chunks_stay_within_limit(CopyState::Trailer, input.skip(i + 2), max);
                        } else if !too_large(copied + size, Some(max)) {
                            chunks_stay_within_limit(
                                CopyState::ChunkData {
                                    copied: (copied + size) as usize,
                                    remaining: (size + 2) as u128,
                                },
                                input.skip(i + 2),
                                max,
                            );
                        }
                    }
                }
            }
        },
        CopyState::Trailer => {
            if let Some(i) = index_of(input, crlf()) {
                if 0 < i && i + 2 <= input.len() {
                    chunks_stay_within_limit(CopyState::Trailer, input.skip(i + 2), max);
                }
            }
        },
        _ => {},
    }
}

/// The bytes of the chunks announced so far.
pub open spec fn copied_of(state: CopyState) -> int {
    match state {
        CopyState::ChunkLine { copied } => copied as int,
        CopyState::ChunkData { copied, .. } => copied as int,
        _ => 0,
    }
}

// ------------------------------------------------------------- what a body is

/// A chunk as it is sent: its length in hexadecimal, a line end, the data, and a line end.
pub open spec fn chunk_bytes(data: Seq<u8>) -> Seq<u8> {
    encode_utf8(numeral(data.len(), 16)) + seq![13u8, 10u8] + data + seq![13u8, 10u8]
}

/// A chunked body as it is sent: its chunks, and then `0` and two line ends.
pub open spec fn chunked_body(chunks: Seq<Seq<u8>>) -> Seq<u8>
    decreases chunks.len(),
{
    if chunks.len() == 0 {
        seq![48u8, 13u8, 10u8, 13u8, 10u8]
    } else {
        chunk_bytes(chunks[0]) + chunked_body(chunks.skip(1))
    }
}

/// How many bytes the chunks hold.
pub open spec fn held_by(chunks: Seq<Seq<u8>>) -> nat
    decreases chunks.len(),
{
    if chunks.len() == 0 {
        0
    } else {
        chunks[0].len() + held_by(chunks.skip(1))
    }
}

proof fn lemma_hex_line(n: nat)
    ensures
        encode_utf8(numeral(n, 16)).len() > 0,
        forall|k: int|
            0 <= k < encode_utf8(numeral(n, 16)).len() ==> (#[trigger] encode_utf8(
                numeral(n, 16),
            )[k]) != 13,
        encode_utf8(numeral(n, 16) + seq!['\r', '\n']) == encode_utf8(numeral(n, 16)) + seq![
            13u8,
            10u8,
        ],
{
    let d = numeral(n, 16);
    lemma_numeral(n, 16);
    assert(is_ascii_chars(d)) by {
        assert forall|k: int| 0 <= k < d.len() implies (d[k] as nat) < 128 by {
            assert(digit_value(d[k]) < 16);
        }
    }
    is_ascii_chars_encode_utf8(d);
    let t = d + seq!['\r', '\n'];
    assert(is_ascii_chars(t));
    is_ascii_chars_encode_utf8(t);
    let e = encode_utf8(d);
    assert forall|k: int| 0 <= k < e.len() implies (#[trigger] e[k]) != 13 by {
        assert(digit_value(d[k]) < 16);
    }
    assert(encode_utf8(t) =~= e + seq![13u8, 10u8]);
}

/// A size line states the number that its hexadecimal digits make, whatever follows a semicolon
/// behind them.
pub proof fn size_lines_are_hexadecimal(n: usize, extension: Seq<char>)
    requires
        extension.len() > 0 ==> extension[0] == ';' && !is_space(extension.last()),
    ensures
        chunk_size(encode_utf8(numeral(n as nat, 16) + extension + seq!['\r', '\n'])) == Ok::<
            nat,
            Seq<char>,
        >(n as nat),
{
    broadcast use vstd::utf8::group_utf8_lib;

    let d = numeral(n as nat, 16);
    let s = d + extension;
    let end = seq!['\r', '\n'];
    lemma_numeral(n as nat, 16);
    numeral_reads_back(n as nat, 16, usize::MAX as nat);
    assert(digit_value(d[0]) < 16);
    assert(digit_value(d[d.len() - 1]) < 16);
    assert(s[0] == d[0]);
    assert(s.last() == if extension.len() > 0 {
        extension.last()
    } else {
        d.last()
    });
    trimming_takes_off_padding(Seq::empty(), s, end);
    assert(Seq::<char>::empty() + s + end =~= d + extension + end);
    assert(!d.contains(';')) by {
        if d.contains(';') {
            let k = choose|k: int| 0 <= k < d.len() && d[k] == ';';
            assert(digit_value(d[k]) < 16);
        }
    }
    if extension.len() > 0 {
        assert(s =~= d + seq![';'] + extension.skip(1));
        lemma_pieces_head(d, ';', extension.skip(1));
    } else {
        assert(s =~= d);
        lemma_pieces_head(d, ';', d);
    }
}

/// A line whose size reads as a number has hexadecimal digits up to its end or a semicolon, and
/// a plus sign in front of them at most.
pub proof fn sizes_hold_only_hexadecimal_digits(line: Seq<u8>, i: int)
    requires
        chunk_size(line).is_ok(),
        0 <= i < pieces(trimmed(decode_utf8(line)), ';')[0].len(),
    ensures
        ({
            let c = pieces(trimmed(decode_utf8(line)), ';')[0][i];
            '0' <= c <= '9' || 'a' <= c <= 'f' || 'A' <= c <= 'F' || c == '+'
        }),
        chunk_size(line)->Ok_0 <= usize::MAX,
{
    numbers_hold_only_digits(
        pieces(trimmed(decode_utf8(line)), ';')[0],
        16,
        usize::MAX as nat,
        i,
    );
}

proof fn lemma_line_found(line: Seq<u8>, rest: Seq<u8>)
    requires
        forall|k: int| 0 <= k < line.len() ==> (#[trigger] line[k]) != 13,
    ensures
        index_of(line + seq![13u8, 10u8] + rest, crlf()) == Some(line.len() as int),
{
    let all = line + seq![13u8, 10u8] + rest;
    let n = line.len() as int;
    assert(all.subrange(n, n + 2) =~= crlf());
    assert forall|j: int| 0 <= j < n implies !#[trigger] occurs_at(all, crlf(), j) by {
        if occurs_at(all, crlf(), j) {
            assert(all.subrange(j, j + 2)[0] == all[j]);
            assert(all[j] == line[j]);
        }
    }
    lemma_index_is(all, crlf(), n);
}

proof fn lemma_size_line(n: usize, rest: Seq<u8>)
    ensures
        ({
            let line = encode_utf8(numeral(n as nat, 16));
            let all = line + seq![13u8, 10u8] + rest;
            &&& index_of(all, crlf()) == Some(line.len() as int)
            &&& chunk_size(all.take(line.len() as int + 2)) == Ok::<nat, Seq<char>>(n as nat)
            &&& all.skip(line.len() as int + 2) == rest
            &&& all.len() >= line.len() as int + 2
        }),
{
    let line = encode_utf8(numeral(n as nat, 16));
    let all = line + seq![13u8, 10u8] + rest;
    lemma_hex_line(n as nat);
    lemma_line_found(line, rest);
    size_lines_are_hexadecimal(n, Seq::empty());
    assert(numeral(n as nat, 16) + Seq::<char>::empty() =~= numeral(n as nat, 16));
    assert(all.take(line.len() as int + 2) =~= line + seq![13u8, 10u8]);
    assert(all.skip(line.len() as int + 2) =~= rest);
}

/// A chunk is passed on whole, and the body goes on behind it.
pub proof fn chunks_pass_whole(copied: usize, data: Seq<u8>, rest: Seq<u8>, max: Option<usize>)
    requires
        data.len() > 0,
        copied + data.len() <= usize::MAX,
        max matches Some(m) ==> copied + data.len() <= m,
    ensures
        frame(CopyState::ChunkLine { copied }, chunk_bytes(data) + rest, max) == frame(
            CopyState::ChunkLine { copied: (copied + data.len()) as usize },
            rest,
            max,
        ).after(chunk_bytes(data).len() as int),
{
    let n = data.len() as usize;
    let line = encode_utf8(numeral(data.len(), 16));
    let tail = data + seq![13u8, 10u8] + rest;
    let input = chunk_bytes(data) + rest;
    assert(input =~= line + seq![13u8, 10u8] + tail);
    lemma_size_line(n, tail);
    let next = CopyState::ChunkLine { copied: (copied + n) as usize };
    let within = CopyState::ChunkData {
        copied: (copied + n) as usize,
        remaining: (n + 2) as u128,
    };
    assert(tail.skip(n + 2) =~= rest);
    assert(frame(within, tail, max) == frame(next, rest, max).after(n + 2));
    lemma_after(frame(next, rest, max), n + 2, line.len() as int + 2);
    assert(frame(CopyState::ChunkLine { copied }, input, max) == frame(within, tail, max).after(
        line.len() as int + 2,
    ));
}

/// A chunked body is passed on whole, byte for byte, and is finished behind its last chunk:
/// nothing of what follows is taken.
pub proof fn chunked_bodies_pass_whole(
    copied: usize,
    chunks: Seq<Seq<u8>>,
    rest: Seq<u8>,
    max: Option<usize>,
)
    requires
        forall|i: int| 0 <= i < chunks.len() ==> (#[trigger] chunks[i]).len() > 0,
        copied + held_by(chunks) <= usize::MAX,
        max matches Some(m) ==> copied + held_by(chunks) <= m,
    ensures
        frame(CopyState::ChunkLine { copied }, chunked_body(chunks) + rest, max)
            == (Framed::Finished { used: chunked_body(chunks).len() as int }),
        start_of(BodyKind::Chunked) == (CopyState::ChunkLine { copied: 0 }),
    decreases chunks.len(),
{
    if chunks.len() == 0 {
        let input = chunked_body(chunks) + rest;
        let tail = seq![13u8, 10u8] + rest;
        let zero = numeral(0, 16);
        lemma_hex_line(0);
        assert(zero =~= seq!['0']);
        assert(is_ascii_chars(zero));
        is_ascii_chars_encode_utf8(zero);
        assert(encode_utf8(zero) =~= seq![48u8]);
        assert(input =~= seq![48u8] + seq![13u8, 10u8] + tail);
        lemma_size_line(0, tail);
        assert(tail =~= Seq::<u8>::empty() + seq![13u8, 10u8] + rest);
        lemma_line_found(Seq::empty(), rest);
        assert(frame(CopyState::Trailer, tail, max) == (Framed::Finished { used: 2 }));
    } else {
        let more = chunked_body(chunks.skip(1));
        assert forall|i: int| 0 <= i < chunks.skip(1).len() implies (
        #[trigger] chunks.skip(1)[i]).len() > 0 by {
            assert(chunks[i + 1].len() > 0);
        }
        assert(chunks[0].len() > 0);
        assert(chunked_body(chunks) + rest =~= chunk_bytes(chunks[0]) + (more + rest));
        chunks_pass_whole(copied, chunks[0], more + rest, max);
        chunked_bodies_pass_whole(
            (copied + chunks[0].len()) as usize,
            chunks.skip(1),
            rest,
            max,
        );
    }
}

/// A chunk that would bring a body above its limit ends it, once its size line was passed on.
pub proof fn chunks_above_the_limit_end_the_body(
    copied: usize,
    n: usize,
    rest: Seq<u8>,
    max: usize,
)
    requires
        n > 0,
        copied + n > max,
    ensures
        frame(
            CopyState::ChunkLine { copied },
            encode_utf8(numeral(n as nat, 16)) + seq![13u8, 10u8] + rest,
            Some(max),
        ) == (Framed::Broken {
            used: encode_utf8(numeral(n as nat, 16)).len() as int + 2,
            why: "request body too large"@,
        }),
{
    lemma_size_line(n, rest);
}

/// Trailer lines are passed on until an empty line, which is the last of the body.
pub proof fn trailers_pass_until_an_empty_line(line: Seq<u8>, rest: Seq<u8>, max: Option<usize>)
    requires
        forall|k: int| 0 <= k < line.len() ==> (#[trigger] line[k]) != 13,
    ensures
        frame(CopyState::Trailer, line + seq![13u8, 10u8] + rest, max) == if line.len() == 0 {
            Framed::Finished { used: 2 }
        } else {
            frame(CopyState::Trailer, rest, max).after(line.len() as int + 2)
        },
{
    let all = line + seq![13u8, 10u8] + rest;
    lemma_line_found(line, rest);
    assert(all.skip(line.len() as int + 2) =~= rest);
}

/// A message without a body has none, whatever follows it; one that lasts as long as its
/// connection has every byte, and is never finished before.
pub proof fn bodies_without_a_length(input: Seq<u8>, max: Option<usize>)
    ensures
        frame(start_of(BodyKind::Empty), input, max) == (Framed::Finished { used: 0 }),
        frame(start_of(BodyKind::CloseDelimited), input, max) == (Framed::More {
            used: input.len() as int,
            state: start_of(BodyKind::CloseDelimited),
        }),
{
}

/// No more is asked for at once than the part of known length that is left, and never nothing
/// while there is something to read.
pub proof fn reads_stay_within_their_part(state: CopyState)
    ensures
        part_left(state) matches Some(left) ==> read_size(state) <= left,
        part_left(state) matches Some(left) && left > 0 ==> read_size(state) > 0,
        part_left(state) is None ==> read_size(state) > 0,
        read_size(state) <= 16384,
        state matches CopyState::Exact { remaining } ==> part_left(state) == Some(remaining),
        state matches CopyState::ChunkData { remaining, .. } ==> part_left(state) == Some(
            remaining,
        ),
{
}

/// The head of a message ends behind the first empty line, whatever follows.
pub proof fn heads_end_behind_the_first_empty_line(head: Seq<u8>, rest: Seq<u8>)
    requires
        4 <= head.len() <= usize::MAX,
        head.skip(head.len() - 4) == seq![13u8, 10u8, 13u8, 10u8],
        forall|j: int|
            0 <= j < head.len() - 4 ==> #[trigger] head.subrange(j, j + 4) != seq![
                13u8,
                10u8,
                13u8,
                10u8,
            ],
    ensures
        head_scan(head + rest) == HeadScan::Complete(head.len() as usize),
{
    let all = head + rest;
    let n = head.len() - 4;
    assert(all.subrange(n, n + 4) =~= head.skip(n));
    assert(occurs_at(all, head_end(), n));
    lemma_index_from(all, head_end(), 0);
    let i = index_of(all, head_end())->0;
    if i < n {
        assert(all.subrange(i, i + 4) =~= head.subrange(i, i + 4));
    }
}

/// Bytes without an empty line are no head yet, and no head at all from 65536 bytes on.
pub proof fn heads_without_an_end_are_bounded(buf: Seq<u8>)
    requires
        forall|j: int|
            0 <= j <= buf.len() - 4 ==> #[trigger] buf.subrange(j, j + 4) != seq![
                13u8,
                10u8,
                13u8,
                10u8,
            ],
    ensures
        head_scan(buf) == if buf.len() >= 65536 {
            HeadScan::TooLarge
        } else {
            HeadScan::More
        },
{
    lemma_index_from(buf, head_end(), 0);
    if let Some(i) = index_of(buf, head_end()) {
        assert(buf.subrange(i, i + 4) == head_end());
    }
}

/// A body that is cut off is whole only where it lasts as long as its connection.
pub proof fn only_bodies_until_close_may_end_early(state: CopyState, r: bool)
    requires
        call_ensures(whole_at_eof, (&state,), r),
    ensures
        state is Exact || state is ChunkLine || state is ChunkData || state is Trailer ==> !r,
        state is UntilClose || state is Done ==> r,
{
}

/// Reading a size line gives the number that it spells in hexadecimal, whatever extension stands
/// behind it.
pub proof fn size_lines_are_read(
    line: &[u8],
    n: usize,
    extension: Seq<char>,
    r: Result<usize, &'static str>,
)
    requires
        extension.len() > 0 ==> extension[0] == ';' && !is_space(extension.last()),
        line@ == encode_utf8(numeral(n as nat, 16) + extension + seq!['\r', '\n']),
        call_ensures(parse_chunk_size, (line,), r),
    ensures
        r == Ok::<usize, &'static str>(n),
{
    size_lines_are_hexadecimal(n, extension);
}

/// A chunked body that is in the buffer leaves it whole, and what stands behind it stays.
pub proof fn chunked_bodies_are_forwarded(
    state: &mut CopyState,
    buf: &mut Vec<u8>,
    max: Option<usize>,
    chunks: Seq<Seq<u8>>,
    rest: Seq<u8>,
    r: CopyStep,
)
    requires
        *old(state) == (CopyState::ChunkLine { copied: 0 }),
        old(buf)@ == chunked_body(chunks) + rest,
        forall|i: int| 0 <= i < chunks.len() ==> (#[trigger] chunks[i]).len() > 0,
        held_by(chunks) <= usize::MAX,
        max matches Some(m) ==> held_by(chunks) <= m,
        call_ensures(forward_body, (state, buf, max), r),
    ensures
        r.bytes@ == chunked_body(chunks),
        final(buf)@ == rest,
        r.status is Finished,
        *final(state) == CopyState::Done,
{
    chunked_bodies_pass_whole(0, chunks, rest, max);
    assert(old(buf)@.take(chunked_body(chunks).len() as int) =~= chunked_body(chunks));
    assert(old(buf)@.skip(chunked_body(chunks).len() as int) =~= rest);
}

/// A body of known length leaves the buffer up to its length, and all that comes goes on where
/// the connection ends it.
pub proof fn plain_bodies_are_forwarded(
    state: &mut CopyState,
    buf: &mut Vec<u8>,
    max: Option<usize>,
    r: CopyStep,
)
    requires
        call_ensures(forward_body, (state, buf, max), r),
    ensures
        *old(state) matches CopyState::Exact { remaining } ==> {
            &&& old(buf)@.len() >= remaining ==> r.bytes@ == old(buf)@.take(remaining as int)
                && final(buf)@ == old(buf)@.skip(remaining as int) && r.status is Finished
            &&& old(buf)@.len() < remaining ==> r.bytes@ == old(buf)@ && r.status is More
                && *final(state) == (CopyState::Exact {
                remaining: (remaining - old(buf)@.len()) as u128,
            })
        },
        *old(state) == CopyState::UntilClose ==> r.bytes@ == old(buf)@ && r.status is More
            && *final(state) == CopyState::UntilClose,
        *old(state) == CopyState::Done ==> r.bytes@.len() == 0 && r.status is Finished,
        r.bytes@ + final(buf)@ == old(buf)@,
{
    let n = frame(*old(state), old(buf)@, max).taken();
    lemma_frame_within(*old(state), old(buf)@, max);
    assert(old(buf)@.take(n) + old(buf)@.skip(n) =~= old(buf)@);
    assert(old(buf)@.take(old(buf)@.len() as int) =~= old(buf)@);
}

/// What goes by on another way counts toward its part.
pub proof fn bytes_that_go_by_are_counted(state: &mut CopyState, n: usize)
    requires
        part_left(*old(state)) matches Some(left) && n <= left,
        call_ensures(passed_by, (state, n), ()),
    ensures
        *old(state) matches CopyState::Exact { remaining } ==> *final(state) == if n == remaining {
            CopyState::Done
        } else {
            CopyState::Exact { remaining: (remaining - n) as u128 }
        },
        *old(state) matches CopyState::ChunkData { copied, remaining } ==> *final(state) == if n
            == remaining {
            CopyState::ChunkLine { copied }
        } else {
            CopyState::ChunkData { copied, remaining: (remaining - n) as u128 }
        },
{
}

/// No more is read at a time than 16 KiB, nor than is left.
pub proof fn reads_are_limited(state: CopyState, r: usize)
    requires
        call_ensures(read_limit, (&state,), r),
    ensures
        r <= 16384,
        state matches CopyState::Exact { remaining } ==> r == if remaining < 16384 {
            remaining as usize
        } else {
            16384
        },
        state matches CopyState::ChunkData { remaining, .. } ==> r == if remaining < 16384 {
            remaining as usize
        } else {
            16384
        },
        state is ChunkLine || state is Trailer || state is UntilClose ==> r == 16384,
{
}

/// A head is found where its first empty line ends it.
pub proof fn heads_are_found(buf: &[u8], head: Seq<u8>, rest: Seq<u8>, r: HeadScan)
    requires
        buf@ == head + rest,
        4 <= head.len() <= usize::MAX,
        head.skip(head.len() - 4) == seq![13u8, 10u8, 13u8, 10u8],
        forall|j: int|
            0 <= j < head.len() - 4 ==> #[trigger] head.subrange(j, j + 4) != seq![
                13u8,
                10u8,
                13u8,
                10u8,
            ],
        call_ensures(scan_header_block, (buf,), r),
    ensures
        r == HeadScan::Complete(head.len() as usize),
{
    heads_end_behind_the_first_empty_line(head, rest);
}

/// What is wrong with a size line, in words.
pub proof fn bad_sizes_in_words(line: &[u8], r: Result<usize, &'static str>)
    requires
        call_ensures(parse_chunk_size, (line,), r),
    ensures
        !valid_utf8(line@) ==> (r matches Err(m) && m@ == "bad chunk"@),
        valid_utf8(line@) ==> (r matches Err(m) ==> m@ == "bad chunk size"@),
{
}

/// A client has ten seconds for the head of its request.
pub proof fn heads_have_ten_seconds()
    ensures
        HEADER_TIMEOUT_MS == 10000,
        MAX_HEADER_BYTES == 65536,
{
}

} // verus!
