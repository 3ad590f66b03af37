//! Operations as futures: started on the first poll, parked until the kernel is done, and
//! orphaned where they are dropped in between.

use crate::addr::SocketAddr;
use crate::runtime::buf::IoBufMut;
use crate::runtime::caps::{errno_in, errno_of, RingError};
use crate::runtime::net::{from_sockaddr, read_back, RawSockAddr};
use crate::runtime::op::{Op, OpState};
use crate::runtime::ring::{given_up, memory_kept, same_setup, OrphanAction, Ring};
use crate::runtime::slab::{OpKey, OpSlab};
use vstd::prelude::*;

verus! {

/// A result of the kernel: a number, or an error number where it is negative.
pub open spec fn result_of(res: i32) -> Result<i32, RingError> {
    if res < 0 {
        Err(RingError::Os(errno_in(res)))
    } else {
        Ok(res)
    }
}

/// A result of the kernel.
pub fn decode_result(res: i32) -> (r: Result<i32, RingError>)
    ensures
        r == result_of(res),
{
    if res < 0 {
        Err(RingError::Os(errno_of(res)))
    } else {
        Ok(res)
    }
}

/// One operation. The memory it is to keep moves into the ring when it is started.
pub struct OpFuture<K> {
    pub keepalive: Option<K>,
    pub key: Option<OpKey>,
    pub done: bool,
}

impl<K> OpFuture<K> {
    /// An operation that is still to be started.
    pub fn new(keepalive: Option<K>) -> (r: OpFuture<K>)
        ensures
            r == (OpFuture { keepalive, key: None, done: false }),
    {
        OpFuture { keepalive, key: None, done: false }
    }

    /// Starts the operation where it is not, and asks whether it is over.
    ///
    /// `queued` says whether there was a place for it in the queue; it is read only where the
    /// operation is not started.
    pub fn poll<W>(
        &mut self,
        ring: &mut Ring<K, W>,
        queued: Result<(), RingError>,
        waker: W,
    ) -> (r: Option<Result<i32, RingError>>)
        requires
            old(ring).wf(),
            old(self).key is None ==> old(ring).room(),
            !old(self).done,
        ensures
            final(ring).wf(),
            same_setup(*old(ring), *final(ring)),
            memory_kept(old(ring)@, final(ring)@, None),
            match old(self).key {
                Some(key) => if !old(ring)@.contains_key(key) {
                    r is None && *final(self) == *old(self) && final(ring).table() == old(
                        ring,
                    ).table()
                } else {
                    match old(ring)@[key].state {
                        OpState::Complete(c) => {
                            &&& r == Some(result_of(c.res))
                            &&& *final(self) == (OpFuture { key: None, done: true, ..*old(self) })
                            &&& OpSlab::taken(old(ring).table(), final(ring).table(), key)
                        },
                        OpState::Waiting(_) => {
                            &&& r is None
                            &&& *final(self) == *old(self)
                            &&& OpSlab::changed(
                                old(ring).table(),
                                final(ring).table(),
                                key,
                                (Op { state: OpState::Waiting(Some(waker)), ..old(ring)@[key] }),
                            )
                        },
                    }
                },
                None => match queued {
                    Err(e) => {
                        &&& r == Some(Err::<i32, RingError>(e))
                        &&& *final(self) == (OpFuture {
                            keepalive: None::<K>,
                            key: None,
                            done: true,
                        })
                        &&& final(ring)@ == old(ring)@
                        &&& given_up(
                            old(ring).table(),
                            final(ring).table(),
                            (Op {
                                state: OpState::Waiting(None::<W>),
                                orphaned: false,
                                keepalive: old(self).keepalive,
                            }),
                        )
                    },
                    Ok(()) => {
                        &&& r is None
                        &&& !final(self).done
                        &&& final(self).keepalive is None
                        &&& final(self).key matches Some(key) && OpSlab::stored(
                            old(ring).table(),
                            final(ring).table(),
                            key,
                            (Op {
                                state: OpState::Waiting(Some(waker)),
                                orphaned: false,
                                keepalive: old(self).keepalive,
                            }),
                        )
                    },
                },
            },
    {
        if let Some(key) = self.key {
            return match ring.poll_op(key, waker) {
                Some((result, _kept)) => {
                    self.key = None;
                    self.done = true;
                    Some(decode_result(result.res))
                },
                None => None,
            };
        }
        let mut keepalive: Option<K> = None;
        std::mem::swap(&mut self.keepalive, &mut keepalive);
        match ring.submit_op(keepalive, queued) {
            Err(e) => {
                self.done = true;
                Some(Err(e))
            },
            Ok(key) => {
                self.key = Some(key);
                match ring.poll_op(key, waker) {
                    Some((result, _kept)) => {
                        self.key = None;
                        self.done = true;
                        Some(decode_result(result.res))
                    },
                    None => {
                        proof {
                            assert(ring@ =~= old(ring)@.insert(
                                key,
                                (Op {
                                    state: OpState::Waiting(Some(waker)),
                                    orphaned: false,
                                    keepalive,
                                }),
                            ));
                        }
                        None
                    },
                }
            },
        }
    }

    /// The future is dropped: an operation in flight is orphaned.
    pub fn cancel<W>(&mut self, ring: &mut Ring<K, W>) -> (r: OrphanAction)
        requires
            old(ring).wf(),
        ensures
            final(ring).wf(),
            same_setup(*old(ring), *final(ring)),
            memory_kept(old(ring)@, final(ring)@, None),
            *final(self) == (OpFuture { key: None, ..*old(self) }),
            match old(self).key {
                None => r == OrphanAction::Nothing && *final(ring) == *old(ring),
                Some(key) => if !old(ring)@.contains_key(key) {
                    r == OrphanAction::Nothing && final(ring).table() == old(ring).table()
                } else if old(ring)@[key].state is Complete {
                    r == OrphanAction::Freed && OpSlab::taken(
                        old(ring).table(),
                        final(ring).table(),
                        key,
                    )
                } else {
                    r == OrphanAction::Cancel && OpSlab::changed(
                        old(ring).table(),
                        final(ring).table(),
                        key,
                        (Op {
                            state: OpState::Waiting(None),
                            orphaned: true,
                            ..old(ring)@[key]
                        }),
                    )
                },
            },
    {
        match self.key {
            None => OrphanAction::Nothing,
            Some(key) => {
                self.key = None;
                ring.orphan(key)
            },
        }
    }
}

/// Which way the bytes of a buffer go.
#[derive(Clone, Copy, Debug, PartialEq, Eq, Structural)]
pub enum Dir {
    Recv,
    Send,
}

/// One receive or send with an owned buffer. The buffer moves into the ring once the operation
/// was queued, and comes back when it is over or could not be queued.
pub struct BufFut<B> {
    pub dir: Dir,
    /// Where in the buffer a send begins.
    pub off: usize,
    pub buf: Option<B>,
    pub key: Option<OpKey>,
    pub done: bool,
}

/// A result of the kernel as a number of bytes.
pub open spec fn count_of(res: i32) -> Result<usize, RingError> {
    if res < 0 {
        Err(RingError::Os(errno_in(res)))
    } else {
        Ok(res as usize)
    }
}

impl<B: IoBufMut> BufFut<B> {
    /// A receive or send that is still to be started.
    pub fn new(dir: Dir, off: usize, buf: B) -> (r: BufFut<B>)
        ensures
            r == (BufFut { dir, off, buf: Some(buf), key: None, done: false }),
    {
        BufFut { dir, off, buf: Some(buf), key: None, done: false }
    }

    /// The part of the buffer that the kernel is given: all of it to receive into, or what
    /// follows the offset among the bytes in use to send from.
    pub open spec fn window(&self) -> (nat, nat) {
        match self.dir {
            Dir::Recv => (0, self.buf->0.storage().len()),
            Dir::Send => {
                let total = self.buf->0.used();
                let off = if self.off < total {
                    self.off as nat
                } else {
                    total
                };
                (off, (total - off) as nat)
            },
        }
    }

    /// The part of the buffer that the kernel is given, as start and length.
    pub fn span(&self) -> (r: (usize, usize))
        requires
            self.buf is Some,
        ensures
            (r.0 as nat, r.1 as nat) == self.window(),
    {
        match &self.buf {
            None => (0, 0),
            Some(buf) => match self.dir {
                Dir::Recv => (0, buf.bytes_total()),
                Dir::Send => {
                    let total: usize = buf.bytes_init();
                    let off: usize = if self.off < total {
                        self.off
                    } else {
                        total
                    };
                    (off, total - off)
                },
            },
        }
    }

    /// Whether the operation under the key holds this kind of buffer, and the kernel received
    /// no more into it than it has room for.
    pub open spec fn sound<W>(&self, ring: Ring<B, W>) -> bool {
        match self.key {
            None => self.buf is Some,
            Some(key) => ring@.contains_key(key) && ring@[key].keepalive is Some && (
            ring@[key].state matches OpState::Complete(c) ==> (self.dir == Dir::Recv && c.res >= 0
                ==> c.res <= ring@[key].keepalive->0.storage().len())),
        }
    }

    /// Starts the operation where it is not, and asks whether it is over.
    ///
    /// `queued` says whether there was a place for it in the queue; it is read only where the
    /// operation is not started.
    pub fn poll<W>(
        &mut self,
        ring: &mut Ring<B, W>,
        queued: Result<(), RingError>,
        waker: W,
    ) -> (r: Option<(Result<usize, RingError>, B)>)
        requires
            old(ring).wf(),
            old(self).key is None ==> old(ring).room(),
            !old(self).done,
            old(self).sound(*old(ring)),
        ensures
            final(ring).wf(),
            same_setup(*old(ring), *final(ring)),
            memory_kept(old(ring)@, final(ring)@, None),
            match old(self).key {
                Some(key) => match old(ring)@[key].state {
                    OpState::Complete(c) => {
                        let kept = old(ring)@[key].keepalive->0;
                        &&& *final(self) == (BufFut { key: None, done: true, ..*old(self) })
                        &&& OpSlab::taken(old(ring).table(), final(ring).table(), key)
                        &&& r matches Some((count, buf)) && count == count_of(c.res)
                            && buf.storage() == kept.storage() && if c.res >= 0 && old(self).dir
                            == Dir::Recv {
                            buf.used() == c.res
                        } else {
                            buf == kept
                        }
                    },
                    OpState::Waiting(_) => r is None && *final(self) == *old(self)
                        && OpSlab::changed(
                        old(ring).table(),
                        final(ring).table(),
                        key,
                        (Op { state: OpState::Waiting(Some(waker)), ..old(ring)@[key] }),
                    ),
                },
                None => match queued {
                    Err(e) => {
                        &&& r == Some((Err::<usize, RingError>(e), old(self).buf->0))
                        &&& *final(self) == (BufFut { buf: None::<B>, done: true, ..*old(self) })
                        &&& final(ring)@ == old(ring)@
                        &&& given_up(
                            old(ring).table(),
                            final(ring).table(),
                            (Op {
                                state: OpState::Waiting(None::<W>),
                                orphaned: false,
                                keepalive: None::<B>,
                            }),
                        )
                    },
                    Ok(()) => {
                        &&& r is None
                        &&& *final(self) == (BufFut {
                            buf: None::<B>,
                            key: final(self).key,
                            ..*old(self)
                        })
                        &&& final(self).key matches Some(key) && OpSlab::stored(
                            old(ring).table(),
                            final(ring).table(),
                            key,
                            (Op {
                                state: OpState::Waiting(Some(waker)),
                                orphaned: false,
                                keepalive: old(self).buf,
                            }),
                        )
                    },
                },
            },
    {
        if let Some(key) = self.key {
            return match ring.poll_op(key, waker) {
                Some((result, kept)) => {
                    self.done = true;
                    self.key = None;
                    match kept {
                        Some(mut buf) => {
                            if result.res < 0 {
                                Some((Err(RingError::Os(errno_of(result.res))), buf))
                            } else {
                                let n: usize = result.res as usize;
                                if self.dir == Dir::Recv {
                                    buf.set_init(n);
                                }
                                Some((Ok(n), buf))
                            }
                        },
                        None => None,
                    }
                },
                None => None,
            };
        }
        let mut taken: Option<B> = None;
        std::mem::swap(&mut self.buf, &mut taken);
        match taken {
            None => None,
            Some(buf) => match ring.submit_op(None, queued) {
                Err(e) => {
                    self.done = true;
                    Some((Err(e), buf))
                },
                Ok(key) => {
                    ring.attach_keepalive(key, buf);
                    self.key = Some(key);
                    let _pending = ring.poll_op(key, waker);
                    proof {
                        assert(ring@ =~= old(ring)@.insert(
                            key,
                            (Op {
                                state: OpState::Waiting(Some(waker)),
                                orphaned: false,
                                keepalive: old(self).buf,
                            }),
                        ));
                    }
                    None
                },
            },
        }
    }

    /// The future is dropped: an operation in flight is orphaned, and its buffer stays with it.
    pub fn cancel<W>(&mut self, ring: &mut Ring<B, W>) -> (r: OrphanAction)
        requires
            old(ring).wf(),
        ensures
            final(ring).wf(),
            same_setup(*old(ring), *final(ring)),
            memory_kept(old(ring)@, final(ring)@, None),
            *final(self) == (BufFut { key: None, ..*old(self) }),
            match old(self).key {
                None => r == OrphanAction::Nothing && *final(ring) == *old(ring),
                Some(key) => if !old(ring)@.contains_key(key) {
                    r == OrphanAction::Nothing && final(ring).table() == old(ring).table()
                } else if old(ring)@[key].state is Complete {
                    r == OrphanAction::Freed && OpSlab::taken(
                        old(ring).table(),
                        final(ring).table(),
                        key,
                    )
                } else {
                    r == OrphanAction::Cancel && OpSlab::changed(
                        old(ring).table(),
                        final(ring).table(),
                        key,
                        (Op {
                            state: OpState::Waiting(None),
                            orphaned: true,
                            ..old(ring)@[key]
                        }),
                    )
                },
            },
    {
        match self.key {
            None => OrphanAction::Nothing,
            Some(key) => {
                self.key = None;
                ring.orphan(key)
            },
        }
    }
}

// ----------------------------------------------------------- accept and connect

/// Why no connection was accepted.
#[derive(Clone, Copy, Debug, PartialEq, Eq, Structural)]
pub enum AcceptError {
    Ring(RingError),
    /// The peer's address is of an unknown kind.
    UnknownFamily,
}

/// What an accept came to, given the result of the kernel and the address it left.
pub fn accept_outcome(res: i32, peer: &RawSockAddr) -> (r: Result<(i32, SocketAddr), AcceptError>)
    ensures
        r == if res < 0 {
            Err::<(i32, SocketAddr), AcceptError>(AcceptError::Ring(RingError::Os(errno_in(res))))
        } else {
            match read_back(*peer) {
                Some(addr) => Ok((res, addr)),
                None => Err(AcceptError::UnknownFamily),
            }
        },
{
    if res < 0 {
        return Err(AcceptError::Ring(RingError::Os(errno_of(res))));
    }
    match from_sockaddr(peer) {
        Some(addr) => Ok((res, addr)),
        None => Err(AcceptError::UnknownFamily),
    }
}

/// What a connect came to.
pub fn connect_outcome(res: i32) -> (r: Result<(), RingError>)
    ensures
        r == if res < 0 {
            Err::<(), RingError>(RingError::Os(errno_in(res)))
        } else {
            Ok(())
        },
{
    if res < 0 {
        Err(RingError::Os(errno_of(res)))
    } else {
        Ok(())
    }
}

// --------------------------------------------------------------- sending it all

/// Sending a whole buffer in as many sends as it takes.
#[derive(Clone, Copy, Debug, PartialEq, Eq, Structural)]
pub struct SendAll {
    pub off: usize,
    pub total: usize,
}

/// What came of one send.
#[derive(Clone, Copy, Debug, PartialEq, Eq, Structural)]
pub enum SendStep {
    /// Everything was sent.
    Done,
    /// Send on from here.
    SendFrom(usize),
    /// The peer takes no more.
    WriteZero,
}

impl SendAll {
    /// No more was sent than there is.
    pub open spec fn wf(&self) -> bool {
        self.off <= self.total
    }

    /// What to do next.
    pub open spec fn next(&self) -> SendStep {
        if self.off < self.total {
            SendStep::SendFrom(self.off)
        } else {
            SendStep::Done
        }
    }

    /// Sends `total` bytes.
    pub fn start(total: usize) -> (r: (SendAll, SendStep))
        ensures
            r.0.wf(),
            r.0 == (SendAll { off: 0, total }),
            r.1 == r.0.next(),
    {
        let s = SendAll { off: 0, total };
        if total > 0 {
            (s, SendStep::SendFrom(0))
        } else {
            (s, SendStep::Done)
        }
    }

    /// So many bytes were sent.
    pub fn sent(&mut self, n: usize) -> (r: SendStep)
        requires
            old(self).wf(),
            n <= old(self).total - old(self).off,
        ensures
            final(self).wf(),
            final(self).total == old(self).total,
            final(self).off == old(self).off + n,
            r == if n == 0 {
                SendStep::WriteZero
            } else {
                final(self).next()
            },
    {
        if n == 0 {
            return SendStep::WriteZero;
        }
        self.off = self.off + n;
        if self.off < self.total {
            SendStep::SendFrom(self.off)
        } else {
            SendStep::Done
        }
    }
}

/// A whole buffer is sent exactly once: it is done just where every byte was sent, and the next
/// send goes on where the last one ended.
pub proof fn send_all_leaves_no_gap(s: SendAll)
    requires
        s.wf(),
    ensures
        s.next() == SendStep::Done <==> s.off == s.total,
        s.next() matches SendStep::SendFrom(at) ==> at == s.off && at < s.total,
{
}

/// A result of the kernel is a number of bytes, or the error number that it is the negative of.
pub proof fn results_are_counts_or_errors(res: i32)
    ensures
        res >= 0 ==> result_of(res) == Ok::<i32, RingError>(res) && count_of(res) == Ok::<
            usize,
            RingError,
        >(res as usize),
        i32::MIN < res < 0 ==> result_of(res) == Err::<i32, RingError>(RingError::Os((-res) as i32))
            && count_of(res) == Err::<usize, RingError>(RingError::Os((-res) as i32)),
{
}

/// A receive is given the whole buffer, and a send what is in use behind its offset.
pub proof fn the_kernel_is_given_what_is_free_or_used<B: IoBufMut>(f: BufFut<B>)
    requires
        f.buf is Some,
    ensures
        f.dir == Dir::Recv ==> f.window() == (0nat, f.buf->0.storage().len()),
        f.dir == Dir::Send && f.off <= f.buf->0.used() ==> f.window() == (
            f.off as nat,
            (f.buf->0.used() - f.off) as nat,
        ),
        f.dir == Dir::Send && f.off > f.buf->0.used() ==> f.window().1 == 0,
{
}

/// Sending goes on where the last send stopped, and is done where everything was sent.
pub proof fn sends_go_on_where_they_stopped(s: SendAll)
    ensures
        s.off < s.total ==> s.next() == SendStep::SendFrom(s.off),
        s.off >= s.total ==> s.next() == SendStep::Done,
{
}

/// A connection is accepted with the peer's address; a failure is reported as the kernel's.
pub proof fn accepts_give_the_peer(
    res: i32,
    peer: &RawSockAddr,
    r: Result<(i32, SocketAddr), AcceptError>,
)
    requires
        call_ensures(accept_outcome, (res, peer), r),
    ensures
        i32::MIN < res < 0 ==> r == Err::<(i32, SocketAddr), AcceptError>(
            AcceptError::Ring(RingError::Os((-res) as i32)),
        ),
        res >= 0 && peer.family == 2 ==> (r matches Ok((fd, addr)) && fd == res && (
        addr matches SocketAddr::V4 { ip, port } && ip == peer.v4 && port == peer.port_high * 256
            + peer.port_low)),
        res >= 0 && peer.family != 2 && peer.family != 10 ==> r is Err,
{
}

/// An operation that has completed gives the kernel's result once and frees its slot; one that has
/// not keeps who waits for it; one that could not be queued gives the reason.
pub proof fn operations_give_their_result<K, W>(
    f: &mut OpFuture<K>,
    ring: &mut Ring<K, W>,
    queued: Result<(), RingError>,
    waker: W,
    r: Option<Result<i32, RingError>>,
)
    requires
        old(ring).wf(),
        old(f).key is None ==> old(ring).room(),
        !old(f).done,
        call_ensures(OpFuture::<K>::poll::<W>, (f, ring, queued, waker), r),
    ensures
        old(f).key matches Some(key) ==> (old(ring)@.contains_key(key) ==> match old(
            ring
        )@[key].state {
            OpState::Complete(c) => r == Some(
                if c.res >= 0 {
                    Ok::<i32, RingError>(c.res)
                } else {
                    Err(RingError::Os(errno_in(c.res)))
                },
            ) && final(f).done && !final(ring)@.contains_key(key),
            OpState::Waiting(_) => r is None && *final(f) == *old(f) && final(
                ring
            )@[key].state == OpState::Waiting(Some(waker)),
        }),
        old(f).key is None && queued is Err ==> r == Some(Err::<i32, RingError>(queued->Err_0))
            && final(f).done,
        old(f).key is None && queued is Ok ==> r is None && (final(f).key matches Some(key)
            && final(ring)@.contains_key(key) && final(ring)@[key].keepalive == old(f).keepalive),
{
}

/// A connection attempt fails just where the kernel gives a negative number.
pub proof fn connections_fail_by_number(res: i32, r: Result<(), RingError>)
    requires
        res > i32::MIN,
        call_ensures(connect_outcome, (res,), r),
    ensures
        res >= 0 ==> r is Ok,
        res < 0 ==> r == Err::<(), RingError>(RingError::Os((-res) as i32)),
{
}

/// Sending begins at the first byte and is done where nothing is left; a write of nothing ends it
/// with an error.
pub proof fn sending_goes_on_to_the_end(
    total: usize,
    begun: (SendAll, SendStep),
    s: &mut SendAll,
    n: usize,
    r: SendStep,
)
    requires
        call_ensures(SendAll::start, (total,), begun),
        old(s).wf(),
        n <= old(s).total - old(s).off,
        call_ensures(SendAll::sent, (s, n), r),
    ensures
        begun.0.off == 0,
        begun.0.total == total,
        total == 0 ==> begun.1 == SendStep::Done,
        n == 0 ==> r == SendStep::WriteZero,
        final(s).off == old(s).off + n,
        n > 0 && old(s).off + n == old(s).total ==> r == SendStep::Done,
        n > 0 && old(s).off + n < old(s).total ==> r != SendStep::Done && r != SendStep::WriteZero,
{
}

} // verus!
