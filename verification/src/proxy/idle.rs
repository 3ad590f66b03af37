//! Idle keep-alive connections to upstreams.
//!
//! A connection that has been idle for less than the threshold is reused at once; one that has
//! been idle longer is probed first.

use crate::addr::SocketAddr;
use crate::time::{Duration, Instant};
use std::collections::HashMap;
use vstd::prelude::*;

verus! {

/// How many shards the pool of the fast engine has.
pub const POOL_SHARDS: usize = 32;

/// A connection that may be reused.
pub enum Candidate<C> {
    /// It was idle for so short a time that it is used as it is.
    Fresh(C),
    /// It is used if a probe finds it alive, and dropped if not.
    Probe(C),
}

/// The connection that was returned last, given how long it has been idle.
pub open spec fn candidate_of<C>(top: (C, Instant), now: Instant, threshold: Duration) -> Candidate<
    C,
> {
    let idle = if now.nanos >= top.1.nanos {
        now.nanos - top.1.nanos
    } else {
        0
    };
    if idle < threshold.nanos {
        Candidate::Fresh(top.0)
    } else {
        Candidate::Probe(top.0)
    }
}

fn judge<C>(top: (C, Instant), now: Instant, threshold: Duration) -> (r: Candidate<C>)
    ensures
        r == candidate_of(top, now, threshold),
{
    let idle = now.saturating_duration_since(top.1);
    if idle.nanos < threshold.nanos {
        Candidate::Fresh(top.0)
    } else {
        Candidate::Probe(top.0)
    }
}

/// Whether a connection is alive, given what a non-blocking peek at one byte returned: it is
/// unless the peer closed it, unread bytes are pending, or the peek failed.
pub fn probe_verdict(received: i64, would_block: bool) -> (r: bool)
    ensures
        r == (received < 0 && would_block),
{
    if received == 0 {
        false
    } else if received > 0 {
        false
    } else {
        would_block
    }
}

/// The idle connections of the fast engine, by upstream id.
pub struct FastConnectionPool<C> {
    shards: Vec<HashMap<usize, Vec<(C, Instant)>>>,
}

impl<C> FastConnectionPool<C> {
    #[verifier::type_invariant]
    spec fn sharded(&self) -> bool {
        self.shards@.len() == POOL_SHARDS
    }

    /// The idle connections to the upstream with this id, the one returned last at the end.
    pub closed spec fn idle(&self, id: usize) -> Seq<(C, Instant)> {
        let shard = self.shards@[id as int % 32]@;
        if shard.contains_key(id) {
            shard[id]@
        } else {
            Seq::empty()
        }
    }

    /// A pool without connections.
    pub fn new() -> (r: FastConnectionPool<C>)
        ensures
            forall|id: usize| #[trigger] r.idle(id) == Seq::<(C, Instant)>::empty(),
    {
        let mut shards: Vec<HashMap<usize, Vec<(C, Instant)>>> = Vec::new();
        let mut i: usize = 0;
        while i < POOL_SHARDS
            invariant
                i <= POOL_SHARDS,
                shards.len() == i,
                forall|k: int|
                    0 <= k < i ==> (#[trigger] shards@[k])@ == Map::<
                        usize,
                        Vec<(C, Instant)>,
                    >::empty(),
            decreases POOL_SHARDS - i,
        {
            shards.push(HashMap::new());
            i = i + 1;
        }
        FastConnectionPool { shards }
    }

    /// The shard of an upstream.
    pub fn shard_idx(id: usize) -> (r: usize)
        ensures
            r == id % 32,
    {
        id % POOL_SHARDS
    }

    /// Takes the connection to the upstream that was returned last.
    pub fn checkout(&mut self, id: usize, now: Instant, idle_threshold: Duration) -> (r: Option<
        Candidate<C>,
    >)
        ensures
            old(self).idle(id).len() == 0 ==> r is None && final(self).idle(id).len() == 0,
            old(self).idle(id).len() > 0 ==> r == Some(
                candidate_of(old(self).idle(id).last(), now, idle_threshold),
            ) && final(self).idle(id) == old(self).idle(id).drop_last(),
            forall|other: usize|
                other != id ==> #[trigger] final(self).idle(other) == old(self).idle(other),
    {
        broadcast use vstd::std_specs::hash::group_hash_axioms;

        proof {
            use_type_invariant(&*self);
        }
        let idx: usize = Self::shard_idx(id);
        let ghost before = self.shards@;
        let taken = self.shards[idx].remove(&id);
        let mut r = None;
        if let Some(mut conns) = taken {
            let top = conns.pop();
            self.shards[idx].insert(id, conns);
            if let Some(t) = top {
                r = Some(judge(t, now, idle_threshold));
            }
        }
        proof {
            assert(forall|k: int|
                0 <= k < 32 && k != idx ==> #[trigger] self.shards@[k] == before[k]);
        }
        r
    }

    /// Puts a connection back for the upstream.
    pub fn checkin(&mut self, id: usize, conn: C, now: Instant)
        ensures
            final(self).idle(id) == old(self).idle(id).push((conn, now)),
            forall|other: usize|
                other != id ==> #[trigger] final(self).idle(other) == old(self).idle(other),
    {
        broadcast use vstd::std_specs::hash::group_hash_axioms;

        proof {
            use_type_invariant(&*self);
        }
        let idx: usize = Self::shard_idx(id);
        let ghost before = self.shards@;
        let mut conns = match self.shards[idx].remove(&id) {
            Some(v) => v,
            None => Vec::new(),
        };
        conns.push((conn, now));
        self.shards[idx].insert(id, conns);
        proof {
            assert(forall|k: int|
                0 <= k < 32 && k != idx ==> #[trigger] self.shards@[k] == before[k]);
        }
    }
}

/// The idle connections of one worker of the ring engine, by address.
pub struct UringConnectionPool<C> {
    conns: Vec<(SocketAddr, C, Instant)>,
}

/// The connections to one address, in order.
pub open spec fn to_addr<C>(s: Seq<(SocketAddr, C, Instant)>, addr: SocketAddr) -> Seq<(C, Instant)>
    decreases s.len(),
{
    if s.len() == 0 {
        Seq::empty()
    } else if s.last().0 == addr {
        to_addr(s.drop_last(), addr).push((s.last().1, s.last().2))
    } else {
        to_addr(s.drop_last(), addr)
    }
}

proof fn lemma_to_addr_append<C>(
    a: Seq<(SocketAddr, C, Instant)>,
    b: Seq<(SocketAddr, C, Instant)>,
    addr: SocketAddr,
)
    ensures
        to_addr(a + b, addr) == to_addr(a, addr) + to_addr(b, addr),
    decreases b.len(),
{
    if b.len() == 0 {
        assert(a + b =~= a);
        assert(to_addr(a, addr) + to_addr(b, addr) =~= to_addr(a, addr));
    } else {
        lemma_to_addr_append(a, b.drop_last(), addr);
        assert((a + b).drop_last() =~= a + b.drop_last());
        assert(to_addr(a, addr) + to_addr(b, addr) =~= if b.last().0 == addr {
            (to_addr(a, addr) + to_addr(b.drop_last(), addr)).push((b.last().1, b.last().2))
        } else {
            to_addr(a, addr) + to_addr(b.drop_last(), addr)
        });
    }
}

proof fn lemma_to_addr_none<C>(s: Seq<(SocketAddr, C, Instant)>, addr: SocketAddr)
    requires
        forall|k: int| 0 <= k < s.len() ==> (#[trigger] s[k]).0 != addr,
    ensures
        to_addr(s, addr) == Seq::<(C, Instant)>::empty(),
    decreases s.len(),
{
    if s.len() > 0 {
        lemma_to_addr_none(s.drop_last(), addr);
    }
}

proof fn lemma_to_addr_remove<C>(s: Seq<(SocketAddr, C, Instant)>, i: int)
    requires
        0 <= i < s.len(),
        forall|k: int| i < k < s.len() ==> (#[trigger] s[k]).0 != s[i].0,
    ensures
        to_addr(s, s[i].0) == to_addr(s.remove(i), s[i].0).push((s[i].1, s[i].2)),
        forall|other: SocketAddr|
            other != s[i].0 ==> #[trigger] to_addr(s.remove(i), other) == to_addr(s, other),
{
    let a = s.take(i);
    let m = seq![s[i]];
    let b = s.skip(i + 1);
    assert(s =~= (a + m) + b);
    assert(s.remove(i) =~= a + b);
    assert(m.drop_last() =~= Seq::<(SocketAddr, C, Instant)>::empty());
    assert forall|other: SocketAddr| other != s[i].0 implies #[trigger] to_addr(s.remove(i), other)
        == to_addr(s, other) by {
        lemma_to_addr_append(a + m, b, other);
        lemma_to_addr_append(a, m, other);
        lemma_to_addr_append(a, b, other);
        assert(to_addr(a, other) + Seq::<(C, Instant)>::empty() =~= to_addr(a, other));
        assert(to_addr(m, other) == to_addr(m.drop_last(), other));
    }
    let addr = s[i].0;
    lemma_to_addr_append(a + m, b, addr);
    lemma_to_addr_append(a, m, addr);
    lemma_to_addr_append(a, b, addr);
    lemma_to_addr_none(b, addr);
    assert(to_addr(m, addr) == to_addr(m.drop_last(), addr).push((s[i].1, s[i].2)));
    assert(to_addr(s, addr) =~= to_addr(s.remove(i), addr).push((s[i].1, s[i].2)));
}

impl<C> UringConnectionPool<C> {
    /// The idle connections to the address, the one returned last at the end.
    pub closed spec fn idle(&self, addr: SocketAddr) -> Seq<(C, Instant)> {
        to_addr(self.conns@, addr)
    }

    /// A pool without connections.
    pub fn new() -> (r: UringConnectionPool<C>)
        ensures
            forall|addr: SocketAddr| #[trigger] r.idle(addr) == Seq::<(C, Instant)>::empty(),
    {
        UringConnectionPool { conns: Vec::new() }
    }

    /// Takes the connection to the address that was returned last.
    pub fn checkout(&mut self, addr: SocketAddr, now: Instant, idle_threshold: Duration) -> (r:
        Option<Candidate<C>>)
        ensures
            old(self).idle(addr).len() == 0 ==> r is None && final(self).idle(addr).len() == 0,
            old(self).idle(addr).len() > 0 ==> r == Some(
                candidate_of(old(self).idle(addr).last(), now, idle_threshold),
            ) && final(self).idle(addr) == old(self).idle(addr).drop_last(),
            forall|other: SocketAddr|
                other != addr ==> #[trigger] final(self).idle(other) == old(self).idle(other),
    {
        let mut i: usize = self.conns.len();
        while i > 0
            invariant
                i <= self.conns.len(),
                *self == *old(self),
                forall|k: int| i <= k < self.conns@.len() ==> (#[trigger] self.conns@[k]).0 != addr,
            decreases i,
        {
            i = i - 1;
            if self.conns[i].0 == addr {
                proof {
                    lemma_to_addr_remove(self.conns@, i as int);
                }
                let (_, conn, since) = self.conns.remove(i);
                proof {
                    assert(old(self).idle(addr).drop_last() =~= self.idle(addr));
                }
                return Some(judge((conn, since), now, idle_threshold));
            }
        }
        proof {
            lemma_to_addr_none(self.conns@, addr);
        }
        None
    }

    /// Puts a connection back for the address.
    pub fn checkin(&mut self, addr: SocketAddr, conn: C, now: Instant)
        ensures
            final(self).idle(addr) == old(self).idle(addr).push((conn, now)),
            forall|other: SocketAddr|
                other != addr ==> #[trigger] final(self).idle(other) == old(self).idle(other),
    {
        let ghost before = self.conns@;
        self.conns.push((addr, conn, now));
        proof {
            assert(self.conns@.drop_last() =~= before);
        }
    }
}

/// Only a connection that was idle for less than the threshold is used without a probe.
pub proof fn long_idle_connections_are_probed<C>(top: (C, Instant), now: Instant, threshold: Duration)
    requires
        now.nanos >= top.1.nanos + threshold.nanos,
    ensures
        candidate_of(top, now, threshold) == Candidate::Probe(top.0),
{
}

/// A connection is alive just where there is nothing to read on it and it is not closed: a peek
/// that finds bytes, or the end, says that it is not.
pub proof fn only_quiet_connections_are_alive(received: i64, would_block: bool, r: bool)
    requires
        call_ensures(probe_verdict, (received, would_block), r),
    ensures
        received >= 0 ==> !r,
        received < 0 ==> r == would_block,
{
}

/// A connection that was idle for less than the threshold is used as it is.
pub proof fn short_idle_connections_are_used<C>(
    top: (C, Instant),
    now: Instant,
    threshold: Duration,
)
    requires
        now.nanos < top.1.nanos + threshold.nanos,
        threshold.nanos > 0,
    ensures
        candidate_of(top, now, threshold) == Candidate::Fresh(top.0),
{
}

/// Of the connections of one worker those to an address are kept apart from all others, in the
/// order in which they came back.
pub proof fn connections_are_kept_by_address<C>(
    s: Seq<(SocketAddr, C, Instant)>,
    addr: SocketAddr,
    other: SocketAddr,
    conn: C,
    now: Instant,
)
    requires
        other != addr,
    ensures
        to_addr(s.push((addr, conn, now)), addr) == to_addr(s, addr).push((conn, now)),
        to_addr(s.push((addr, conn, now)), other) == to_addr(s, other),
        to_addr(Seq::<(SocketAddr, C, Instant)>::empty(), addr).len() == 0,
{
    assert(s.push((addr, conn, now)).drop_last() =~= s);
}

/// The connection that came back last is used first, and only connections to the same upstream
/// are.
pub proof fn the_last_connection_back_is_used_first<C>(
    pool: &mut FastConnectionPool<C>,
    id: usize,
    now: Instant,
    threshold: Duration,
    r: Option<Candidate<C>>,
    other: usize,
)
    requires
        other != id,
        call_ensures(FastConnectionPool::<C>::checkout, (pool, id, now, threshold), r),
    ensures
        old(pool).idle(id).len() == 0 ==> r is None,
        old(pool).idle(id).len() > 0 ==> {
            &&& r matches Some(Candidate::Fresh(c)) ==> c == old(pool).idle(id).last().0
            &&& r matches Some(Candidate::Probe(c)) ==> c == old(pool).idle(id).last().0
            &&& r is Some
            &&& final(pool).idle(id) == old(pool).idle(id).drop_last()
        },
        final(pool).idle(other) == old(pool).idle(other),
{
}

/// A connection that comes back is there for its upstream, and for no other.
pub proof fn connections_come_back_to_their_upstream<C>(
    pool: &mut FastConnectionPool<C>,
    id: usize,
    conn: C,
    now: Instant,
    other: usize,
)
    requires
        other != id,
        call_ensures(FastConnectionPool::<C>::checkin, (pool, id, conn, now), ()),
    ensures
        final(pool).idle(id).len() == old(pool).idle(id).len() + 1,
        final(pool).idle(id).last() == (conn, now),
        final(pool).idle(id).drop_last() == old(pool).idle(id),
        final(pool).idle(other) == old(pool).idle(other),
{
    assert(final(pool).idle(id).drop_last() =~= old(pool).idle(id));
}

/// The same holds of the connections of a worker of the ring engine, by address.
pub proof fn ring_connections_are_used_last_in_first_out<C>(
    pool: &mut UringConnectionPool<C>,
    addr: SocketAddr,
    now: Instant,
    threshold: Duration,
    r: Option<Candidate<C>>,
    other: SocketAddr,
)
    requires
        other != addr,
        call_ensures(UringConnectionPool::<C>::checkout, (pool, addr, now, threshold), r),
    ensures
        old(pool).idle(addr).len() == 0 ==> r is None,
        old(pool).idle(addr).len() > 0 ==> {
            &&& r matches Some(Candidate::Fresh(c)) ==> c == old(pool).idle(addr).last().0
            &&& r matches Some(Candidate::Probe(c)) ==> c == old(pool).idle(addr).last().0
            &&& r is Some
            &&& final(pool).idle(addr) == old(pool).idle(addr).drop_last()
        },
        final(pool).idle(other) == old(pool).idle(other),
{
}

} // verus!
