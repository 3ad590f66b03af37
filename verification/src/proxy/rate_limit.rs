//! Token buckets per client address, in shards of bounded size.
//!
//! Token counts are kept as the bits of IEEE 754 singles, and compared as such.

use crate::addr::IpAddr;
use crate::time::Instant;
use vstd::prelude::*;

verus! {

/// How many shards the buckets are spread over.
pub const RATE_LIMIT_SHARDS: usize = 32;

/// A shard with more buckets than this is pruned before it is used.
pub const PRUNE_ABOVE: usize = 1024;

/// A shard that still holds more buckets than this after pruning is emptied.
pub const CLEAR_ABOVE: usize = 2048;

/// The bits of `1.0`.
pub const ONE_TOKEN_BITS: u32 = 0x3f80_0000;

/// What one client has left.
#[derive(Clone, Copy, Debug, PartialEq, Eq, Structural)]
pub struct TokenBucket {
    /// The tokens, as the bits of an IEEE 754 single.
    pub tokens_bits: u32,
    pub last_update: Instant,
}

/// The buckets of the addresses that hash to one shard, one for each address.
#[derive(Debug)]
pub struct Shard {
    buckets: Vec<(IpAddr, TokenBucket)>,
}

/// The buckets that `keep` marks, in order.
pub open spec fn kept(s: Seq<(IpAddr, TokenBucket)>, keep: Seq<bool>) -> Seq<(IpAddr, TokenBucket)>
    decreases s.len(),
{
    if s.len() == 0 {
        Seq::empty()
    } else {
        let rest = kept(s.drop_last(), keep);
        if keep[s.len() - 1] {
            rest.push(s.last())
        } else {
            rest
        }
    }
}

/// The buckets of a shard that was about to be used: pruned where there were too many, and
/// dropped where too many stayed.
pub open spec fn made_room(
    s: Seq<(IpAddr, TokenBucket)>,
    keep: Seq<bool>,
) -> Seq<(IpAddr, TokenBucket)> {
    if s.len() > PRUNE_ABOVE {
        if kept(s, keep).len() > CLEAR_ABOVE {
            Seq::empty()
        } else {
            kept(s, keep)
        }
    } else {
        s
    }
}

/// Whether no address has two buckets.
pub open spec fn distinct(s: Seq<(IpAddr, TokenBucket)>) -> bool {
    forall|i: int, j: int| 0 <= i < j < s.len() ==> (#[trigger] s[i]).0 != (#[trigger] s[j]).0
}

/// Whether the address has a bucket.
pub open spec fn knows(s: Seq<(IpAddr, TokenBucket)>, ip: IpAddr) -> bool {
    exists|i: int| 0 <= i < s.len() && (#[trigger] s[i]).0 == ip
}

/// The buckets with one for `ip`: a full one of now, where there was none.
pub open spec fn with_bucket(
    s: Seq<(IpAddr, TokenBucket)>,
    ip: IpAddr,
    full: TokenBucket,
) -> Seq<(IpAddr, TokenBucket)> {
    if knows(s, ip) {
        s
    } else {
        s.push((ip, full))
    }
}

/// Whether the bucket of `ip` became `b` and nothing else changed.
pub open spec fn stored_for(
    before: Seq<(IpAddr, TokenBucket)>,
    after: Seq<(IpAddr, TokenBucket)>,
    ip: IpAddr,
    b: TokenBucket,
) -> bool {
    exists|i: int|
        0 <= i < before.len() && (#[trigger] before[i]).0 == ip && after == before.update(i, (ip, b))
}

proof fn lemma_kept(s: Seq<(IpAddr, TokenBucket)>, keep: Seq<bool>)
    ensures
        kept(s, keep).len() <= s.len(),
        distinct(s) ==> distinct(kept(s, keep)),
        forall|i: int|
            0 <= i < kept(s, keep).len() ==> s.contains(#[trigger] kept(s, keep)[i]),
    decreases s.len(),
{
    if s.len() > 0 {
        let t = s.drop_last();
        let k = kept(s, keep);
        lemma_kept(t, keep);
        let kt = kept(t, keep);
        assert forall|i: int| 0 <= i < k.len() implies s.contains(#[trigger] k[i]) by {
            if i < kt.len() {
                assert(k[i] == kt[i]);
                assert(t.contains(kt[i]));
                let j = choose|j: int| 0 <= j < t.len() && t[j] == kt[i];
                assert(s[j] == k[i]);
            } else {
                assert(s[s.len() - 1] == k[i]);
            }
        }
        if distinct(s) {
            assert forall|i: int, j: int| 0 <= i < j < t.len() implies (#[trigger] t[i]).0 != (
            #[trigger] t[j]).0 by {
                assert(s[i].0 != s[j].0);
            }
            assert forall|i: int, j: int| 0 <= i < j < k.len() implies (#[trigger] k[i]).0 != (
            #[trigger] k[j]).0 by {
                if j < kt.len() {
                    assert(kt[i].0 != kt[j].0);
                } else {
                    assert(t.contains(kt[i]));
                    let a = choose|a: int| 0 <= a < t.len() && t[a] == kt[i];
                    assert(s[a].0 != s[s.len() - 1].0);
                }
            }
        }
    }
}

impl Clone for Shard {
    fn clone(&self) -> (r: Self)
        ensures
            r@ == self@,
    {
        proof {
            use_type_invariant(self);
        }
        let mut buckets: Vec<(IpAddr, TokenBucket)> = Vec::new();
        let mut i: usize = 0;
        while i < self.buckets.len()
            invariant
                i <= self.buckets.len(),
                buckets@ == self.buckets@.take(i as int),
            decreases self.buckets.len() - i,
        {
            buckets.push(self.buckets[i]);
            i = i + 1;
            proof {
                assert(self.buckets@.take(i as int) =~= self.buckets@.take(i - 1).push(
                    self.buckets@[i - 1],
                ));
            }
        }
        proof {
            assert(self.buckets@.take(i as int) =~= self.buckets@);
        }
        Shard { buckets }
    }
}

impl Shard {
    /// The buckets, in the order in which they came.
    pub closed spec fn view(&self) -> Seq<(IpAddr, TokenBucket)> {
        self.buckets@
    }

    #[verifier::type_invariant]
    spec fn one_each(&self) -> bool {
        distinct(self.buckets@)
    }

    /// A shard without buckets.
    pub fn new() -> (r: Shard)
        ensures
            r@.len() == 0,
    {
        Shard { buckets: Vec::new() }
    }

    /// How many addresses have a bucket; none has two.
    pub fn len(&self) -> (n: usize)
        ensures
            n == self@.len(),
            distinct(self@),
    {
        proof {
            use_type_invariant(self);
        }
        self.buckets.len()
    }

    /// When the bucket at position `i` was last used.
    pub fn last_update(&self, i: usize) -> (r: Instant)
        requires
            i < self@.len(),
        ensures
            r == self@[i as int].1.last_update,
    {
        self.buckets[i].1.last_update
    }

    /// Makes room in a shard with too many buckets: drops those that `keep` does not mark,
    /// and all of them where too many are marked.
    pub fn make_room(&mut self, keep: &Vec<bool>)
        requires
            keep.len() == old(self)@.len(),
        ensures
            final(self)@ == made_room(old(self)@, keep@),
    {
        proof {
            use_type_invariant(&*self);
        }
        if self.buckets.len() <= PRUNE_ABOVE {
            return;
        }
        let ghost s = self@;
        let mut out: Vec<(IpAddr, TokenBucket)> = Vec::new();
        let mut i: usize = 0;
        while i < self.buckets.len()
            invariant
                i <= self.buckets.len(),
                self@ == s,
                s.len() == keep.len(),
                s.len() == self.buckets.len(),
                out@ == kept(s.take(i as int), keep@),
            decreases self.buckets.len() - i,
        {
            proof {
                assert(s.take(i + 1).drop_last() =~= s.take(i as int));
                assert(s.take(i + 1).last() == s[i as int]);
            }
            if keep[i] {
                out.push(self.buckets[i]);
            }
            i = i + 1;
        }
        proof {
            assert(s.take(i as int) =~= s);
            lemma_kept(s, keep@);
        }
        if out.len() > CLEAR_ABOVE {
            self.buckets = Vec::new();
        } else {
            self.buckets = out;
        }
        proof {
            assert(self@ =~= made_room(s, keep@));
        }
    }

    fn position(&self, ip: IpAddr) -> (r: Option<usize>)
        ensures
            r.is_some() <==> knows(self@, ip),
            r matches Some(i) ==> i < self@.len() && self@[i as int].0 == ip,
    {
        let mut i: usize = 0;
        while i < self.buckets.len()
            invariant
                i <= self.buckets.len(),
                forall|j: int| 0 <= j < i ==> (#[trigger] self@[j]).0 != ip,
            decreases self.buckets.len() - i,
        {
            if self.buckets[i].0 == ip {
                return Some(i);
            }
            i = i + 1;
        }
        None
    }

    /// The bucket of `ip`: the one it has, or a new one of now that holds `capacity_bits`.
    pub fn bucket(&mut self, ip: IpAddr, capacity_bits: u32, now: Instant) -> (r: TokenBucket)
        ensures
            final(self)@ == with_bucket(
                old(self)@,
                ip,
                (TokenBucket { tokens_bits: capacity_bits, last_update: now }),
            ),
            final(self)@.contains((ip, r)),
    {
        proof {
            use_type_invariant(&*self);
        }
        match self.position(ip) {
            Some(i) => {
                let r = self.buckets[i].1;
                proof {
                    assert(self@[i as int] == (ip, r));
                }
                r
            },
            None => {
                let full = TokenBucket { tokens_bits: capacity_bits, last_update: now };
                let mut buckets: Vec<(IpAddr, TokenBucket)> = Vec::new();
                std::mem::swap(&mut buckets, &mut self.buckets);
                buckets.push((ip, full));
                self.buckets = buckets;
                proof {
                    assert(self@.last() == (ip, full));
                }
                full
            },
        }
    }

    /// Stores what `ip` has left, as of now.
    pub fn store(&mut self, ip: IpAddr, tokens_bits: u32, now: Instant)
        requires
            knows(old(self)@, ip),
        ensures
            stored_for(
                old(self)@,
                final(self)@,
                ip,
                (TokenBucket { tokens_bits, last_update: now }),
            ),
    {
        proof {
            use_type_invariant(&*self);
        }
        if let Some(i) = self.position(ip) {
            let mut buckets: Vec<(IpAddr, TokenBucket)> = Vec::new();
            std::mem::swap(&mut buckets, &mut self.buckets);
            buckets[i] = (ip, TokenBucket { tokens_bits, last_update: now });
            self.buckets = buckets;
            proof {
                assert(old(self)@[i as int].0 == ip);
            }
        }
    }
}

/// The bit that is set in negative singles.
pub const SIGN_BIT: u32 = 0x8000_0000;

/// The bits of positive infinity. Those above it, whatever the sign, are of no number.
pub const INFINITY_BITS: u32 = 0x7f80_0000;

/// Where a single stands among all: singles that are numbers are ordered as their ranks, and
/// the two zeros have the same.
pub open spec fn rank_of(bits: u32) -> int {
    if bits >= SIGN_BIT {
        SIGN_BIT - bits
    } else {
        bits as int
    }
}

/// Whether the bits are those of a number.
pub open spec fn is_number(bits: u32) -> bool {
    -INFINITY_BITS <= rank_of(bits) <= INFINITY_BITS
}

/// Whether one single is at least another. One that is no number is not.
pub open spec fn at_least(a: u32, b: u32) -> bool {
    is_number(a) && is_number(b) && rank_of(a) >= rank_of(b)
}

/// Whether one single is above another. One that is no number is not.
pub open spec fn above(a: u32, b: u32) -> bool {
    is_number(a) && is_number(b) && rank_of(a) > rank_of(b)
}

fn rank(bits: u32) -> (r: i64)
    ensures
        r == rank_of(bits),
{
    if bits >= SIGN_BIT {
        0x8000_0000i64 - bits as i64
    } else {
        bits as i64
    }
}

fn number(bits: u32) -> (r: bool)
    ensures
        r == is_number(bits),
{
    let at: i64 = rank(bits);
    -0x7f80_0000i64 <= at && at <= 0x7f80_0000i64
}

/// What a refilled bucket holds: no more than its capacity.
pub fn capped(refilled_bits: u32, capacity_bits: u32) -> (r: u32)
    ensures
        r == if above(refilled_bits, capacity_bits) {
            capacity_bits
        } else {
            refilled_bits
        },
{
    if number(refilled_bits) && number(capacity_bits) && rank(refilled_bits) > rank(
        capacity_bits,
    ) {
        capacity_bits
    } else {
        refilled_bits
    }
}

/// Whether a bucket holds a whole token, so that a request may pass.
pub fn grants(tokens_bits: u32) -> (r: bool)
    ensures
        r == at_least(tokens_bits, ONE_TOKEN_BITS),
{
    number(tokens_bits) && rank(tokens_bits) >= rank(ONE_TOKEN_BITS)
}

/// A number of tokens, and the same number less one, as the bits of IEEE 754 singles.
#[derive(Clone, Copy, Debug, PartialEq, Eq, Structural)]
pub struct Level {
    pub bits: u32,
    pub less_one_bits: u32,
}

/// What a bucket holds when a request comes: what it has filled up to, and no more than its
/// capacity.
pub open spec fn level_of(known: bool, capacity: Level, held: Level, fresh: Level) -> Level {
    let level = if known {
        held
    } else {
        fresh
    };
    if above(level.bits, capacity.bits) {
        capacity
    } else {
        level
    }
}

/// A rate limit with its buckets.
#[derive(Clone, Debug)]
pub struct RateLimiter {
    pub capacity: u32,
    /// Tokens per second, as the bits of an IEEE 754 single.
    pub fill_rate_bits: u32,
    pub shards: Vec<Shard>,
}

impl RateLimiter {
    /// A limiter that has seen no client.
    pub fn new(capacity: u32, fill_rate_bits: u32) -> (r: RateLimiter)
        ensures
            r.capacity == capacity,
            r.fill_rate_bits == fill_rate_bits,
            r.wf(),
            forall|i: int| 0 <= i < RATE_LIMIT_SHARDS ==> (#[trigger] r.shards@[i])@.len() == 0,
    {
        let mut shards: Vec<Shard> = Vec::new();
        let mut i: usize = 0;
        while i < RATE_LIMIT_SHARDS
            invariant
                i <= RATE_LIMIT_SHARDS,
                shards.len() == i,
                forall|j: int| 0 <= j < i ==> (#[trigger] shards@[j])@.len() == 0,
            decreases RATE_LIMIT_SHARDS - i,
        {
            shards.push(Shard::new());
            i = i + 1;
        }
        RateLimiter { capacity, fill_rate_bits, shards }
    }

    /// Every shard is there.
    pub open spec fn wf(&self) -> bool {
        self.shards@.len() == RATE_LIMIT_SHARDS
    }

    /// The bucket of `ip`, whose hash is given, where it has one.
    pub fn bucket_of(&self, ip: IpAddr, hash: u64) -> (r: Option<TokenBucket>)
        requires
            self.wf(),
        ensures
            r.is_some() <==> knows(self.shards@[hash as int % 32]@, ip),
            r matches Some(b) ==> self.shards@[hash as int % 32]@.contains((ip, b)),
    {
        let shard = &self.shards[Self::shard_idx(hash)];
        match shard.position(ip) {
            Some(i) => {
                proof {
                    assert(shard@[i as int] == (ip, shard@[i as int].1));
                }
                Some(shard.buckets[i].1)
            },
            None => None,
        }
    }

    /// Whether a request of `ip` may pass, which takes a token from its bucket.
    ///
    /// Room is made in the shard first: `keep` marks the buckets that have not had time to fill
    /// up again. `held` is what the bucket of `ip` has filled up to by now where it has one, and
    /// `fresh` what a new one has; neither counts for more than `capacity`.
    pub fn acquire(
        &mut self,
        ip: IpAddr,
        hash: u64,
        now: Instant,
        keep: &Vec<bool>,
        capacity: Level,
        held: Level,
        fresh: Level,
    ) -> (granted: bool)
        requires
            old(self).wf(),
            keep.len() == old(self).shards@[hash as int % 32]@.len(),
        ensures
            final(self).wf(),
            final(self).capacity == old(self).capacity,
            final(self).fill_rate_bits == old(self).fill_rate_bits,
            forall|k: int|
                0 <= k < RATE_LIMIT_SHARDS && k != hash as int % 32 ==> (
                #[trigger] final(self).shards@[k]) == old(self).shards@[k],
            ({
                let room = made_room(old(self).shards@[hash as int % 32]@, keep@);
                let level = level_of(knows(room, ip), capacity, held, fresh);
                &&& granted == at_least(level.bits, ONE_TOKEN_BITS)
                &&& stored_for(
                    with_bucket(
                        room,
                        ip,
                        (TokenBucket { tokens_bits: capacity.bits, last_update: now }),
                    ),
                    final(self).shards@[hash as int % 32]@,
                    ip,
                    (TokenBucket {
                        tokens_bits: if granted {
                            level.less_one_bits
                        } else {
                            level.bits
                        },
                        last_update: now,
                    }),
                )
            }),
    {
        let shard: usize = Self::shard_idx(hash);
        self.shards[shard].make_room(keep);
        let mut level = match self.shards[shard].position(ip) {
            Some(_) => held,
            None => fresh,
        };
        let _bucket = self.shards[shard].bucket(ip, capacity.bits, now);
        proof {
            let s = self.shards@[shard as int]@;
            let i = choose|i: int| 0 <= i < s.len() && s[i] == (ip, _bucket);
            assert(s[i].0 == ip);
        }
        if capped(level.bits, capacity.bits) != level.bits {
            level = capacity;
        }
        let granted = grants(level.bits);
        let left: u32 = if granted {
            level.less_one_bits
        } else {
            level.bits
        };
        self.shards[shard].store(ip, left, now);
        granted
    }

    /// The shard of an address with the given hash.
    pub fn shard_idx(hash: u64) -> (r: usize)
        ensures
            r == hash % 32,
            r < RATE_LIMIT_SHARDS,
    {
        (hash % 32) as usize
    }
}

/// What a bucket holds once it was capped is never above its capacity; less than nothing, and
/// what is no number, lets no request pass.
pub proof fn debts_grant_nothing(tokens_bits: u32, capacity_bits: u32)
    requires
        is_number(capacity_bits),
    ensures
        !above(
            if above(tokens_bits, capacity_bits) {
                capacity_bits
            } else {
                tokens_bits
            },
            capacity_bits,
        ),
        tokens_bits >= SIGN_BIT ==> !at_least(tokens_bits, ONE_TOKEN_BITS),
        !is_number(tokens_bits) ==> !at_least(tokens_bits, ONE_TOKEN_BITS),
{
}

/// However many addresses ask, a shard never holds more than one bucket beyond the limit at
/// which it is emptied.
pub proof fn shard_stays_bounded(
    s: Seq<(IpAddr, TokenBucket)>,
    keep: Seq<bool>,
    ip: IpAddr,
    full: TokenBucket,
)
    requires
        keep.len() == s.len(),
    ensures
        with_bucket(made_room(s, keep), ip, full).len() <= CLEAR_ABOVE + 1,
        s.len() <= PRUNE_ABOVE ==> with_bucket(made_room(s, keep), ip, full).len() <= PRUNE_ABOVE
            + 1,
        distinct(s) ==> distinct(with_bucket(made_room(s, keep), ip, full)),
{
    lemma_kept(s, keep);
}

/// A shard of up to 1024 buckets is let be; a larger one keeps those that are marked, and none
/// where more than 2048 are.
pub proof fn shards_are_pruned_above_1024(s: Seq<(IpAddr, TokenBucket)>, keep: Seq<bool>)
    ensures
        s.len() <= 1024 ==> made_room(s, keep) == s,
        s.len() > 1024 && kept(s, keep).len() <= 2048 ==> made_room(s, keep) == kept(s, keep),
        s.len() > 1024 && kept(s, keep).len() > 2048 ==> made_room(s, keep).len() == 0,
{
}

/// The buckets that are kept are those that are marked, in order.
pub proof fn marked_buckets_are_kept(
    s: Seq<(IpAddr, TokenBucket)>,
    keep: Seq<bool>,
    b: (IpAddr, TokenBucket),
    marked: bool,
)
    requires
        keep.len() == s.len(),
    ensures
        kept(s.push(b), keep.push(marked)) == if marked {
            kept(s, keep).push(b)
        } else {
            kept(s, keep)
        },
        kept(Seq::empty(), Seq::empty()).len() == 0,
{
    assert(s.push(b).drop_last() =~= s);
    lemma_kept_prefix(s, keep, keep.push(marked));
}

proof fn lemma_kept_prefix(s: Seq<(IpAddr, TokenBucket)>, a: Seq<bool>, b: Seq<bool>)
    requires
        s.len() <= a.len(),
        s.len() <= b.len(),
        forall|i: int| 0 <= i < s.len() ==> a[i] == b[i],
    ensures
        kept(s, a) == kept(s, b),
    decreases s.len(),
{
    if s.len() > 0 {
        lemma_kept_prefix(s.drop_last(), a, b);
    }
}

/// A request passes with the bits of `1.0` and those of every greater number, and with no
/// others.
pub proof fn a_whole_token_lets_a_request_pass(bits: u32)
    ensures
        at_least(bits, ONE_TOKEN_BITS) <==> 0x3f80_0000 <= bits <= 0x7f80_0000,
{
}

/// A bucket holds what it filled up to, a new one what a new one holds, and neither more than
/// the capacity.
pub proof fn buckets_hold_no_more_than_their_capacity(
    known: bool,
    capacity: Level,
    held: Level,
    fresh: Level,
)
    requires
        is_number(capacity.bits),
    ensures
        !above(level_of(known, capacity, held, fresh).bits, capacity.bits),
        !above(held.bits, capacity.bits) ==> level_of(true, capacity, held, fresh) == held,
        !above(fresh.bits, capacity.bits) ==> level_of(false, capacity, held, fresh) == fresh,
        above(held.bits, capacity.bits) ==> level_of(true, capacity, held, fresh) == capacity,
{
}

/// An address gets a bucket of its own where it has none, full and as of now; one that has a
/// bucket keeps it.
pub proof fn addresses_get_one_bucket(
    s: Seq<(IpAddr, TokenBucket)>,
    ip: IpAddr,
    full: TokenBucket,
    i: int,
)
    ensures
        0 <= i < s.len() && s[i].0 == ip ==> with_bucket(s, ip, full) == s,
        (forall|k: int| 0 <= k < s.len() ==> (#[trigger] s[k]).0 != ip) ==> with_bucket(s, ip, full)
            == s.push((ip, full)),
{
    if 0 <= i < s.len() && s[i].0 == ip {
        assert(knows(s, ip));
    }
}

/// A request takes one token where it passes, and none where it does not; the bucket is as of
/// now either way, and no other shard changes.
pub proof fn requests_take_one_token(
    l: &mut RateLimiter,
    ip: IpAddr,
    hash: u64,
    now: Instant,
    keep: &Vec<bool>,
    capacity: Level,
    held: Level,
    fresh: Level,
    granted: bool,
    k: int,
)
    requires
        old(l).wf(),
        keep.len() == old(l).shards@[hash as int % 32]@.len(),
        call_ensures(
            RateLimiter::acquire,
            (l, ip, hash, now, keep, capacity, held, fresh),
            granted,
        ),
        0 <= k < 32,
        k != hash as int % 32,
        is_number(capacity.bits),
        !above(held.bits, capacity.bits),
        !above(fresh.bits, capacity.bits),
    ensures
        final(l).shards@[k] == old(l).shards@[k],
        old(l).shards@[hash as int % 32]@.len() <= 1024 && knows(
            old(l).shards@[hash as int % 32]@,
            ip,
        ) ==> granted == (0x3f80_0000 <= held.bits <= 0x7f80_0000) && final(l).shards@[hash as int % 32]@.contains(
            (
                ip,
                TokenBucket {
                    tokens_bits: if granted {
                        held.less_one_bits
                    } else {
                        held.bits
                    },
                    last_update: now,
                },
            ),
        ),
        old(l).shards@[hash as int % 32]@.len() <= 1024 && !knows(
            old(l).shards@[hash as int % 32]@,
            ip,
        ) ==> granted == (0x3f80_0000 <= fresh.bits <= 0x7f80_0000) && final(l).shards@[hash as int % 32]@.contains(
            (
                ip,
                TokenBucket {
                    tokens_bits: if granted {
                        fresh.less_one_bits
                    } else {
                        fresh.bits
                    },
                    last_update: now,
                },
            ),
        ),
        final(l).capacity == old(l).capacity,
        final(l).fill_rate_bits == old(l).fill_rate_bits,
{
    let s = hash as int % 32;
    let before = old(l).shards@[s]@;
    let room = made_room(before, keep@);
    let level = level_of(knows(room, ip), capacity, held, fresh);
    let full = TokenBucket { tokens_bits: capacity.bits, last_update: now };
    let b = TokenBucket {
        tokens_bits: if granted {
            level.less_one_bits
        } else {
            level.bits
        },
        last_update: now,
    };
    let all = with_bucket(room, ip, full);
    let after = final(l).shards@[s]@;
    assert(stored_for(all, after, ip, b));
    let i = choose|i: int|
        0 <= i < all.len() && (#[trigger] all[i]).0 == ip && after == all.update(i, (ip, b));
    assert(after[i] == (ip, b));
    a_whole_token_lets_a_request_pass(level.bits);
}

/// A limiter that has seen no client has its 32 shards empty, and an address goes to the shard
/// that its hash leaves over 32.
pub proof fn limiters_begin_empty(
    capacity: u32,
    rate: u32,
    l: RateLimiter,
    k: int,
    hash: u64,
    shard: usize,
)
    requires
        call_ensures(RateLimiter::new, (capacity, rate), l),
        call_ensures(RateLimiter::shard_idx, (hash,), shard),
        0 <= k < 32,
    ensures
        l.shards@.len() == 32,
        l.shards@[k]@.len() == 0,
        l.capacity == capacity,
        l.fill_rate_bits == rate,
        shard == hash % 32,
{
}

/// What is kept for an address is found again where its hash leads, and nothing is found for one
/// that was never seen.
pub proof fn buckets_are_found_again(
    l: RateLimiter,
    ip: IpAddr,
    hash: u64,
    r: Option<TokenBucket>,
    i: int,
)
    requires
        l.wf(),
        call_ensures(RateLimiter::bucket_of, (&l, ip, hash), r),
        0 <= i < l.shards@[hash as int % 32]@.len(),
    ensures
        r matches Some(b) ==> l.shards@[hash as int % 32]@.contains((ip, b)),
        r is None ==> l.shards@[hash as int % 32]@[i].0 != ip,
{
}

} // verus!
