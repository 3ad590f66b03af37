//! Upstreams and pools at run time: health, identity, target paths and weighted choice.

use crate::addr::SocketAddr;
use crate::config::types::{UpstreamConfig, UpstreamPoolConfig};
use crate::text::{
    cat, cat3, has_prefix, starts_with, trim_end_char, trim_start_char, without_leading,
    without_trailing,
};
use crate::uri::{parse_uri, parsed_uri, UriParts};
use vstd::prelude::*;
use vstd::string::*;

verus! {

/// The source of upstream ids.
#[derive(Debug)]
pub struct UpstreamIds {
    pub next: usize,
}

/// `base + offset` in the arithmetic of `usize`, which wraps.
pub open spec fn wrapped(base: usize, offset: int) -> usize {
    ((base + offset) % (usize::MAX + 1)) as usize
}

/// Steps add up under wrapping.
pub proof fn lemma_wrapped(base: usize, k: int)
    requires
        k >= 0,
    ensures
        wrapped(base, 0) == base,
        wrapped(wrapped(base, k), 1) == wrapped(base, k + 1),
        base + k <= usize::MAX ==> wrapped(base, k) == base + k,
        base + k == usize::MAX + 1 ==> wrapped(base, k) == 0,
{
    let m = usize::MAX + 1;
    vstd::arithmetic::div_mod::lemma_small_mod(base as nat, m as nat);
    vstd::arithmetic::div_mod::lemma_mod_bound(base + k, m);
    vstd::arithmetic::div_mod::lemma_add_mod_noop(base + k, 1, m);
    vstd::arithmetic::div_mod::lemma_small_mod(1, m as nat);
    vstd::arithmetic::div_mod::lemma_mod_self_0(m);
    if base + k <= usize::MAX {
        vstd::arithmetic::div_mod::lemma_small_mod((base + k) as nat, m as nat);
    }
}

impl UpstreamIds {
    /// Ids from zero on.
    pub fn new() -> (r: UpstreamIds)
        ensures
            r.next == 0,
    {
        UpstreamIds { next: 0 }
    }

    /// The next id.
    pub fn take(&mut self) -> (id: usize)
        ensures
            id == old(self).next,
            final(self).next == wrapped(old(self).next, 1),
    {
        proof {
            lemma_wrapped(self.next, 0);
            lemma_wrapped(self.next, 1);
        }
        let id: usize = self.next;
        self.next = self.next.wrapping_add(1);
        id
    }
}

/// The part of an upstream's URL that every request to it shares.
#[derive(Clone, Debug)]
pub struct UpstreamUriBase {
    pub scheme: String,
    pub authority: String,
    pub base_path: String,
}

/// Whether a URL was readable and names an authority.
pub open spec fn usable(uri: Option<(Option<Seq<char>>, Option<Seq<char>>, Seq<char>, Option<Seq<char>>, Option<u16>, Seq<char>)>) -> bool {
    uri matches Some((_, authority, _, _, _, _)) && authority.is_some()
}

impl UpstreamUriBase {
    /// The base that a URL with these parts stands for.
    pub open spec fn stands_for(
        &self,
        uri: Option<(Option<Seq<char>>, Option<Seq<char>>, Seq<char>, Option<Seq<char>>, Option<u16>, Seq<char>)>,
    ) -> bool {
        uri matches Some((scheme, authority, path, _, _, _)) && {
            &&& self.scheme@ == (match scheme {
                Some(s) => s,
                None => "http"@,
            })
            &&& authority == Some(self.authority@)
            &&& self.base_path@ == without_trailing(path, '/')
        }
    }

    /// The base of a URL with these parts, where they name an authority.
    pub fn of_parts(parts: UriParts) -> (r: Option<UpstreamUriBase>)
        ensures
            r.is_some() <==> parts.authority is Some,
            r matches Some(b) ==> b.stands_for(Some(parts.model())),
    {
        let scheme = match parts.scheme {
            Some(s) => s,
            None => "http".to_owned(),
        };
        match parts.authority {
            Some(authority) => {
                let base_path = trim_end_char(parts.path.as_str(), '/').to_owned();
                Some(UpstreamUriBase { scheme, authority, base_path })
            },
            None => None,
        }
    }

    /// The base of `url`, where it is readable and names an authority.
    pub fn parse(url: &str) -> (r: Option<UpstreamUriBase>)
        ensures
            r.is_some() <==> usable(parsed_uri(url@)),
            r matches Some(b) ==> b.stands_for(parsed_uri(url@)),
    {
        match parse_uri(url) {
            Some(parts) => UpstreamUriBase::of_parts(parts),
            None => None,
        }
    }

    /// The text of the URI for a request.
    pub open spec fn target(&self, path_and_query: Seq<char>) -> Seq<char> {
        self.scheme@ + "://"@ + self.authority@ + upstream_path(self.base_path@, path_and_query)
    }

    /// The text of the URI for a request.
    pub fn uri_text(&self, path_and_query: &str) -> (s: String)
        ensures
            s@ == self.target(path_and_query@),
    {
        let path = path_for_upstream(self.base_path.as_str(), path_and_query);
        let mut s = cat3(self.scheme.as_str(), "://", self.authority.as_str());
        s.append(path.as_str());
        s
    }
}

/// The path sent to an upstream whose URL has the path `base`.
pub open spec fn upstream_path(base: Seq<char>, path_and_query: Seq<char>) -> Seq<char> {
    let rest = without_leading(path_and_query, '/');
    if base.len() == 0 {
        if has_prefix(path_and_query, "/"@) {
            path_and_query
        } else {
            "/"@ + rest
        }
    } else if rest.len() == 0 {
        base
    } else {
        base + "/"@ + rest
    }
}

/// The path sent to an upstream whose URL has the path `base_path`.
pub fn path_for_upstream(base_path: &str, path_and_query: &str) -> (r: String)
    ensures
        r@ == upstream_path(base_path@, path_and_query@),
{
    if base_path.is_empty() && starts_with(path_and_query, "/") {
        return path_and_query.to_owned();
    }
    let request_path = trim_start_char(path_and_query, '/');
    if base_path.is_empty() {
        cat("/", request_path)
    } else if request_path.is_empty() {
        base_path.to_owned()
    } else {
        cat3(base_path, "/", request_path)
    }
}

/// An upstream with its health.
#[derive(Clone, Debug)]
pub struct UpstreamState {
    pub config: UpstreamConfig,
    pub uri_base: UpstreamUriBase,
    pub id: usize,
    pub connect_addr: Option<SocketAddr>,
    pub passive_failures: usize,
    pub active_healthy: bool,
}

impl UpstreamState {
    /// A healthy upstream that has not failed, under the given id.
    pub open spec fn fresh(&self, config: UpstreamConfig, id: usize) -> bool {
        &&& self.config == config
        &&& self.uri_base.stands_for(parsed_uri(config.url@))
        &&& self.id == id
        &&& self.connect_addr is None
        &&& self.passive_failures == 0
        &&& self.active_healthy
    }

    /// A healthy upstream at a readable URL.
    pub fn new(config: UpstreamConfig, id: usize) -> (r: Option<UpstreamState>)
        ensures
            r.is_some() <==> usable(parsed_uri(config.url@)),
            r matches Some(u) ==> u.fresh(config, id),
    {
        match UpstreamUriBase::parse(config.url.as_str()) {
            Some(uri_base) => Some(
                UpstreamState {
                    config,
                    uri_base,
                    id,
                    connect_addr: None,
                    passive_failures: 0,
                    active_healthy: true,
                },
            ),
            None => None,
        }
    }

    /// The id given at construction.
    pub fn id(&self) -> (r: usize)
        ensures
            r == self.id,
    {
        self.id
    }

    /// The URI of a request to this upstream, where its text is readable.
    pub fn build_uri(&self, path_and_query: &str) -> (r: Option<UriParts>)
        ensures
            r.is_some() <==> parsed_uri(self.uri_base.target(path_and_query@)).is_some(),
            r matches Some(u) ==> parsed_uri(self.uri_base.target(path_and_query@)) == Some(
                u.model(),
            ),
    {
        let text = self.uri_base.uri_text(path_and_query);
        parse_uri(text.as_str())
    }

    /// The path of a request to this upstream.
    pub fn upstream_path_and_query(&self, path_and_query: &str) -> (r: String)
        ensures
            r@ == upstream_path(self.uri_base.base_path@, path_and_query@),
    {
        path_for_upstream(self.uri_base.base_path.as_str(), path_and_query)
    }

    /// The value of the host header: the authority.
    pub fn host_header(&self) -> (r: &str)
        ensures
            r@ == self.uri_base.authority@,
    {
        self.uri_base.authority.as_str()
    }

    /// The authority of the upstream's URL.
    pub fn authority(&self) -> (r: &str)
        ensures
            r@ == self.uri_base.authority@,
    {
        self.uri_base.authority.as_str()
    }

    /// The address to connect to: the one found earlier, or else `resolved`, which is kept.
    pub fn connect_addr(&mut self, resolved: SocketAddr) -> (r: SocketAddr)
        ensures
            r == match old(self).connect_addr {
                Some(known) => known,
                None => resolved,
            },
            *final(self) == (UpstreamState { connect_addr: Some(r), ..*old(self) }),
    {
        match self.connect_addr {
            Some(known) => known,
            None => {
                self.connect_addr = Some(resolved);
                resolved
            },
        }
    }

    /// A request succeeded: earlier failures are forgotten.
    pub fn mark_success(&mut self)
        ensures
            *final(self) == (UpstreamState { passive_failures: 0, ..*old(self) }),
    {
        if self.passive_failures != 0 {
            self.passive_failures = 0;
        }
    }

    /// A request failed.
    pub fn mark_failure(&mut self)
        ensures
            *final(self) == (UpstreamState {
                passive_failures: wrapped(old(self).passive_failures, 1),
                ..*old(self)
            }),
    {
        proof {
            lemma_wrapped(self.passive_failures, 1);
        }
        self.passive_failures = self.passive_failures.wrapping_add(1);
    }

    /// How many requests failed since the last success.
    pub fn passive_failures(&self) -> (r: usize)
        ensures
            r == self.passive_failures,
    {
        self.passive_failures
    }

    /// Notes the outcome of an active health check.
    pub fn set_active_healthy(&mut self, healthy: bool)
        ensures
            *final(self) == (UpstreamState { active_healthy: healthy, ..*old(self) }),
    {
        self.active_healthy = healthy;
    }

    /// Whether the last active health check passed.
    pub fn is_active_healthy(&self) -> (r: bool)
        ensures
            r == self.active_healthy,
    {
        self.active_healthy
    }

    /// Whether requests may go here: healthy, and fewer failures in a row than `threshold`.
    pub open spec fn available(&self, threshold: u32) -> bool {
        self.active_healthy && self.passive_failures < threshold
    }

    /// Whether requests may go here: healthy, and fewer failures in a row than `threshold`.
    pub fn is_available(&self, threshold: u32) -> (r: bool)
        ensures
            r == self.available(threshold),
    {
        self.active_healthy && self.passive_failures < threshold as usize
    }
}

/// Upstreams that share requests in proportion to their weights.
#[derive(Clone, Debug)]
pub struct UpstreamPool {
    pub upstreams: Vec<UpstreamState>,
    /// Positions in `upstreams`, each as often as its weight says.
    pub expanded: Vec<usize>,
    pub cursor: usize,
    pub passive_failure_threshold: u32,
}

/// Position `idx` repeated `weight` times.
pub open spec fn repeated(idx: usize, weight: nat) -> Seq<usize> {
    Seq::new(weight, |k: int| idx)
}

/// The positions of the upstreams, each as often as its weight says.
pub open spec fn expansion(us: Seq<UpstreamState>) -> Seq<usize>
    decreases us.len(),
{
    if us.len() == 0 {
        Seq::empty()
    } else {
        expansion(us.drop_last()) + repeated((us.len() - 1) as usize, us.last().config.weight as nat)
    }
}

/// How often `x` occurs.
pub open spec fn occurrences(s: Seq<usize>, x: usize) -> nat
    decreases s.len(),
{
    if s.len() == 0 {
        0
    } else {
        occurrences(s.drop_last(), x) + if s.last() == x {
            1nat
        } else {
            0
        }
    }
}

proof fn lemma_occurrences_append(a: Seq<usize>, b: Seq<usize>, x: usize)
    ensures
        occurrences(a + b, x) == occurrences(a, x) + occurrences(b, x),
    decreases b.len(),
{
    if b.len() == 0 {
        assert(a + b =~= a);
    } else {
        assert((a + b).drop_last() =~= a + b.drop_last());
        lemma_occurrences_append(a, b.drop_last(), x);
    }
}

proof fn lemma_occurrences_repeated(idx: usize, weight: nat, x: usize)
    ensures
        occurrences(repeated(idx, weight), x) == if x == idx {
            weight
        } else {
            0
        },
    decreases weight,
{
    if weight > 0 {
        let w = (weight - 1) as nat;
        assert(repeated(idx, weight).drop_last() =~= repeated(idx, w));
        lemma_occurrences_repeated(idx, w, x);
    }
}

/// Each upstream takes as many places in the rotation as its weight says.
pub proof fn rotation_follows_weights(us: Seq<UpstreamState>, i: int)
    requires
        0 <= i < us.len() <= usize::MAX,
    ensures
        occurrences(expansion(us), i as usize) == us[i].config.weight,
    decreases us.len(),
{
    let t = us.drop_last();
    let last = (us.len() - 1) as usize;
    let w = us.last().config.weight as nat;
    lemma_occurrences_append(expansion(t), repeated(last, w), i as usize);
    lemma_occurrences_repeated(last, w, i as usize);
    if i < t.len() {
        rotation_follows_weights(t, i);
    } else {
        lemma_expansion_range(t);
        lemma_occurrences_absent(expansion(t), i as usize);
    }
}

proof fn lemma_occurrences_absent(s: Seq<usize>, x: usize)
    requires
        forall|k: int| 0 <= k < s.len() ==> s[k] != x,
    ensures
        occurrences(s, x) == 0,
    decreases s.len(),
{
    if s.len() > 0 {
        lemma_occurrences_absent(s.drop_last(), x);
    }
}

/// Every place of the rotation is that of an upstream.
pub proof fn lemma_expansion_range(us: Seq<UpstreamState>)
    requires
        us.len() <= usize::MAX,
    ensures
        forall|k: int|
            0 <= k < expansion(us).len() ==> (#[trigger] expansion(us)[k]) < us.len(),
    decreases us.len(),
{
    if us.len() > 0 {
        let t = us.drop_last();
        lemma_expansion_range(t);
        assert forall|k: int| 0 <= k < expansion(us).len() implies (#[trigger] expansion(us)[k])
            < us.len() by {
            if k < expansion(t).len() {
                assert(expansion(us)[k] == expansion(t)[k]);
            }
        }
    }
}

impl UpstreamPool {
    /// The rotation is that of the upstreams' weights.
    pub open spec fn wf(&self) -> bool {
        self.expanded@ == expansion(self.upstreams@)
    }

    /// A pool for `config` in which nothing has happened yet, with ids from `first_id` on.
    pub open spec fn fresh(&self, config: UpstreamPoolConfig, first_id: usize) -> bool {
        &&& self.wf()
        &&& self.upstreams@.len() == config.upstreams@.len()
        &&& forall|i: int|
            0 <= i < self.upstreams@.len() ==> (#[trigger] self.upstreams@[i]).fresh(
                config.upstreams@[i],
                wrapped(first_id, i),
            )
        &&& self.cursor == 0
        &&& self.passive_failure_threshold == config.passive_failure_threshold
    }

    /// A pool for `config`, whose URLs are all usable.
    pub(crate) fn new(config: &UpstreamPoolConfig, ids: &mut UpstreamIds) -> (r: UpstreamPool)
        requires
            forall|i: int|
                0 <= i < config.upstreams@.len() ==> usable(
                    parsed_uri((#[trigger] config.upstreams@[i]).url@),
                ),
        ensures
            r.fresh(*config, old(ids).next),
            final(ids).next == wrapped(old(ids).next, config.upstreams@.len() as int),
    {
        let ghost first = ids.next;
        proof {
            lemma_wrapped(first, 0);
        }
        let mut upstreams: Vec<UpstreamState> = Vec::new();
        let mut expanded: Vec<usize> = Vec::new();
        let mut i: usize = 0;
        while i < config.upstreams.len()
            invariant
                i <= config.upstreams.len(),
                upstreams.len() == i,
                expanded@ == expansion(upstreams@),
                ids.next == wrapped(first, i as int),
                forall|k: int|
                    0 <= k < config.upstreams@.len() ==> usable(
                        parsed_uri((#[trigger] config.upstreams@[k]).url@),
                    ),
                forall|k: int|
                    0 <= k < i ==> (#[trigger] upstreams@[k]).fresh(
                        config.upstreams@[k],
                        wrapped(first, k),
                    ),
            decreases config.upstreams.len() - i,
        {
            let ghost before = upstreams@;
            let ghost rotation = expanded@;
            let weight: u32 = config.upstreams[i].weight;
            let id: usize = ids.take();
            if let Some(u) = UpstreamState::new(config.upstreams[i].clone(), id) {
                upstreams.push(u);
            }
            let mut k: u32 = 0;
            while k < weight
                invariant
                    k <= weight,
                    expanded@ == rotation + repeated(i, k as nat),
                decreases weight - k,
            {
                expanded.push(i);
                k = k + 1;
                proof {
                    assert(repeated(i, k as nat) =~= repeated(i, (k - 1) as nat).push(i));
                    assert(expanded@ =~= rotation + repeated(i, k as nat));
                }
            }
            proof {
                assert(upstreams@.drop_last() =~= before);
                lemma_wrapped(first, i as int);
            }
            i = i + 1;
        }
        UpstreamPool {
            upstreams,
            expanded,
            cursor: 0,
            passive_failure_threshold: config.passive_failure_threshold,
        }
    }

    /// The upstreams of the pool.
    pub fn upstreams(&self) -> (r: &[UpstreamState])
        ensures
            r@ == self.upstreams@,
    {
        self.upstreams.as_slice()
    }

    /// The upstream whose turn comes after `k` others.
    pub open spec fn turn(&self, k: int) -> usize {
        self.expanded@[wrapped(self.cursor, k) as int % self.expanded@.len() as int]
    }

    /// The first turn from `k` on whose upstream is available, within one rotation.
    pub open spec fn next_turn(&self, k: int) -> int
        decreases self.expanded@.len() - k,
    {
        if k >= self.expanded@.len() {
            k
        } else if self.upstreams@[self.turn(k) as int].available(self.passive_failure_threshold) {
            k
        } else {
            self.next_turn(k + 1)
        }
    }

    /// The upstream that gets the next request, and where the rotation stands afterwards: the
    /// only one of a pool of one; else the next available one in the rotation; else the first
    /// of the rotation.
    pub open spec fn choice(&self) -> (Option<usize>, usize) {
        let n = self.expanded@.len() as int;
        let k = self.next_turn(0);
        if n == 0 {
            (None, self.cursor)
        } else if self.upstreams@.len() == 1 {
            (Some(0), self.cursor)
        } else if k < n {
            (Some(self.turn(k)), wrapped(self.cursor, k + 1))
        } else {
            (Some(self.expanded@[0]), wrapped(self.cursor, n))
        }
    }

    /// Chooses the upstream for the next request, by its position.
    pub fn select(&mut self) -> (r: Option<usize>)
        requires
            old(self).wf(),
        ensures
            r == old(self).choice().0,
            *final(self) == (UpstreamPool { cursor: old(self).choice().1, ..*old(self) }),
            final(self).wf(),
            r matches Some(i) ==> i < old(self).upstreams@.len(),
    {
        let ghost start = *self;
        let n: usize = self.expanded.len();
        let members: usize = self.upstreams.len();
        proof {
            assert(members == self.upstreams@.len());
            lemma_expansion_range(self.upstreams@);
            lemma_wrapped(self.cursor, 0);
        }
        if n == 0 {
            return None;
        }
        if members == 1 {
            return Some(0);
        }
        let mut k: usize = 0;
        while k < n
            invariant
                k <= n,
                n == start.expanded@.len(),
                n > 0,
                start == *old(self),
                start.wf(),
                start.upstreams@.len() != 1,
                forall|j: int| 0 <= j < n ==> (#[trigger] start.expanded@[j]) < start.upstreams@.len(),
                *self == (UpstreamPool { cursor: wrapped(start.cursor, k as int), ..start }),
                start.next_turn(0) == start.next_turn(k as int),
            decreases n - k,
        {
            let idx: usize = self.cursor % n;
            self.cursor = self.cursor.wrapping_add(1);
            let chosen: usize = self.expanded[idx];
            proof {
                assert(start.expanded@[idx as int] < start.upstreams@.len());
                assert(chosen == start.turn(k as int));
                lemma_wrapped(start.cursor, k as int);
                lemma_wrapped(wrapped(start.cursor, k as int), 1);
            }
            if self.upstreams[chosen].is_available(self.passive_failure_threshold) {
                return Some(chosen);
            }
            k = k + 1;
        }
        proof {
            assert(start.expanded@[0] < start.upstreams@.len());
        }
        Some(self.expanded[0])
    }
}

/// An upstream that is not available gets a request only where the pool has no other one in
/// its rotation that is available.
pub proof fn unavailable_is_last_resort(p: UpstreamPool)
    requires
        p.wf(),
        p.upstreams@.len() > 1,
        p.upstreams@.len() <= usize::MAX,
        p.expanded@.len() > 0,
        p.cursor + p.expanded@.len() <= usize::MAX + 1,
        exists|i: int|
            0 <= i < p.upstreams@.len() && (#[trigger] p.upstreams@[i]).config.weight > 0
                && p.upstreams@[i].available(p.passive_failure_threshold),
    ensures
        p.choice().0 matches Some(i) && p.upstreams@[i as int].available(
            p.passive_failure_threshold,
        ),
{
    let i = choose|i: int|
        0 <= i < p.upstreams@.len() && (#[trigger] p.upstreams@[i]).config.weight > 0
            && p.upstreams@[i].available(p.passive_failure_threshold);
    rotation_follows_weights(p.upstreams@, i);
    lemma_occurrences_present(p.expanded@, i as usize);
    let e = choose|e: int| 0 <= e < p.expanded@.len() && p.expanded@[e] == i as usize;
    let n = p.expanded@.len() as int;
    let c = p.cursor as int % n;
    let k = if e >= c {
        e - c
    } else {
        e - c + n
    };
    lemma_turns_around(p.cursor as int, k, n);
    lemma_wrapped(p.cursor, k);
    assert(p.turn(k) == i as usize);
    lemma_next_turn(p, 0, k);
}

/// Whether these are the states of a pool before each of several calls of `select` in a row,
/// with every upstream available throughout. What else is noted of the upstreams in between
/// does not matter.
pub open spec fn in_rotation(pools: Seq<UpstreamPool>) -> bool {
    &&& forall|i: int|
        0 <= i < pools.len() ==> {
            &&& (#[trigger] pools[i]).wf()
            &&& 1 < pools[i].upstreams@.len() <= usize::MAX
            &&& pools[i].expanded@ == pools[0].expanded@
            &&& forall|u: int|
                0 <= u < pools[i].upstreams@.len() ==> (#[trigger] pools[i].upstreams@[u]).available(
                    pools[i].passive_failure_threshold,
                )
        }
    &&& forall|i: int|
        0 <= i < pools.len() - 1 ==> pools[i + 1].cursor == (#[trigger] pools[i]).choice().1
}

/// The upstreams that the calls choose.
pub open spec fn chosen(pools: Seq<UpstreamPool>) -> Seq<usize> {
    pools.map_values(|p: UpstreamPool| p.choice().0->0)
}

proof fn lemma_turn_taken(p: UpstreamPool)
    requires
        p.wf(),
        p.upstreams@.len() > 1,
        p.upstreams@.len() <= usize::MAX,
        p.expanded@.len() > 0,
        forall|u: int|
            0 <= u < p.upstreams@.len() ==> (#[trigger] p.upstreams@[u]).available(
                p.passive_failure_threshold,
            ),
    ensures
        p.choice() == (
            Some(p.expanded@[p.cursor as int % p.expanded@.len() as int]),
            wrapped(p.cursor, 1),
        ),
{
    let n = p.expanded@.len() as int;
    lemma_wrapped(p.cursor, 0);
    lemma_expansion_range(p.upstreams@);
    vstd::arithmetic::div_mod::lemma_mod_bound(p.cursor as int, n);
    assert(p.expanded@[p.cursor as int % n] < p.upstreams@.len());
}

/// The calls go through the rotation place by place, from where its cursor stands: on a fresh
/// pool each upstream as often in a row as its weight says, in the order of the configuration,
/// and then again from the first.
pub proof fn calls_follow_the_rotation(pools: Seq<UpstreamPool>, k: int)
    requires
        in_rotation(pools),
        0 <= k < pools.len(),
        pools[0].expanded@.len() > 0,
        pools[0].cursor + k <= usize::MAX,
    ensures
        pools[k].cursor == pools[0].cursor + k,
        pools[k].choice().0 == Some(
            pools[0].expanded@[(pools[0].cursor + k) % (pools[0].expanded@.len() as int)],
        ),
    decreases k,
{
    assert(pools[0].wf());
    assert(pools[k].wf());
    if k > 0 {
        calls_follow_the_rotation(pools, k - 1);
        assert(pools[k - 1].wf());
        lemma_turn_taken(pools[k - 1]);
        lemma_wrapped(pools[k - 1].cursor, 1);
        assert(pools[k - 1 + 1].cursor == pools[k - 1].choice().1);
    }
    lemma_turn_taken(pools[k]);
}

proof fn lemma_turns_around(c: int, k: int, n: int)
    requires
        0 <= c,
        0 <= k < n,
    ensures
        0 <= c % n < n,
        (c + k) % n == if c % n + k < n {
            c % n + k
        } else {
            c % n + k - n
        },
{
    vstd::arithmetic::div_mod::lemma_fundamental_div_mod(c, n);
    vstd::arithmetic::div_mod::lemma_mod_bound(c, n);
    let (q, r) = (c / n, c % n);
    if r + k < n {
        assert(c + k == q * n + (r + k)) by (nonlinear_arith)
            requires
                c == n * q + r,
        ;
        vstd::arithmetic::div_mod::lemma_fundamental_div_mod_converse(c + k, n, q, r + k);
    } else {
        assert(c + k == (q + 1) * n + (r + k - n)) by (nonlinear_arith)
            requires
                c == n * q + r,
        ;
        vstd::arithmetic::div_mod::lemma_fundamental_div_mod_converse(
            c + k,
            n,
            q + 1,
            r + k - n,
        );
    }
}

proof fn lemma_chosen_at(pools: Seq<UpstreamPool>, k: int, r: int)
    requires
        in_rotation(pools),
        pools.len() == pools[0].expanded@.len(),
        0 <= k < pools.len(),
        pools[0].cursor + pools.len() <= usize::MAX + 1,
        r == pools[0].cursor as int % (pools.len() as int),
    ensures
        0 <= r < pools.len(),
        chosen(pools)[k] == pools[0].expanded@[if r + k < pools.len() {
            r + k
        } else {
            r + k - pools.len()
        }],
{
    calls_follow_the_rotation(pools, k);
    lemma_turns_around(pools[0].cursor as int, k, pools.len() as int);
}

/// A rotation that begins at another place holds the same.
proof fn lemma_turned(e: Seq<usize>, s: Seq<usize>, r: int, x: usize)
    requires
        s.len() == e.len(),
        0 <= r < e.len(),
        forall|k: int|
            0 <= k < e.len() ==> #[trigger] s[k] == e[if r + k < e.len() {
                r + k
            } else {
                r + k - e.len()
            }],
    ensures
        occurrences(s, x) == occurrences(e, x),
{
    assert(s =~= e.skip(r) + e.take(r));
    lemma_occurrences_append(e.skip(r), e.take(r), x);
    lemma_occurrences_append(e.take(r), e.skip(r), x);
    assert(e.take(r) + e.skip(r) =~= e);
}

/// Over as many calls in a row as the weights add up to, each upstream is chosen exactly as
/// often as its weight says.
pub proof fn calls_follow_weights(pools: Seq<UpstreamPool>, i: int)
    requires
        in_rotation(pools),
        pools.len() > 0,
        pools.len() == pools[0].expanded@.len(),
        pools[0].cursor + pools.len() <= usize::MAX + 1,
        0 <= i < pools[0].upstreams@.len(),
    ensures
        occurrences(chosen(pools), i as usize) == pools[0].upstreams@[i].config.weight,
{
    let e = pools[0].expanded@;
    let r = pools[0].cursor as int % (pools.len() as int);
    lemma_chosen_at(pools, 0, r);
    assert forall|k: int| 0 <= k < e.len() implies #[trigger] chosen(pools)[k] == e[if r + k
        < e.len() {
        r + k
    } else {
        r + k - e.len()
    }] by {
        lemma_chosen_at(pools, k, r);
    }
    lemma_turned(e, chosen(pools), r, i as usize);
    assert(pools[0].wf());
    rotation_follows_weights(pools[0].upstreams@, i);
}

proof fn lemma_occurrences_present(s: Seq<usize>, x: usize)
    requires
        occurrences(s, x) > 0,
    ensures
        exists|k: int| 0 <= k < s.len() && s[k] == x,
    decreases s.len(),
{
    if s.last() != x {
        lemma_occurrences_present(s.drop_last(), x);
        let k = choose|k: int| 0 <= k < s.drop_last().len() && s.drop_last()[k] == x;
        assert(s[k] == x);
    } else {
        assert(s[s.len() - 1] == x);
    }
}

proof fn lemma_next_turn(p: UpstreamPool, from: int, k: int)
    requires
        0 <= from <= k < p.expanded@.len(),
        p.upstreams@[p.turn(k) as int].available(p.passive_failure_threshold),
    ensures
        from <= p.next_turn(from) <= k,
        p.upstreams@[p.turn(p.next_turn(from)) as int].available(p.passive_failure_threshold),
    decreases k - from,
{
    if from < k && !p.upstreams@[p.turn(from) as int].available(p.passive_failure_threshold) {
        lemma_next_turn(p, from + 1, k);
    }
}

/// A path goes to an upstream without a path of its own as it is, and behind the path of any
/// other, with one slash between the two.
pub proof fn paths_go_behind_the_base(base: Seq<char>, rest: Seq<char>)
    requires
        rest.len() > 0 ==> rest[0] != '/',
    ensures
        upstream_path(Seq::empty(), seq!['/'] + rest) == seq!['/'] + rest,
        upstream_path(Seq::empty(), rest) == seq!['/'] + rest,
        base.len() > 0 ==> upstream_path(base, seq!['/'] + rest) == if rest.len() == 0 {
            base
        } else {
            base + seq!['/'] + rest
        },
        base.len() > 0 ==> upstream_path(base, rest) == upstream_path(base, seq!['/'] + rest),
{
    reveal_strlit("/");
    let path = seq!['/'] + rest;
    assert(path.skip(1) =~= rest);
    assert(without_leading(rest, '/') == rest);
    assert(without_leading(path, '/') == rest);
    assert("/"@ =~= seq!['/']);
    assert(path.take(1) =~= "/"@);
    if rest.len() > 0 {
        assert(rest.take(1)[0] == rest[0]);
    }
}

/// The URI of a request is the scheme, `://`, the authority, and the path for the upstream.
pub proof fn uris_name_the_upstream(base: UpstreamUriBase, path: Seq<char>)
    ensures
        base.target(path) == base.scheme@ + seq![':', '/', '/'] + base.authority@ + upstream_path(
            base.base_path@,
            path,
        ),
{
    reveal_strlit("://");
    assert("://"@ =~= seq![':', '/', '/']);
}

/// A URL stands for its own scheme and authority, and for its path without slashes at the end.
pub proof fn bases_keep_the_url(
    base: UpstreamUriBase,
    scheme: Seq<char>,
    authority: Seq<char>,
    path: Seq<char>,
    host: Option<Seq<char>>,
    port: Option<u16>,
    text: Seq<char>,
)
    requires
        base.stands_for(Some((Some(scheme), Some(authority), path, host, port, text))),
    ensures
        base.scheme@ == scheme,
        base.authority@ == authority,
        path.len() > 0 && path.last() != '/' ==> base.base_path@ == path,
        path == seq!['/'] ==> base.base_path@.len() == 0,
{
    if path == seq!['/'] {
        assert(path.drop_last() =~= Seq::<char>::empty());
        assert(without_trailing(path.drop_last(), '/').len() == 0);
    }
}

/// An upstream takes requests just where its last check passed and it has failed fewer times in
/// a row than the threshold.
pub proof fn availability_is_health_and_few_failures(u: UpstreamState, threshold: u32)
    ensures
        !u.active_healthy ==> !u.available(threshold),
        u.passive_failures >= threshold ==> !u.available(threshold),
        u.active_healthy && u.passive_failures < threshold ==> u.available(threshold),
{
}

/// A fresh upstream has not failed and counts as healthy.
pub proof fn fresh_upstreams_are_available(
    u: UpstreamState,
    config: UpstreamConfig,
    id: usize,
    threshold: u32,
)
    requires
        u.fresh(config, id),
    ensures
        u.passive_failures == 0,
        u.connect_addr is None,
        u.id == id,
        u.config == config,
        threshold > 0 ==> u.available(threshold),
{
}

/// A pool without a rotation gives no upstream; a pool of one gives that one, whatever its
/// health; any other always gives one of its upstreams.
pub proof fn pools_give_one_of_their_own(p: UpstreamPool)
    requires
        p.wf(),
        p.upstreams@.len() <= usize::MAX,
    ensures
        p.expanded@.len() == 0 ==> p.choice() == (None::<usize>, p.cursor),
        p.expanded@.len() > 0 && p.upstreams@.len() == 1 ==> p.choice() == (Some(0usize), p.cursor),
        p.expanded@.len() > 0 ==> (p.choice().0 matches Some(i) && i < p.upstreams@.len()),
        p.expanded@.len() == 0 <==> forall|i: int|
            0 <= i < p.upstreams@.len() ==> (#[trigger] p.upstreams@[i]).config.weight == 0,
{
    lemma_expansion_range(p.upstreams@);
    lemma_expansion_empty(p.upstreams@);
    let n = p.expanded@.len() as int;
    if n > 0 {
        lemma_next_turn_bounds(p, 0);
        let k = p.next_turn(0);
        vstd::arithmetic::div_mod::lemma_mod_bound(wrapped(p.cursor, k) as int, n);
        assert(p.expanded@[0] < p.upstreams@.len());
        assert(p.expanded@[wrapped(p.cursor, k) as int % n] < p.upstreams@.len());
    }
}

proof fn lemma_next_turn_bounds(p: UpstreamPool, k: int)
    requires
        0 <= k <= p.expanded@.len(),
    ensures
        k <= p.next_turn(k) <= p.expanded@.len(),
    decreases p.expanded@.len() - k,
{
    if k < p.expanded@.len() {
        lemma_next_turn_bounds(p, k + 1);
    }
}

proof fn lemma_expansion_empty(us: Seq<UpstreamState>)
    ensures
        expansion(us).len() == 0 <==> forall|i: int|
            0 <= i < us.len() ==> (#[trigger] us[i]).config.weight == 0,
    decreases us.len(),
{
    if us.len() > 0 {
        let d = us.drop_last();
        lemma_expansion_empty(d);
        if expansion(us).len() == 0 {
            assert forall|i: int| 0 <= i < us.len() implies (#[trigger] us[i]).config.weight == 0 by {
                if i < d.len() {
                    assert(d[i].config.weight == 0);
                }
            }
        } else if forall|i: int| 0 <= i < us.len() ==> (#[trigger] us[i]).config.weight == 0 {
            assert(us[us.len() - 1].config.weight == 0);
            assert forall|i: int| 0 <= i < d.len() implies (#[trigger] d[i]).config.weight == 0 by {
                assert(us[i].config.weight == 0);
            }
        }
    }
}

/// A success forgets the failures of an upstream, a failure adds one, and neither touches what
/// its checks said.
pub proof fn requests_change_the_failures_only(u: &mut UpstreamState, v: &mut UpstreamState)
    requires
        old(v).passive_failures < usize::MAX,
        call_ensures(UpstreamState::mark_success, (u,), ()),
        call_ensures(UpstreamState::mark_failure, (v,), ()),
    ensures
        final(u).passive_failures == 0,
        final(u).active_healthy == old(u).active_healthy,
        final(u).id == old(u).id,
        final(u).connect_addr == old(u).connect_addr,
        final(v).passive_failures == old(v).passive_failures + 1,
        final(v).active_healthy == old(v).active_healthy,
        final(v).id == old(v).id,
        final(v).connect_addr == old(v).connect_addr,
{
    lemma_wrapped(old(v).passive_failures, 1);
}

/// A check changes the health of an upstream only.
pub proof fn checks_change_the_health_only(u: &mut UpstreamState, healthy: bool)
    requires
        call_ensures(UpstreamState::set_active_healthy, (u, healthy), ()),
    ensures
        final(u).active_healthy == healthy,
        final(u).passive_failures == old(u).passive_failures,
{
}

/// The address of an upstream is the first that was found, for good.
pub proof fn addresses_are_found_once(
    u: &mut UpstreamState,
    found: SocketAddr,
    r: SocketAddr,
)
    requires
        call_ensures(UpstreamState::connect_addr, (u, found), r),
    ensures
        old(u).connect_addr matches Some(known) ==> r == known && final(u).connect_addr == Some(
            known,
        ),
        old(u).connect_addr is None ==> r == found && final(u).connect_addr == Some(found),
        final(u).passive_failures == old(u).passive_failures,
{
}

/// Ids are given out one after the other.
pub proof fn ids_are_given_out_in_turn(ids: &mut UpstreamIds, id: usize)
    requires
        old(ids).next < usize::MAX,
        call_ensures(UpstreamIds::take, (ids,), id),
    ensures
        id == old(ids).next,
        final(ids).next == old(ids).next + 1,
{
    lemma_wrapped(old(ids).next, 1);
}

} // verus!
