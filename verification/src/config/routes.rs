//! The route table: which route a request takes, and the pools behind the routes.

use crate::addr::SocketAddr;
use crate::config::pools::{has_pool, PoolMap};
use crate::config::types::{
    ConfigError, ProxyConfig, RouteConfig, UpstreamPoolConfig,
};
use crate::config::upstream::{
    expansion, lemma_wrapped, usable, wrapped, UpstreamIds, UpstreamPool, UpstreamState,
};
use crate::config::validate::{first_some, lemma_first_some_at, lemma_first_some_none};
use crate::proxy::rate_limit::RateLimiter;
use crate::text::{byte_len, cat5, has_prefix, starts_with, str_eq, strip_prefix};
use crate::uri::{host_key, opt_str, opt_text, parse_authority_host, parsed_uri};
use vstd::prelude::*;
use vstd::string::*;
use vstd::utf8::encode_utf8;

verus! {

// ----------------------------------------------------------------- path rules

/// Whether a path falls under a prefix: `/` takes every absolute path; any other prefix takes
/// itself and what goes on with `/` or `?`.
pub open spec fn path_under(path: Seq<char>, prefix: Seq<char>) -> bool {
    if prefix == "/"@ {
        has_prefix(path, "/"@)
    } else {
        path == prefix || (has_prefix(path, prefix) && path.len() > prefix.len() && (
        path[prefix.len() as int] == '/' || path[prefix.len() as int] == '?'))
    }
}

/// Whether a path falls under a prefix.
pub fn path_matches_prefix(path: &str, prefix: &str) -> (r: bool)
    ensures
        r == path_under(path@, prefix@),
{
    if str_eq(prefix, "/") {
        return starts_with(path, "/");
    }
    if str_eq(path, prefix) {
        return true;
    }
    match strip_prefix(path, prefix) {
        Some(rest) => {
            proof {
                assert(path@.len() == prefix@.len() ==> path@ =~= path@.take(
                    prefix@.len() as int,
                ));
            }
            !rest.is_empty() && (rest.get_char(0) == '/' || rest.get_char(0) == '?')
        },
        None => false,
    }
}

// ------------------------------------------------------------ order of routes

/// The length of a route's prefix in bytes.
pub open spec fn reach(r: RouteConfig) -> nat {
    encode_utf8(r.path_prefix@).len()
}

/// `s` with `r` behind the last route whose prefix is at least as long.
pub open spec fn placed(s: Seq<RouteConfig>, r: RouteConfig) -> Seq<RouteConfig>
    decreases s.len(),
{
    if s.len() == 0 || reach(s.last()) >= reach(r) {
        s.push(r)
    } else {
        placed(s.drop_last(), r).push(s.last())
    }
}

/// The routes with longer prefixes first; those with prefixes of one length keep their order.
pub open spec fn longest_first(s: Seq<RouteConfig>) -> Seq<RouteConfig>
    decreases s.len(),
{
    if s.len() == 0 {
        Seq::empty()
    } else {
        placed(longest_first(s.drop_last()), s.last())
    }
}

/// Whether no route stands behind one with a shorter prefix.
pub open spec fn descending(s: Seq<RouteConfig>) -> bool {
    forall|i: int, j: int| 0 <= i < j < s.len() ==> reach(#[trigger] s[i]) >= reach(#[trigger] s[j])
}

proof fn lemma_placed(s: Seq<RouteConfig>, r: RouteConfig)
    ensures
        placed(s, r).len() == s.len() + 1,
        placed(s, r).to_multiset() == s.to_multiset().insert(r),
        descending(s) ==> descending(placed(s, r)),
        forall|k: int|
            0 <= k < placed(s, r).len() ==> s.contains(#[trigger] placed(s, r)[k]) || placed(
                s,
                r,
            )[k] == r,
    decreases s.len(),
{
    broadcast use vstd::seq_lib::group_to_multiset_ensures;

    let t = placed(s, r);
    if s.len() == 0 || reach(s.last()) >= reach(r) {
        assert forall|k: int| 0 <= k < t.len() implies s.contains(#[trigger] t[k]) || t[k] == r by {
            if k < s.len() {
                assert(t[k] == s[k]);
            }
        }
    } else {
        let d = s.drop_last();
        let p = placed(d, r);
        lemma_placed(d, r);
        assert(s =~= d.push(s.last()));
        assert(t.to_multiset() =~= s.to_multiset().insert(r));
        assert forall|k: int| 0 <= k < t.len() implies s.contains(#[trigger] t[k]) || t[k] == r by {
            if k < p.len() {
                assert(t[k] == p[k]);
                if d.contains(p[k]) {
                    let j = choose|j: int| 0 <= j < d.len() && d[j] == p[k];
                    assert(s[j] == t[k]);
                }
            } else {
                assert(s[s.len() - 1] == t[k]);
            }
        }
        if descending(s) {
            assert forall|i: int, j: int| 0 <= i < j < d.len() implies reach(#[trigger] d[i])
                >= reach(#[trigger] d[j]) by {
                assert(reach(s[i]) >= reach(s[j]));
            }
            assert forall|i: int, j: int| 0 <= i < j < t.len() implies reach(#[trigger] t[i])
                >= reach(#[trigger] t[j]) by {
                if j < p.len() {
                    assert(reach(p[i]) >= reach(p[j]));
                } else {
                    assert(t[i] == p[i]);
                    if d.contains(p[i]) {
                        let a = choose|a: int| 0 <= a < d.len() && d[a] == p[i];
                        assert(reach(s[a]) >= reach(s[s.len() - 1]));
                    }
                }
            }
        }
    }
}

/// Sorting loses no route, adds none, and leaves none behind one with a shorter prefix.
pub proof fn sorting_keeps_every_route(s: Seq<RouteConfig>)
    ensures
        longest_first(s).to_multiset() == s.to_multiset(),
        longest_first(s).len() == s.len(),
        descending(longest_first(s)),
    decreases s.len(),
{
    broadcast use vstd::seq_lib::group_to_multiset_ensures;

    if s.len() > 0 {
        sorting_keeps_every_route(s.drop_last());
        lemma_placed(longest_first(s.drop_last()), s.last());
        assert(s =~= s.drop_last().push(s.last()));
    }
}

proof fn lemma_filter_push(s: Seq<RouteConfig>, r: RouteConfig, p: spec_fn(RouteConfig) -> bool)
    ensures
        s.push(r).filter(p) == if p(r) {
            s.filter(p).push(r)
        } else {
            s.filter(p)
        },
{
    reveal(Seq::filter);
    assert(s.push(r).drop_last() =~= s);
}

proof fn lemma_placed_keeps_order(s: Seq<RouteConfig>, r: RouteConfig, n: nat)
    ensures
        placed(s, r).filter(|c: RouteConfig| reach(c) == n) == s.push(r).filter(
            |c: RouteConfig| reach(c) == n,
        ),
    decreases s.len(),
{
    let p = |c: RouteConfig| reach(c) == n;
    if !(s.len() == 0 || reach(s.last()) >= reach(r)) {
        let d = s.drop_last();
        lemma_placed_keeps_order(d, r, n);
        lemma_filter_push(placed(d, r), s.last(), p);
        lemma_filter_push(s, r, p);
        lemma_filter_push(d, r, p);
        lemma_filter_push(d, s.last(), p);
        assert(d.push(s.last()) =~= s);
    }
}

/// Routes whose prefixes have one length are tried in the order in which they are configured.
pub proof fn equal_prefixes_keep_order(s: Seq<RouteConfig>, n: nat)
    ensures
        longest_first(s).filter(|r: RouteConfig| reach(r) == n) == s.filter(
            |r: RouteConfig| reach(r) == n,
        ),
    decreases s.len(),
{
    let p = |r: RouteConfig| reach(r) == n;
    if s.len() > 0 {
        let d = s.drop_last();
        equal_prefixes_keep_order(d, n);
        lemma_placed_keeps_order(longest_first(d), s.last(), n);
        lemma_filter_push(longest_first(d), s.last(), p);
        lemma_filter_push(d, s.last(), p);
        assert(d.push(s.last()) =~= s);
    } else {
        assert(longest_first(s) =~= s);
    }
}

proof fn lemma_placed_is_insert(s: Seq<RouteConfig>, r: RouteConfig, i: int)
    requires
        0 <= i <= s.len(),
        i > 0 ==> reach(s[i - 1]) >= reach(r),
        forall|j: int| i <= j < s.len() ==> reach(#[trigger] s[j]) < reach(r),
    ensures
        placed(s, r) == s.insert(i, r),
    decreases s.len(),
{
    if i == s.len() {
        assert(s.insert(i, r) =~= s.push(r));
    } else {
        assert(reach(s.last()) < reach(r));
        assert forall|j: int| i <= j < s.drop_last().len() implies reach(
            #[trigger] s.drop_last()[j],
        ) < reach(r) by {
            assert(s.drop_last()[j] == s[j]);
        }
        lemma_placed_is_insert(s.drop_last(), r, i);
        assert(s.insert(i, r) =~= s.drop_last().insert(i, r).push(s.last()));
    }
}

fn sort_routes(routes: &Vec<RouteConfig>) -> (v: Vec<RouteConfig>)
    ensures
        v@ == longest_first(routes@),
{
    let mut v: Vec<RouteConfig> = Vec::new();
    let mut n: usize = 0;
    proof {
        assert(routes@.take(0) =~= Seq::<RouteConfig>::empty());
    }
    while n < routes.len()
        invariant
            n <= routes.len(),
            v@ == longest_first(routes@.take(n as int)),
        decreases routes.len() - n,
    {
        let r = routes[n].clone();
        let len: usize = byte_len(r.path_prefix.as_str());
        let mut i: usize = v.len();
        while i > 0 && byte_len(v[i - 1].path_prefix.as_str()) < len
            invariant
                i <= v.len(),
                len == reach(r),
                forall|j: int| i <= j < v.len() ==> reach(#[trigger] v@[j]) < len,
            decreases i,
        {
            i = i - 1;
        }
        proof {
            lemma_placed_is_insert(v@, r, i as int);
            assert(routes@.take(n + 1).drop_last() =~= routes@.take(n as int));
        }
        v.insert(i, r);
        n = n + 1;
    }
    proof {
        assert(routes@.take(n as int) =~= routes@);
    }
    v
}

// ------------------------------------------------------------------ the table

/// A route, the position of its pool, and its rate limiter.
#[derive(Clone, Debug)]
pub struct CompiledRoute {
    pub route: RouteConfig,
    pub pool: usize,
    pub rate_limiter: Option<RateLimiter>,
}

/// The positions of the routes of one host.
#[derive(Clone, Debug)]
pub struct HostRoutes {
    pub host: String,
    pub routes: Vec<usize>,
}

/// The routes in the order in which they are tried, with the pools behind them.
#[derive(Clone, Debug)]
pub struct RouteTable {
    pub routes: Vec<CompiledRoute>,
    pub pools: Vec<UpstreamPool>,
    pub host_routes: Vec<HostRoutes>,
    pub wildcard_routes: Vec<usize>,
    pub single_wildcard_root: bool,
    pub requires_host_match: bool,
}

/// The route that a request takes.
#[derive(Debug)]
pub struct RouteMatch<'a> {
    pub index: usize,
    pub route: &'a RouteConfig,
    pub pool: &'a UpstreamPool,
    pub rate_limiter: Option<&'a RateLimiter>,
}

/// Where an upstream stands: its pool and its position there.
#[derive(Clone, Copy, Debug, PartialEq, Eq, Structural)]
pub struct UpstreamRef {
    pub pool: usize,
    pub index: usize,
}

/// What a request says of its host.
pub enum HostLookup {
    /// It names none.
    Absent,
    /// What it names is no host.
    Malformed,
    /// It names the host with this key.
    Key(String),
}

impl HostLookup {
    /// Whether a host was named, and its key.
    pub open spec fn model(&self) -> (bool, Option<Seq<char>>) {
        match self {
            HostLookup::Absent => (false, None),
            HostLookup::Malformed => (true, None),
            HostLookup::Key(k) => (true, Some(k@)),
        }
    }
}

/// The key that a route is found under: none for the wildcard.
pub open spec fn route_key(r: RouteConfig) -> Option<Seq<char>> {
    if r.host@ == "*"@ {
        None
    } else {
        host_key(r.host@)
    }
}

/// The routes of a compiled list.
pub open spec fn configs(rs: Seq<CompiledRoute>) -> Seq<RouteConfig> {
    rs.map_values(|c: CompiledRoute| c.route)
}

/// The positions of the routes found under `key`, in order.
pub open spec fn positions(rs: Seq<CompiledRoute>, key: Option<Seq<char>>) -> Seq<usize>
    decreases rs.len(),
{
    if rs.len() == 0 {
        Seq::empty()
    } else if route_key(rs.last().route) == key {
        positions(rs.drop_last(), key).push((rs.len() - 1) as usize)
    } else {
        positions(rs.drop_last(), key)
    }
}

/// The first route from position `i` on that is found under `key` and takes `path`.
pub open spec fn first_match(
    rs: Seq<RouteConfig>,
    key: Option<Seq<char>>,
    path: Seq<char>,
    i: int,
) -> Option<int>
    decreases rs.len() - i,
{
    if i >= rs.len() {
        None
    } else if route_key(rs[i]) == key && path_under(path, rs[i].path_prefix@) {
        Some(i)
    } else {
        first_match(rs, key, path, i + 1)
    }
}

/// Whether the only route takes every request.
pub open spec fn takes_all(rs: Seq<RouteConfig>) -> bool {
    rs.len() == 1 && rs[0].host@ == "*"@ && rs[0].path_prefix@ == "/"@
}

/// The route of a request for `path` whose host was named or not, with or without a key.
///
/// A single wildcard route on `/` takes all. Else a host that is no host matches nothing; a
/// host's own routes come first, the wildcard routes after them.
pub open spec fn chosen_route(
    rs: Seq<RouteConfig>,
    host: (bool, Option<Seq<char>>),
    path: Seq<char>,
) -> Option<int> {
    if takes_all(rs) {
        Some(0)
    } else if host.0 && host.1.is_none() {
        None
    } else if host.0 && first_match(rs, host.1, path, 0).is_some() {
        first_match(rs, host.1, path, 0)
    } else {
        first_match(rs, None, path, 0)
    }
}

/// What routing reads from the host header.
pub open spec fn lookup_of(host: Option<Seq<char>>) -> (bool, Option<Seq<char>>) {
    match host {
        None => (false, None),
        Some(h) => (true, host_key(h)),
    }
}

/// How many upstreams the first `i` pools have.
pub open spec fn members_before(ps: Seq<(Seq<char>, UpstreamPoolConfig)>, i: int) -> int
    decreases i,
{
    if i <= 0 {
        0
    } else {
        members_before(ps, i - 1) + ps[i - 1].1.upstreams@.len()
    }
}

/// The complaint about a route whose pool is not there.
pub open spec fn missing_pool(
    r: RouteConfig,
    ps: Seq<(Seq<char>, UpstreamPoolConfig)>,
) -> Option<Seq<char>> {
    if has_pool(ps, r.upstream_pool@) {
        None
    } else {
        Some(
            "route '"@ + r.name@ + "' references missing upstream_pool '"@ + r.upstream_pool@
                + "'"@,
        )
    }
}

/// The complaint about the first route whose pool is not there.
pub open spec fn first_missing_pool(c: ProxyConfig) -> Option<Seq<char>> {
    first_some(Seq::new(c.routes@.len(), |i: int| missing_pool(c.routes@[i], c.upstream_pools@)))
}

/// Whether every upstream has a usable URL.
pub open spec fn urls_usable(c: ProxyConfig) -> bool {
    forall|i: int, j: int|
        #![trigger c.upstream_pools@[i].1.upstreams@[j]]
        0 <= i < c.upstream_pools@.len() && 0 <= j < c.upstream_pools@[i].1.upstreams@.len()
            ==> usable(parsed_uri(c.upstream_pools@[i].1.upstreams@[j].url@))
}

/// Whether every route is for the wildcard or for a host with a key.
pub open spec fn hosts_usable(rs: Seq<RouteConfig>) -> bool {
    forall|i: int|
        0 <= i < rs.len() ==> (#[trigger] rs[i]).host@ == "*"@ || host_key(rs[i].host@).is_some()
}

/// Whether the position lists of the hosts are complete and each host stands once.
pub open spec fn hosts_indexed(hs: Seq<HostRoutes>, rs: Seq<CompiledRoute>) -> bool {
    &&& forall|i: int, j: int|
        0 <= i < j < hs.len() ==> (#[trigger] hs[i]).host@ != (#[trigger] hs[j]).host@
    &&& forall|i: int|
        0 <= i < hs.len() ==> (#[trigger] hs[i]).routes@ == positions(rs, Some(hs[i].host@))
    &&& forall|k: int|
        0 <= k < rs.len() && (#[trigger] rs[k]).route.host@ != "*"@ ==> exists|i: int|
            0 <= i < hs.len() && Some((#[trigger] hs[i]).host@) == route_key(rs[k].route)
}

impl RouteTable {
    /// The indexes agree with the routes, and every route has its pool.
    pub open spec fn wf(&self) -> bool {
        &&& hosts_usable(configs(self.routes@))
        &&& hosts_indexed(self.host_routes@, self.routes@)
        &&& self.wildcard_routes@ == positions(self.routes@, None)
        &&& self.single_wildcard_root == takes_all(configs(self.routes@))
        &&& self.requires_host_match == exists|i: int|
            0 <= i < self.routes@.len() && (#[trigger] self.routes@[i]).route.host@ != "*"@
        &&& forall|i: int|
            0 <= i < self.routes@.len() ==> (#[trigger] self.routes@[i]).pool < self.pools@.len()
        &&& forall|i: int| 0 <= i < self.pools@.len() ==> (#[trigger] self.pools@[i]).wf()
    }

    /// The table is that of the configuration, with upstream ids from `first_id` on.
    pub open spec fn built_from(&self, c: ProxyConfig, first_id: usize) -> bool {
        &&& self.wf()
        &&& configs(self.routes@) == longest_first(c.routes@)
        &&& self.pools@.len() == c.upstream_pools@.len()
        &&& forall|i: int|
            0 <= i < self.pools@.len() ==> (#[trigger] self.pools@[i]).fresh(
                c.upstream_pools@[i].1,
                wrapped(first_id, members_before(c.upstream_pools@, i)),
            )
        &&& forall|i: int|
            0 <= i < self.routes@.len() ==> c.upstream_pools@[(#[trigger] self.routes@[i]).pool as int].0
                == self.routes@[i].route.upstream_pool@
        &&& forall|i: int|
            0 <= i < self.routes@.len() ==> (#[trigger] self.routes@[i]).limited_as_configured()
    }
}

impl CompiledRoute {
    /// The route has an unused limiter just where it asks for one.
    pub open spec fn limited_as_configured(&self) -> bool {
        &&& self.rate_limiter.is_some() <==> self.route.rate_limit.enabled
        &&& self.rate_limiter matches Some(l) ==> {
            &&& l.capacity == self.route.rate_limit.capacity
            &&& l.fill_rate_bits == self.route.rate_limit.fill_rate_bits
            &&& l.shards@.len() == 32
            &&& forall|k: int| 0 <= k < 32 ==> (#[trigger] l.shards@[k])@.len() == 0
        }
    }
}

// ------------------------------------------------------------------- building

proof fn lemma_positions(rs: Seq<CompiledRoute>, key: Option<Seq<char>>)
    requires
        rs.len() <= usize::MAX,
    ensures
        forall|a: int|
            0 <= a < positions(rs, key).len() ==> (#[trigger] positions(rs, key)[a]) < rs.len()
                && route_key(rs[positions(rs, key)[a] as int].route) == key,
        forall|a: int, b: int|
            0 <= a < b < positions(rs, key).len() ==> (#[trigger] positions(rs, key)[a]) < (
            #[trigger] positions(rs, key)[b]),
        forall|i: int|
            0 <= i < rs.len() && route_key((#[trigger] rs[i]).route) == key ==> positions(
                rs,
                key,
            ).contains(i as usize),
    decreases rs.len(),
{
    if rs.len() > 0 {
        let d = rs.drop_last();
        let p = positions(rs, key);
        let q = positions(d, key);
        lemma_positions(d, key);
        assert forall|a: int| 0 <= a < p.len() implies (#[trigger] p[a]) < rs.len() && route_key(
            rs[p[a] as int].route,
        ) == key by {
            if a < q.len() {
                assert(p[a] == q[a]);
                assert(rs[q[a] as int] == d[q[a] as int]);
            }
        }
        assert forall|a: int, b: int| 0 <= a < b < p.len() implies (#[trigger] p[a]) < (
        #[trigger] p[b]) by {
            assert(p[a] == q[a]);
            if b < q.len() {
                assert(p[b] == q[b]);
            }
        }
        assert forall|i: int|
            0 <= i < rs.len() && route_key((#[trigger] rs[i]).route) == key implies p.contains(
            i as usize,
        ) by {
            if i < d.len() {
                assert(d[i] == rs[i]);
                assert(q.contains(i as usize));
                let a = choose|a: int| 0 <= a < q.len() && q[a] == i as usize;
                assert(p[a] == i as usize);
            } else {
                assert(p[q.len() as int] == i as usize);
            }
        }
    }
}

fn build_pools(config: &ProxyConfig, ids: &mut UpstreamIds) -> (pools: Vec<UpstreamPool>)
    requires
        urls_usable(*config),
    ensures
        pools@.len() == config.upstream_pools@.len(),
        final(ids).next == wrapped(
            old(ids).next,
            members_before(config.upstream_pools@, config.upstream_pools@.len() as int),
        ),
        forall|i: int|
            0 <= i < pools@.len() ==> (#[trigger] pools@[i]).fresh(
                config.upstream_pools@[i].1,
                wrapped(old(ids).next, members_before(config.upstream_pools@, i)),
            ),
{
    let ghost first = ids.next;
    let ghost ps = config.upstream_pools@;
    let mut pools: Vec<UpstreamPool> = Vec::new();
    let mut i: usize = 0;
    proof {
        lemma_wrapped(first, 0);
    }
    while i < config.upstream_pools.len()
        invariant
            i <= ps.len(),
            ps == config.upstream_pools@,
            pools@.len() == i,
            urls_usable(*config),
            members_before(ps, i as int) >= 0,
            ids.next == wrapped(first, members_before(ps, i as int)),
            forall|k: int|
                0 <= k < i ==> (#[trigger] pools@[k]).fresh(
                    ps[k].1,
                    wrapped(first, members_before(ps, k)),
                ),
        decreases ps.len() - i,
    {
        let pool_config = config.upstream_pools.pool_at(i);
        proof {
            assert forall|j: int| 0 <= j < pool_config.upstreams@.len() implies usable(
                parsed_uri((#[trigger] pool_config.upstreams@[j]).url@),
            ) by {
                assert(config.upstream_pools@[i as int].1.upstreams@[j] == pool_config.upstreams@[j]);
            }
        }
        let pool = UpstreamPool::new(pool_config, ids);
        pools.push(pool);
        proof {
            let m = members_before(ps, i as int);
            let n = pool_config.upstreams@.len() as int;
            lemma_wrapped_sum(first, m, n);
            assert(members_before(ps, i + 1) == m + n);
        }
        i = i + 1;
    }
    pools
}

proof fn lemma_wrapped_sum(base: usize, a: int, b: int)
    requires
        a >= 0,
        b >= 0,
    ensures
        wrapped(wrapped(base, a), b) == wrapped(base, a + b),
    decreases b,
{
    if b == 0 {
        lemma_wrapped(wrapped(base, a), 0);
    } else {
        lemma_wrapped_sum(base, a, b - 1);
        lemma_wrapped(wrapped(base, a), b - 1);
        lemma_wrapped(base, a + b - 1);
    }
}

fn check_pools_present(config: &ProxyConfig) -> (r: Option<String>)
    ensures
        opt_text(r) == first_missing_pool(*config),
{
    let ghost issues = Seq::new(
        config.routes@.len(),
        |i: int| missing_pool(config.routes@[i], config.upstream_pools@),
    );
    let mut i: usize = 0;
    while i < config.routes.len()
        invariant
            i <= config.routes.len(),
            issues == Seq::new(
                config.routes@.len(),
                |i: int| missing_pool(config.routes@[i], config.upstream_pools@),
            ),
            forall|k: int| 0 <= k < i ==> (#[trigger] issues[k]).is_none(),
        decreases config.routes.len() - i,
    {
        let route = &config.routes[i];
        proof {
            assert(issues[i as int] == missing_pool(*route, config.upstream_pools@));
        }
        if !config.upstream_pools.contains_key(route.upstream_pool.as_str()) {
            proof {
                lemma_first_some_at(issues, i as int);
            }
            return Some(
                cat5(
                    "route '",
                    route.name.as_str(),
                    "' references missing upstream_pool '",
                    route.upstream_pool.as_str(),
                    "'",
                ),
            );
        }
        i = i + 1;
    }
    proof {
        lemma_first_some_none(issues);
    }
    None
}

fn compile_routes(sorted: &Vec<RouteConfig>, pools: &PoolMap) -> (v: Vec<CompiledRoute>)
    requires
        forall|i: int|
            0 <= i < sorted@.len() ==> has_pool(pools@, (#[trigger] sorted@[i]).upstream_pool@),
    ensures
        configs(v@) == sorted@,
        forall|i: int|
            0 <= i < v@.len() ==> (#[trigger] v@[i]).pool < pools@.len() && pools@[v@[i].pool as int].0
                == v@[i].route.upstream_pool@ && v@[i].limited_as_configured(),
{
    let mut v: Vec<CompiledRoute> = Vec::new();
    let mut i: usize = 0;
    while i < sorted.len()
        invariant
            i <= sorted.len(),
            v.len() == i,
            forall|k: int|
                0 <= k < sorted@.len() ==> has_pool(
                    pools@,
                    (#[trigger] sorted@[k]).upstream_pool@,
                ),
            forall|k: int|
                0 <= k < i ==> (#[trigger] v@[k]).route == sorted@[k] && v@[k].pool < pools@.len()
                    && pools@[v@[k].pool as int].0 == v@[k].route.upstream_pool@
                    && v@[k].limited_as_configured(),
        decreases sorted.len() - i,
    {
        let route = sorted[i].clone();
        let rate_limiter = if route.rate_limit.enabled {
            Some(RateLimiter::new(route.rate_limit.capacity, route.rate_limit.fill_rate_bits))
        } else {
            None
        };
        assert(has_pool(pools@, sorted@[i as int].upstream_pool@));
        if let Some(pool) = pools.position(route.upstream_pool.as_str()) {
            v.push(CompiledRoute { route, pool, rate_limiter });
        }
        i = i + 1;
    }
    proof {
        assert(configs(v@) =~= sorted@);
    }
    v
}

proof fn lemma_positions_push(rs: Seq<CompiledRoute>, n: int, key: Option<Seq<char>>)
    requires
        0 <= n < rs.len(),
    ensures
        positions(rs.take(n + 1), key) == if route_key(rs[n].route) == key {
            positions(rs.take(n), key).push(n as usize)
        } else {
            positions(rs.take(n), key)
        },
{
    assert(rs.take(n + 1).drop_last() =~= rs.take(n));
    assert(rs.take(n + 1).last() == rs[n]);
}

proof fn lemma_positions_none(rs: Seq<CompiledRoute>, key: Option<Seq<char>>)
    requires
        forall|k: int| 0 <= k < rs.len() ==> route_key((#[trigger] rs[k]).route) != key,
    ensures
        positions(rs, key) == Seq::<usize>::empty(),
    decreases rs.len(),
{
    if rs.len() > 0 {
        lemma_positions_none(rs.drop_last(), key);
    }
}

fn add_host_route(hosts: &mut Vec<HostRoutes>, key: String, n: usize, routes: &Vec<CompiledRoute>)
    requires
        n < routes.len(),
        hosts_indexed(old(hosts)@, routes@.take(n as int)),
        routes@[n as int].route.host@ != "*"@,
        route_key(routes@[n as int].route) == Some(key@),
        forall|k: int|
            0 <= k < n ==> (#[trigger] routes@[k]).route.host@ == "*"@ || route_key(
                routes@[k].route,
            ).is_some(),
    ensures
        hosts_indexed(final(hosts)@, routes@.take(n + 1)),
{
    let ghost before = hosts@;
    let ghost rs = routes@.take(n as int);
    let ghost next = routes@.take(n + 1);
    let mut i: usize = 0;
    while i < hosts.len()
        invariant
            i <= hosts.len(),
            hosts@ == before,
            n < routes.len(),
            rs == routes@.take(n as int),
            next == routes@.take(n + 1),
            hosts_indexed(before, rs),
            routes@[n as int].route.host@ != "*"@,
            route_key(routes@[n as int].route) == Some(key@),
            forall|k: int| 0 <= k < i ==> (#[trigger] before[k]).host@ != key@,
        decreases hosts.len() - i,
    {
        if str_eq(hosts[i].host.as_str(), key.as_str()) {
            hosts[i].routes.push(n);
            proof {
                assert(hosts@.len() == before.len());
                assert forall|k: int| 0 <= k < hosts@.len() implies (#[trigger] hosts@[k]).routes@
                    == positions(next, Some(hosts@[k].host@)) by {
                    lemma_positions_push(routes@, n as int, Some(hosts@[k].host@));
                    assert(before[k].routes@ == positions(rs, Some(before[k].host@)));
                    if k != i {
                        assert(before[k].host@ != before[i as int].host@);
                    }
                }
                assert forall|k: int, j: int| 0 <= k < j < hosts@.len() implies (
                #[trigger] hosts@[k]).host@ != (#[trigger] hosts@[j]).host@ by {
                    assert(before[k].host@ != before[j].host@);
                }
                assert forall|k: int|
                    0 <= k < next.len() && (#[trigger] next[k]).route.host@
                        != "*"@ implies exists|m: int|
                    0 <= m < hosts@.len() && Some((#[trigger] hosts@[m]).host@) == route_key(
                        next[k].route,
                    ) by {
                    if k < n {
                        assert(rs[k] == next[k]);
                        let m = choose|m: int|
                            0 <= m < before.len() && Some((#[trigger] before[m]).host@)
                                == route_key(rs[k].route);
                        assert(Some(hosts@[m].host@) == route_key(next[k].route));
                    } else {
                        assert(Some(hosts@[i as int].host@) == route_key(next[k].route));
                    }
                }
            }
            return;
        }
        i = i + 1;
    }
    let mut list: Vec<usize> = Vec::new();
    list.push(n);
    hosts.push(HostRoutes { host: key, routes: list });
    proof {
        let last = before.len() as int;
        assert forall|k: int| 0 <= k < rs.len() implies route_key((#[trigger] rs[k]).route) != Some(
            key@,
        ) by {
            assert(rs[k] == routes@[k]);
            if rs[k].route.host@ != "*"@ {
                let m = choose|m: int|
                    0 <= m < before.len() && Some((#[trigger] before[m]).host@) == route_key(
                        rs[k].route,
                    );
                assert(before[m].host@ != key@);
            }
        }
        lemma_positions_none(rs, Some(key@));
        assert forall|k: int| 0 <= k < hosts@.len() implies (#[trigger] hosts@[k]).routes@
            == positions(next, Some(hosts@[k].host@)) by {
            lemma_positions_push(routes@, n as int, Some(hosts@[k].host@));
            if k < last {
                assert(before[k].routes@ == positions(rs, Some(before[k].host@)));
            } else {
                assert(list@ =~= Seq::<usize>::empty().push(n));
            }
        }
        assert forall|k: int, j: int| 0 <= k < j < hosts@.len() implies (
        #[trigger] hosts@[k]).host@ != (#[trigger] hosts@[j]).host@ by {
            if j < last {
                assert(before[k].host@ != before[j].host@);
            } else {
                assert(before[k].host@ != key@);
            }
        }
        assert forall|k: int|
            0 <= k < next.len() && (#[trigger] next[k]).route.host@ != "*"@ implies exists|m: int|
            0 <= m < hosts@.len() && Some((#[trigger] hosts@[m]).host@) == route_key(
                next[k].route,
            ) by {
            if k < n {
                assert(rs[k] == next[k]);
                let m = choose|m: int|
                    0 <= m < before.len() && Some((#[trigger] before[m]).host@) == route_key(
                        rs[k].route,
                    );
                assert(Some(hosts@[m].host@) == route_key(next[k].route));
            } else {
                assert(Some(hosts@[last].host@) == route_key(next[k].route));
            }
        }
    }
}

proof fn lemma_hosts_skip(hs: Seq<HostRoutes>, routes: Seq<CompiledRoute>, n: int)
    requires
        0 <= n < routes.len(),
        hosts_indexed(hs, routes.take(n)),
        routes[n].route.host@ == "*"@,
    ensures
        hosts_indexed(hs, routes.take(n + 1)),
{
    let rs = routes.take(n);
    let next = routes.take(n + 1);
    assert forall|k: int| 0 <= k < hs.len() implies (#[trigger] hs[k]).routes@ == positions(
        next,
        Some(hs[k].host@),
    ) by {
        lemma_positions_push(routes, n, Some(hs[k].host@));
    }
    assert forall|k: int|
        0 <= k < next.len() && (#[trigger] next[k]).route.host@ != "*"@ implies exists|m: int|
        0 <= m < hs.len() && Some((#[trigger] hs[m]).host@) == route_key(next[k].route) by {
        assert(rs[k] == next[k]);
    }
}

proof fn lemma_sorted_routes(c: ProxyConfig)
    ensures
        forall|i: int|
            0 <= i < longest_first(c.routes@).len() ==> c.routes@.contains(
                #[trigger] longest_first(c.routes@)[i],
            ),
{
    broadcast use vstd::seq_lib::group_to_multiset_ensures;

    let s = longest_first(c.routes@);
    sorting_keeps_every_route(c.routes@);
    assert forall|i: int| 0 <= i < s.len() implies c.routes@.contains(#[trigger] s[i]) by {
        assert(s.contains(s[i]));
        assert(s.to_multiset().count(s[i]) > 0);
        assert(c.routes@.to_multiset().count(s[i]) > 0);
    }
}

impl RouteTable {
    /// The table of a configuration: every upstream gets an id, every route its pool, and the
    /// routes are sorted.
    pub fn new(config: &ProxyConfig, ids: &mut UpstreamIds) -> (r: Result<RouteTable, ConfigError>)
        requires
            urls_usable(*config),
            first_missing_pool(*config).is_none() ==> hosts_usable(config.routes@),
        ensures
            final(ids).next == wrapped(
                old(ids).next,
                members_before(config.upstream_pools@, config.upstream_pools@.len() as int),
            ),
            r.is_ok() <==> first_missing_pool(*config).is_none(),
            r matches Err(e) ==> e matches ConfigError::Validation(m) && first_missing_pool(*config)
                == Some(m@),
            r matches Ok(t) ==> t.built_from(*config, old(ids).next),
    {
        let pools = build_pools(config, ids);
        if let Some(m) = check_pools_present(config) {
            return Err(ConfigError::Validation(m));
        }
        let sorted = sort_routes(&config.routes);
        proof {
            let issues = Seq::new(
                config.routes@.len(),
                |i: int| missing_pool(config.routes@[i], config.upstream_pools@),
            );
            lemma_first_some_none(issues);
            lemma_sorted_routes(*config);
            assert forall|i: int| 0 <= i < sorted@.len() implies has_pool(
                config.upstream_pools@,
                (#[trigger] sorted@[i]).upstream_pool@,
            ) by {
                assert(config.routes@.contains(sorted@[i]));
                let j = choose|j: int| 0 <= j < config.routes@.len() && config.routes@[j] == sorted@[i];
                assert(issues[j].is_none());
            }
            assert(hosts_usable(sorted@)) by {
                assert forall|i: int| 0 <= i < sorted@.len() implies (#[trigger] sorted@[i]).host@
                    == "*"@ || host_key(sorted@[i].host@).is_some() by {
                    assert(config.routes@.contains(sorted@[i]));
                    let j = choose|j: int|
                        0 <= j < config.routes@.len() && config.routes@[j] == sorted@[i];
                    assert(config.routes@[j] == sorted@[i]);
                }
            }
        }
        let routes = compile_routes(&sorted, &config.upstream_pools);
        proof {
            assert(configs(routes@) == sorted@);
            assert(routes@.len() == sorted@.len());
            assert(routes@.take(0) =~= Seq::<CompiledRoute>::empty());
            assert forall|i: int| 0 <= i < routes@.len() implies (#[trigger] routes@[i]).route
                == sorted@[i] by {
                assert(configs(routes@)[i] == routes@[i].route);
            }
        }
        let mut host_routes: Vec<HostRoutes> = Vec::new();
        let mut wildcard_routes: Vec<usize> = Vec::new();
        let mut requires_host_match = false;
        let mut i: usize = 0;
        while i < routes.len()
            invariant
                i <= routes.len(),
                routes@.len() == sorted@.len(),
                forall|k: int| 0 <= k < routes@.len() ==> (#[trigger] routes@[k]).route == sorted@[k],
                hosts_usable(sorted@),
                hosts_indexed(host_routes@, routes@.take(i as int)),
                wildcard_routes@ == positions(routes@.take(i as int), None),
                requires_host_match == exists|k: int|
                    0 <= k < i && (#[trigger] routes@[k]).route.host@ != "*"@,
            decreases routes.len() - i,
        {
            proof {
                lemma_positions_push(routes@, i as int, None);
                assert(routes@[i as int].route == sorted@[i as int]);
            }
            if str_eq(routes[i].route.host.as_str(), "*") {
                wildcard_routes.push(i);
                proof {
                    lemma_hosts_skip(host_routes@, routes@, i as int);
                }
            } else {
                requires_host_match = true;
                if let Some(key) = parse_authority_host(routes[i].route.host.as_str()) {
                    proof {
                        assert forall|k: int| 0 <= k < i implies (#[trigger] routes@[k]).route.host@
                            == "*"@ || route_key(routes@[k].route).is_some() by {
                            assert(routes@[k].route == sorted@[k]);
                        }
                    }
                    add_host_route(&mut host_routes, key, i, &routes);
                }
            }
            i = i + 1;
        }
        let single_wildcard_root = routes.len() == 1 && str_eq(routes[0].route.host.as_str(), "*")
            && str_eq(routes[0].route.path_prefix.as_str(), "/");
        proof {
            assert(routes@.take(i as int) =~= routes@);
        }
        Ok(
            RouteTable {
                routes,
                pools,
                host_routes,
                wildcard_routes,
                single_wildcard_root,
                requires_host_match,
            },
        )
    }

    /// Whether some route is for one host only.
    pub fn requires_host_match(&self) -> (r: bool)
        requires
            self.wf(),
        ensures
            r == exists|i: int|
                0 <= i < self.routes@.len() && (#[trigger] self.routes@[i]).route.host@ != "*"@,
    {
        self.requires_host_match
    }

    fn first_of(&self, list: &Vec<usize>, path: &str, key: Ghost<Option<Seq<char>>>) -> (r: Option<
        usize,
    >)
        requires
            list@ == positions(self.routes@, key@),
        ensures
            (match r {
                Some(i) => Some(i as int),
                None => None::<int>,
            }) == first_match(configs(self.routes@), key@, path@, 0),
            r matches Some(i) ==> i < self.routes@.len(),
    {
        let total: usize = self.routes.len();
        proof {
            lemma_positions(self.routes@, key@);
        }
        let mut a: usize = 0;
        while a < list.len()
            invariant
                a <= list.len(),
                list@ == positions(self.routes@, key@),
                total == self.routes@.len(),
                forall|b: int|
                    0 <= b < list@.len() ==> (#[trigger] list@[b]) < self.routes@.len() && route_key(
                        self.routes@[list@[b] as int].route,
                    ) == key@,
                forall|b: int, c: int|
                    0 <= b < c < list@.len() ==> (#[trigger] list@[b]) < (#[trigger] list@[c]),
                forall|i: int|
                    0 <= i < self.routes@.len() && route_key((#[trigger] self.routes@[i]).route)
                        == key@ ==> list@.contains(i as usize),
                forall|b: int|
                    0 <= b < a ==> !path_under(
                        path@,
                        self.routes@[(#[trigger] list@[b]) as int].route.path_prefix@,
                    ),
            decreases list.len() - a,
        {
            let i: usize = list[a];
            if path_matches_prefix(path, self.routes[i].route.path_prefix.as_str()) {
                proof {
                    let rs = configs(self.routes@);
                    assert forall|k: int| 0 <= k < i implies !(route_key(#[trigger] rs[k]) == key@
                        && path_under(path@, rs[k].path_prefix@)) by {
                        if route_key(self.routes@[k].route) == key@ {
                            assert(list@.contains(k as usize));
                            let b = choose|b: int| 0 <= b < list@.len() && list@[b] == k as usize;
                            if b >= a {
                                if b > a {
                                    assert(list@[a as int] < list@[b]);
                                }
                            }
                        }
                    }
                    lemma_first_match_at(rs, key@, path@, 0, i as int);
                }
                return Some(i);
            }
            a = a + 1;
        }
        proof {
            let rs = configs(self.routes@);
            assert forall|k: int| 0 <= k < rs.len() implies !(route_key(#[trigger] rs[k]) == key@
                && path_under(path@, rs[k].path_prefix@)) by {
                if route_key(self.routes@[k].route) == key@ {
                    assert(list@.contains(k as usize));
                    let b = choose|b: int| 0 <= b < list@.len() && list@[b] == k as usize;
                    assert(list@[b] == k as usize);
                }
            }
            lemma_first_match_none(rs, key@, path@, 0);
        }
        None
    }

    fn route_at(&self, index: usize) -> (r: RouteMatch<'_>)
        requires
            self.wf(),
            index < self.routes@.len(),
        ensures
            r.index == index,
            *r.route == self.routes@[index as int].route,
            *r.pool == self.pools@[self.routes@[index as int].pool as int],
            r.rate_limiter.is_some() <==> self.routes@[index as int].rate_limiter.is_some(),
            r.rate_limiter matches Some(l) ==> self.routes@[index as int].rate_limiter == Some(*l),
    {
        let compiled = &self.routes[index];
        RouteMatch {
            index,
            route: &compiled.route,
            pool: &self.pools[compiled.pool],
            rate_limiter: compiled.rate_limiter.as_ref(),
        }
    }

    /// The route for `path` and a host that was looked up.
    pub fn match_lookup(&self, host: &HostLookup, path: &str) -> (r: Option<RouteMatch<'_>>)
        requires
            self.wf(),
        ensures
            r.is_some() <==> chosen_route(configs(self.routes@), host.model(), path@).is_some(),
            r matches Some(m) ==> self.is_match(
                m,
                chosen_route(configs(self.routes@), host.model(), path@),
            ),
    {
        if self.single_wildcard_root {
            return Some(self.route_at(0));
        }
        match host {
            HostLookup::Absent => {},
            HostLookup::Malformed => {
                return None;
            },
            HostLookup::Key(key) => {
                let total: usize = self.routes.len();
                let ghost want: Option<Seq<char>> = Some(key@);
                let mut found = false;
                let mut i: usize = 0;
                while i < self.host_routes.len()
                    invariant_except_break
                        !found,
                    invariant
                        i <= self.host_routes.len(),
                        self.wf(),
                        want == Some(key@),
                        total == self.routes@.len(),
                        !self.single_wildcard_root,
                        host.model() == (true, want),
                        forall|k: int| 0 <= k < i ==> (#[trigger] self.host_routes@[k]).host@ != key@,
                    ensures
                        found ==> first_match(configs(self.routes@), want, path@, 0).is_none(),
                        !found ==> forall|k: int|
                            0 <= k < self.host_routes@.len() ==> (
                            #[trigger] self.host_routes@[k]).host@ != key@,
                    decreases self.host_routes.len() - i,
                {
                    if str_eq(self.host_routes[i].host.as_str(), key.as_str()) {
                        match self.first_of(&self.host_routes[i].routes, path, Ghost(want)) {
                            Some(index) => {
                                return Some(self.route_at(index));
                            },
                            None => {
                                found = true;
                                break;
                            },
                        }
                    }
                    i = i + 1;
                }
                proof {
                    if !found {
                        let rs = configs(self.routes@);
                        assert forall|k: int| 0 <= k < rs.len() implies !(route_key(
                            #[trigger] rs[k],
                        ) == want && path_under(path@, rs[k].path_prefix@)) by {
                            if route_key(self.routes@[k].route) == want {
                                let m = choose|m: int|
                                    0 <= m < self.host_routes@.len() && Some(
                                        (#[trigger] self.host_routes@[m]).host@,
                                    ) == route_key(self.routes@[k].route);
                                assert(self.host_routes@[m].host@ != key@);
                            }
                        }
                        lemma_first_match_none(rs, want, path@, 0);
                    }
                }
            },
        }
        match self.first_of(&self.wildcard_routes, path, Ghost(None)) {
            Some(index) => Some(self.route_at(index)),
            None => None,
        }
    }

    /// `m` is the route at the given position, with its pool and limiter.
    pub open spec fn is_match(&self, m: RouteMatch<'_>, at: Option<int>) -> bool {
        &&& at == Some(m.index as int)
        &&& m.index < self.routes@.len()
        &&& *m.route == self.routes@[m.index as int].route
        &&& *m.pool == self.pools@[self.routes@[m.index as int].pool as int]
        &&& m.rate_limiter.is_some() <==> self.routes@[m.index as int].rate_limiter.is_some()
        &&& m.rate_limiter matches Some(l) ==> self.routes@[m.index as int].rate_limiter == Some(*l)
    }

    /// The route for a request's host header and path.
    pub fn match_route(&self, host: Option<&str>, path: &str) -> (r: Option<RouteMatch<'_>>)
        requires
            self.wf(),
        ensures
            r.is_some() <==> chosen_route(
                configs(self.routes@),
                lookup_of(opt_str(host)),
                path@,
            ).is_some(),
            r matches Some(m) ==> self.is_match(
                m,
                chosen_route(configs(self.routes@), lookup_of(opt_str(host)), path@),
            ),
    {
        let lookup = match host {
            None => HostLookup::Absent,
            Some(h) => match parse_authority_host(h) {
                Some(key) => HostLookup::Key(key),
                None => HostLookup::Malformed,
            },
        };
        self.match_lookup(&lookup, path)
    }

    /// The routes in the order in which they are tried.
    pub fn debug_routes(&self) -> (v: Vec<RouteConfig>)
        ensures
            v@ == configs(self.routes@),
    {
        let mut v: Vec<RouteConfig> = Vec::new();
        let mut i: usize = 0;
        while i < self.routes.len()
            invariant
                i <= self.routes.len(),
                v@ == configs(self.routes@).take(i as int),
            decreases self.routes.len() - i,
        {
            v.push(self.routes[i].route.clone());
            i = i + 1;
            proof {
                let rs = configs(self.routes@);
                assert(rs.take(i as int) =~= rs.take(i - 1).push(rs[i - 1]));
            }
        }
        proof {
            assert(configs(self.routes@).take(i as int) =~= configs(self.routes@));
        }
        v
    }

    /// Whether some route leads to the pool.
    pub open spec fn routed(&self, pool: int) -> bool {
        exists|i: int| 0 <= i < self.routes@.len() && (#[trigger] self.routes@[i]).pool == pool
    }

    /// The upstreams of the first `n` pools that some route leads to, each once.
    pub open spec fn members(&self, n: int) -> Seq<UpstreamRef>
        decreases n,
    {
        if n <= 0 {
            Seq::empty()
        } else if self.routed(n - 1) {
            self.members(n - 1) + refs((n - 1) as usize, self.pools@[n - 1].upstreams@.len())
        } else {
            self.members(n - 1)
        }
    }

    fn is_routed(&self, pool: usize) -> (r: bool)
        ensures
            r == self.routed(pool as int),
    {
        let mut i: usize = 0;
        while i < self.routes.len()
            invariant
                i <= self.routes.len(),
                forall|k: int| 0 <= k < i ==> (#[trigger] self.routes@[k]).pool != pool,
            decreases self.routes.len() - i,
        {
            if self.routes[i].pool == pool {
                return true;
            }
            i = i + 1;
        }
        false
    }

    /// Every upstream that some route leads to, each once.
    pub fn all_upstreams(&self) -> (v: Vec<UpstreamRef>)
        ensures
            v@ == self.members(self.pools@.len() as int),
    {
        let mut v: Vec<UpstreamRef> = Vec::new();
        let mut p: usize = 0;
        while p < self.pools.len()
            invariant
                p <= self.pools.len(),
                v@ == self.members(p as int),
            decreases self.pools.len() - p,
        {
            if self.is_routed(p) {
                let ghost before = v@;
                let n: usize = self.pools[p].upstreams.len();
                let mut k: usize = 0;
                proof {
                    assert(before + refs(p, 0) =~= before);
                }
                while k < n
                    invariant
                        k <= n,
                        v@ == before + refs(p, k as nat),
                    decreases n - k,
                {
                    v.push(UpstreamRef { pool: p, index: k });
                    k = k + 1;
                    proof {
                        assert(v@ =~= before + refs(p, k as nat));
                    }
                }
            }
            p = p + 1;
        }
        v
    }

    /// The upstream at `at`.
    pub fn upstream(&self, at: UpstreamRef) -> (r: &UpstreamState)
        requires
            at.pool < self.pools@.len(),
            at.index < self.pools@[at.pool as int].upstreams@.len(),
        ensures
            *r == self.pools@[at.pool as int].upstreams@[at.index as int],
    {
        &self.pools[at.pool].upstreams[at.index]
    }
}

impl RouteTable {
    /// The pool at position `pool`, to choose from or to note health in.
    ///
    /// Its upstreams and weights are to stay as they are.
    pub fn pool_mut(&mut self, pool: usize) -> (r: &mut UpstreamPool)
        requires
            pool < old(self).pools@.len(),
        ensures
            *r == old(self).pools@[pool as int],
            final(self).pools@ == old(self).pools@.update(pool as int, *final(r)),
            final(self).routes == old(self).routes,
            final(self).host_routes == old(self).host_routes,
            final(self).wildcard_routes == old(self).wildcard_routes,
            final(self).single_wildcard_root == old(self).single_wildcard_root,
            final(self).requires_host_match == old(self).requires_host_match,
    {
        &mut self.pools[pool]
    }

    /// The limiter of the route at position `index`.
    pub fn limiter_mut(&mut self, index: usize) -> (r: Option<&mut RateLimiter>)
        requires
            index < old(self).routes@.len(),
        ensures
            r.is_some() <==> old(self).routes@[index as int].rate_limiter.is_some(),
            r matches Some(l) ==> old(self).routes@[index as int].rate_limiter == Some(*l)
                && final(self).routes@ == old(self).routes@.update(
                index as int,
                (CompiledRoute {
                    rate_limiter: Some(*final(l)),
                    ..old(self).routes@[index as int]
                }),
            ),
            r is None ==> final(self).routes@ == old(self).routes@,
            final(self).pools == old(self).pools,
            final(self).host_routes == old(self).host_routes,
            final(self).wildcard_routes == old(self).wildcard_routes,
            final(self).single_wildcard_root == old(self).single_wildcard_root,
            final(self).requires_host_match == old(self).requires_host_match,
    {
        self.routes[index].rate_limiter.as_mut()
    }
}

/// Whether two lists of upstreams have the same weights.
pub open spec fn same_weights(a: Seq<UpstreamState>, b: Seq<UpstreamState>) -> bool {
    a.len() == b.len() && forall|i: int|
        0 <= i < a.len() ==> (#[trigger] a[i]).config.weight == b[i].config.weight
}

proof fn lemma_same_expansion(a: Seq<UpstreamState>, b: Seq<UpstreamState>)
    requires
        same_weights(a, b),
    ensures
        expansion(a) == expansion(b),
    decreases a.len(),
{
    if a.len() > 0 {
        assert(a[a.len() - 1].config.weight == b[a.len() - 1].config.weight);
        assert(same_weights(a.drop_last(), b.drop_last())) by {
            assert forall|i: int| 0 <= i < a.len() - 1 implies (
            #[trigger] a.drop_last()[i]).config.weight == b.drop_last()[i].config.weight by {
                assert(a[i].config.weight == b[i].config.weight);
            }
        }
        lemma_same_expansion(a.drop_last(), b.drop_last());
    }
}

/// Whether the upstream at `at` became `u` and nothing else changed.
pub open spec fn replaced(
    before: RouteTable,
    after: RouteTable,
    at: UpstreamRef,
    u: UpstreamState,
) -> bool {
    let p = at.pool as int;
    &&& after.pools@.len() == before.pools@.len()
    &&& forall|k: int|
        0 <= k < before.pools@.len() && k != p ==> (#[trigger] after.pools@[k]) == before.pools@[k]
    &&& after.pools@[p].upstreams@ == before.pools@[p].upstreams@.update(at.index as int, u)
    &&& after.pools@[p].expanded == before.pools@[p].expanded
    &&& after.pools@[p].cursor == before.pools@[p].cursor
    &&& after.pools@[p].passive_failure_threshold == before.pools@[p].passive_failure_threshold
    &&& after.routes == before.routes
    &&& after.host_routes == before.host_routes
    &&& after.wildcard_routes == before.wildcard_routes
    &&& after.single_wildcard_root == before.single_wildcard_root
    &&& after.requires_host_match == before.requires_host_match
}

proof fn lemma_replaced_wf(before: RouteTable, after: RouteTable, at: UpstreamRef, u: UpstreamState)
    requires
        before.wf(),
        before.has(at),
        replaced(before, after, at, u),
        u.config == before.at(at).config,
    ensures
        after.wf(),
{
    let p = at.pool as int;
    let a = before.pools@[p].upstreams@;
    let b = after.pools@[p].upstreams@;
    assert(same_weights(a, b)) by {
        assert forall|i: int| 0 <= i < a.len() implies (#[trigger] a[i]).config.weight
            == b[i].config.weight by {
            if i == at.index {
                assert(b[i] == u);
            } else {
                assert(b[i] == a[i]);
            }
        }
    }
    lemma_same_expansion(a, b);
    assert forall|k: int| 0 <= k < after.pools@.len() implies (#[trigger] after.pools@[k]).wf() by {
        assert(before.pools@[k].wf());
    }
}

impl RouteTable {
    /// Whether there is an upstream at `at`.
    pub open spec fn has(&self, at: UpstreamRef) -> bool {
        at.pool < self.pools@.len() && at.index < self.pools@[at.pool as int].upstreams@.len()
    }

    /// The upstream at `at`.
    pub open spec fn at(&self, at: UpstreamRef) -> UpstreamState {
        self.pools@[at.pool as int].upstreams@[at.index as int]
    }

    /// A request to the upstream at `at` failed.
    pub fn mark_failure(&mut self, at: UpstreamRef)
        requires
            old(self).wf(),
            old(self).has(at),
        ensures
            final(self).wf(),
            replaced(
                *old(self),
                *final(self),
                at,
                (UpstreamState {
                    passive_failures: wrapped(old(self).at(at).passive_failures, 1),
                    ..old(self).at(at)
                }),
            ),
    {
        self.pools[at.pool].upstreams[at.index].mark_failure();
        proof {
            lemma_replaced_wf(*old(self), *self, at, self.at(at));
        }
    }

    /// A request to the upstream at `at` succeeded.
    pub fn mark_success(&mut self, at: UpstreamRef)
        requires
            old(self).wf(),
            old(self).has(at),
        ensures
            final(self).wf(),
            replaced(
                *old(self),
                *final(self),
                at,
                (UpstreamState { passive_failures: 0, ..old(self).at(at) }),
            ),
    {
        self.pools[at.pool].upstreams[at.index].mark_success();
        proof {
            lemma_replaced_wf(*old(self), *self, at, self.at(at));
        }
    }

    /// Notes the outcome of an active health check of the upstream at `at`.
    pub fn set_active_healthy(&mut self, at: UpstreamRef, healthy: bool)
        requires
            old(self).wf(),
            old(self).has(at),
        ensures
            final(self).wf(),
            replaced(
                *old(self),
                *final(self),
                at,
                (UpstreamState { active_healthy: healthy, ..old(self).at(at) }),
            ),
    {
        self.pools[at.pool].upstreams[at.index].set_active_healthy(healthy);
        proof {
            lemma_replaced_wf(*old(self), *self, at, self.at(at));
        }
    }

    /// The address of the upstream at `at`: the one found earlier, or else `resolved`, which is
    /// kept.
    pub fn connect_addr(&mut self, at: UpstreamRef, resolved: SocketAddr) -> (r: SocketAddr)
        requires
            old(self).wf(),
            old(self).has(at),
        ensures
            final(self).wf(),
            r == match old(self).at(at).connect_addr {
                Some(known) => known,
                None => resolved,
            },
            replaced(
                *old(self),
                *final(self),
                at,
                (UpstreamState { connect_addr: Some(r), ..old(self).at(at) }),
            ),
    {
        let r = self.pools[at.pool].upstreams[at.index].connect_addr(resolved);
        proof {
            lemma_replaced_wf(*old(self), *self, at, self.at(at));
        }
        r
    }
}

/// The first `n` upstreams of a pool.
pub open spec fn refs(pool: usize, n: nat) -> Seq<UpstreamRef> {
    Seq::new(n, |k: int| UpstreamRef { pool, index: k as usize })
}

proof fn lemma_first_match_at(
    rs: Seq<RouteConfig>,
    key: Option<Seq<char>>,
    path: Seq<char>,
    from: int,
    i: int,
)
    requires
        0 <= from <= i < rs.len(),
        route_key(rs[i]) == key,
        path_under(path, rs[i].path_prefix@),
        forall|k: int|
            from <= k < i ==> !(route_key(#[trigger] rs[k]) == key && path_under(
                path,
                rs[k].path_prefix@,
            )),
    ensures
        first_match(rs, key, path, from) == Some(i),
    decreases i - from,
{
    if from < i {
        lemma_first_match_at(rs, key, path, from + 1, i);
    }
}

proof fn lemma_first_match_none(
    rs: Seq<RouteConfig>,
    key: Option<Seq<char>>,
    path: Seq<char>,
    from: int,
)
    requires
        0 <= from <= rs.len(),
        forall|k: int|
            from <= k < rs.len() ==> !(route_key(#[trigger] rs[k]) == key && path_under(
                path,
                rs[k].path_prefix@,
            )),
    ensures
        first_match(rs, key, path, from).is_none(),
    decreases rs.len() - from,
{
    if from < rs.len() {
        lemma_first_match_none(rs, key, path, from + 1);
    }
}

// ----------------------------------------------------------------------- laws

/// Of the routes found under one key that take a path, one with the longest prefix is chosen.
pub proof fn longest_prefix_wins(
    rs: Seq<RouteConfig>,
    key: Option<Seq<char>>,
    path: Seq<char>,
    i: int,
    j: int,
)
    requires
        descending(rs),
        first_match(rs, key, path, 0) == Some(i),
        0 <= j < rs.len(),
        route_key(rs[j]) == key,
        path_under(path, rs[j].path_prefix@),
    ensures
        0 <= i < rs.len(),
        route_key(rs[i]) == key,
        path_under(path, rs[i].path_prefix@),
        i <= j,
        reach(rs[j]) <= reach(rs[i]),
{
    lemma_first_match(rs, key, path, 0);
}

/// `first_match` is the least position that matches.
pub proof fn lemma_first_match(
    rs: Seq<RouteConfig>,
    key: Option<Seq<char>>,
    path: Seq<char>,
    from: int,
)
    requires
        0 <= from <= rs.len(),
    ensures
        first_match(rs, key, path, from) matches Some(i) ==> from <= i < rs.len() && route_key(
            rs[i],
        ) == key && path_under(path, rs[i].path_prefix@),
        forall|k: int|
            from <= k < rs.len() && (first_match(rs, key, path, from) matches Some(i) ==> k < i)
                ==> !(route_key(#[trigger] rs[k]) == key && path_under(path, rs[k].path_prefix@)),
    decreases rs.len() - from,
{
    if from < rs.len() && !(route_key(rs[from]) == key && path_under(path, rs[from].path_prefix@)) {
        lemma_first_match(rs, key, path, from + 1);
    }
}

/// A route is only ever chosen for a request of its own host, or by the wildcard; and only for
/// a path under its prefix, but for the single route that takes all.
pub proof fn chosen_route_fits(
    rs: Seq<RouteConfig>,
    host: (bool, Option<Seq<char>>),
    path: Seq<char>,
)
    ensures
        chosen_route(rs, host, path) matches Some(i) ==> {
            &&& 0 <= i < rs.len()
            &&& takes_all(rs) || path_under(path, rs[i].path_prefix@)
            &&& route_key(rs[i]).is_none() || (host.0 && route_key(rs[i]) == host.1)
        },
{
    lemma_first_match(rs, host.1, path, 0);
    lemma_first_match(rs, None, path, 0);
}

/// A host's own route goes before every wildcard route.
pub proof fn own_host_goes_first(
    rs: Seq<RouteConfig>,
    key: Seq<char>,
    path: Seq<char>,
    j: int,
)
    requires
        !takes_all(rs),
        0 <= j < rs.len(),
        route_key(rs[j]) == Some(key),
        path_under(path, rs[j].path_prefix@),
    ensures
        chosen_route(rs, (true, Some(key)), path) matches Some(i) && route_key(rs[i]) == Some(key),
{
    lemma_first_match(rs, Some(key), path, 0);
}

/// Where an upstream stands among all those of the pools.
pub open spec fn rank(ps: Seq<(Seq<char>, UpstreamPoolConfig)>, at: UpstreamRef) -> int {
    members_before(ps, at.pool as int) + at.index
}

proof fn lemma_members_grow(ps: Seq<(Seq<char>, UpstreamPoolConfig)>, i: int, j: int)
    requires
        0 <= i <= j <= ps.len(),
    ensures
        0 <= members_before(ps, i) <= members_before(ps, j),
    decreases j,
{
    if i < j {
        lemma_members_grow(ps, i, j - 1);
    } else if i > 0 {
        lemma_members_grow(ps, i - 1, j - 1);
    }
}

/// No two upstreams of a table have the same id, unless there are more upstreams than ids.
pub proof fn upstream_ids_are_unique(
    t: RouteTable,
    c: ProxyConfig,
    first_id: usize,
    a: UpstreamRef,
    b: UpstreamRef,
)
    requires
        t.built_from(c, first_id),
        members_before(c.upstream_pools@, c.upstream_pools@.len() as int) <= usize::MAX + 1,
        a != b,
        a.pool < t.pools@.len(),
        a.index < t.pools@[a.pool as int].upstreams@.len(),
        b.pool < t.pools@.len(),
        b.index < t.pools@[b.pool as int].upstreams@.len(),
    ensures
        t.pools@[a.pool as int].upstreams@[a.index as int].id
            != t.pools@[b.pool as int].upstreams@[b.index as int].id,
{
    let ps = c.upstream_pools@;
    lemma_id_is_rank(t, c, first_id, a);
    lemma_id_is_rank(t, c, first_id, b);
    if a.pool < b.pool {
        lemma_members_grow(ps, a.pool + 1, b.pool as int);
    } else if b.pool < a.pool {
        lemma_members_grow(ps, b.pool + 1, a.pool as int);
    }
    let x = rank(ps, a);
    let y = rank(ps, b);
    assert(x != y);
    lemma_wrapped_distinct(first_id, x, y);
}

proof fn lemma_id_is_rank(t: RouteTable, c: ProxyConfig, first_id: usize, a: UpstreamRef)
    requires
        t.built_from(c, first_id),
        a.pool < t.pools@.len(),
        a.index < t.pools@[a.pool as int].upstreams@.len(),
    ensures
        t.pools@[a.pool as int].upstreams@[a.index as int].id == wrapped(
            first_id,
            rank(c.upstream_pools@, a),
        ),
        0 <= rank(c.upstream_pools@, a) < members_before(
            c.upstream_pools@,
            c.upstream_pools@.len() as int,
        ),
{
    let ps = c.upstream_pools@;
    let p = t.pools@[a.pool as int];
    assert(p.fresh(ps[a.pool as int].1, wrapped(first_id, members_before(ps, a.pool as int))));
    lemma_members_grow(ps, 0, a.pool as int);
    lemma_members_grow(ps, a.pool + 1, ps.len() as int);
    lemma_wrapped_sum(first_id, members_before(ps, a.pool as int), a.index as int);
    assert(p.upstreams@[a.index as int].fresh(
        ps[a.pool as int].1.upstreams@[a.index as int],
        wrapped(wrapped(first_id, members_before(ps, a.pool as int)), a.index as int),
    ));
}

proof fn lemma_wrapped_distinct(base: usize, x: int, y: int)
    requires
        0 <= x <= usize::MAX,
        0 <= y <= usize::MAX,
        x != y,
    ensures
        wrapped(base, x) != wrapped(base, y),
{
    let m = usize::MAX + 1;
    if wrapped(base, x) == wrapped(base, y) {
        vstd::arithmetic::div_mod::lemma_mod_bound(base + x, m);
        vstd::arithmetic::div_mod::lemma_mod_bound(base + y, m);
        assert((base + x) % m == (base + y) % m);
        vstd::arithmetic::div_mod::lemma_fundamental_div_mod(base + x, m);
        vstd::arithmetic::div_mod::lemma_fundamental_div_mod(base + y, m);
        let p = (base + x) / m;
        let q = (base + y) / m;
        assert(x - y == m * (p - q)) by (nonlinear_arith)
            requires
                base + x == m * p + (base + x) % m,
                base + y == m * q + (base + y) % m,
                (base + x) % m == (base + y) % m,
        ;
        assert(p == q) by (nonlinear_arith)
            requires
                x - y == m * (p - q),
                -m < x - y < m,
                m > 0,
        ;
        assert(m * (p - q) == 0) by (nonlinear_arith)
            requires
                p == q,
        ;
    }
}

/// The list of all upstreams holds an upstream just where some route leads to its pool, and
/// holds none twice.
pub proof fn every_routed_upstream_once(t: RouteTable, n: int)
    requires
        0 <= n <= t.pools@.len() <= usize::MAX,
        forall|i: int| 0 <= i < t.pools@.len() ==> (#[trigger] t.pools@[i]).upstreams@.len() <= usize::MAX,
    ensures
        t.members(n).no_duplicates(),
        forall|at: UpstreamRef|
            #![trigger t.members(n).contains(at)]
            t.members(n).contains(at) <==> at.pool < n && t.routed(at.pool as int) && at.index
                < t.pools@[at.pool as int].upstreams@.len(),
    decreases n,
{
    if n > 0 {
        every_routed_upstream_once(t, n - 1);
        let old_list = t.members(n - 1);
        let list = t.members(n);
        if t.routed(n - 1) {
            let p = (n - 1) as usize;
            let size = t.pools@[n - 1].upstreams@.len();
            let tail = refs(p, size);
            assert forall|at: UpstreamRef|
                #![trigger list.contains(at)]
                list.contains(at) <==> at.pool < n && t.routed(at.pool as int) && at.index
                    < t.pools@[at.pool as int].upstreams@.len() by {
                if list.contains(at) {
                    let k = choose|k: int| 0 <= k < list.len() && list[k] == at;
                    if k < old_list.len() {
                        assert(old_list[k] == at);
                        assert(old_list.contains(at));
                    } else {
                        assert(tail[k - old_list.len()] == at);
                    }
                }
                if at.pool < n && t.routed(at.pool as int) && at.index
                    < t.pools@[at.pool as int].upstreams@.len() {
                    if at.pool < n - 1 {
                        assert(old_list.contains(at));
                        let k = choose|k: int| 0 <= k < old_list.len() && old_list[k] == at;
                        assert(list[k] == at);
                    } else {
                        assert(list[old_list.len() + at.index] == at);
                    }
                }
            }
            assert forall|i: int, j: int|
                0 <= i < list.len() && 0 <= j < list.len() && i != j implies list[i] != list[j] by {
                if i < old_list.len() && j < old_list.len() {
                    assert(old_list[i] != old_list[j]);
                } else if i < old_list.len() {
                    assert(old_list.contains(old_list[i]));
                } else if j < old_list.len() {
                    assert(old_list.contains(old_list[j]));
                }
            }
        }
    }
}

// ---------------------------------------------------------------- what routing does

/// A path is under a prefix other than `/` where it is the prefix itself, and where `/` or `?`
/// follows the prefix; whatever else follows makes it another segment.
pub proof fn prefixes_end_at_segments(p: Seq<char>, c: char, t: Seq<char>)
    requires
        p != seq!['/'],
    ensures
        path_under(p, p),
        path_under(p + seq![c] + t, p) <==> c == '/' || c == '?',
{
    reveal_strlit("/");
    assert("/"@ =~= seq!['/']);
    let path = p + seq![c] + t;
    assert(path.take(p.len() as int) =~= p);
    assert(path[p.len() as int] == c);
    assert(path.len() != p.len());
}

/// A path that does not begin with a prefix is not under it.
pub proof fn other_paths_are_not_under_a_prefix(path: Seq<char>, p: Seq<char>, i: int)
    requires
        p != seq!['/'],
        path.len() < p.len() || (0 <= i < p.len() <= path.len() && path[i] != p[i]),
    ensures
        !path_under(path, p),
{
    reveal_strlit("/");
    assert("/"@ =~= seq!['/']);
    if path.len() >= p.len() {
        assert(path.take(p.len() as int)[i] == path[i]);
    }
}

/// The prefix `/` takes every path that begins with it, and no other.
pub proof fn the_root_takes_absolute_paths(path: Seq<char>)
    ensures
        path_under(path, seq!['/']) <==> path.len() > 0 && path[0] == '/',
{
    reveal_strlit("/");
    assert("/"@ =~= seq!['/']);
    if path.len() > 0 {
        assert(path.take(1)[0] == path[0]);
        if path[0] == '/' {
            assert(path.take(1) =~= "/"@);
        }
    }
}

/// Routes are tried with longer prefixes first, by their length in bytes.
pub proof fn longer_prefixes_are_tried_first(s: Seq<RouteConfig>, i: int, j: int)
    requires
        0 <= i < j < s.len(),
    ensures
        longest_first(s).len() == s.len(),
        encode_utf8(longest_first(s)[i].path_prefix@).len() >= encode_utf8(
            longest_first(s)[j].path_prefix@,
        ).len(),
{
    sorting_keeps_every_route(s);
    assert(reach(longest_first(s)[i]) >= reach(longest_first(s)[j]));
}

/// A single route for `*` on `/` takes every request, whatever its host and path are.
pub proof fn a_single_wildcard_root_takes_all(
    r: RouteConfig,
    host: (bool, Option<Seq<char>>),
    path: Seq<char>,
)
    requires
        r.host@ == seq!['*'],
        r.path_prefix@ == seq!['/'],
    ensures
        chosen_route(seq![r], host, path) == Some(0int),
{
    reveal_strlit("*");
    reveal_strlit("/");
    assert("*"@ =~= seq!['*']);
    assert("/"@ =~= seq!['/']);
}

/// Where several routes are there: a request with a malformed host gets none of them; a request
/// gets one just where a route of its host, or one for `*`, takes its path, and then the first
/// of those of its host, or else the first of those for `*`.
pub proof fn requests_get_the_first_route_that_fits(
    rs: Seq<RouteConfig>,
    key: Seq<char>,
    path: Seq<char>,
    j: int,
)
    requires
        rs.len() > 1,
        0 <= j < rs.len(),
        path_under(path, rs[j].path_prefix@),
    ensures
        chosen_route(rs, (true, None), path) is None,
        rs[j].host@ == seq!['*'] ==> chosen_route(rs, (false, None), path) is Some
            && chosen_route(rs, (true, Some(key)), path) is Some,
        rs[j].host@ != seq!['*'] && host_key(rs[j].host@) == Some(key) ==> (chosen_route(
            rs,
            (true, Some(key)),
            path,
        ) matches Some(i) && i <= j && rs[i].host@ != seq!['*'] && host_key(rs[i].host@) == Some(
            key,
        ) && path_under(path, rs[i].path_prefix@)),
        rs[j].host@ == seq!['*'] ==> (chosen_route(rs, (false, None), path) matches Some(i) && i
            <= j && path_under(path, rs[i].path_prefix@)),
        chosen_route(rs, (true, Some(key)), path) matches Some(i) ==> 0 <= i < rs.len()
            && path_under(path, rs[i].path_prefix@),
{
    reveal_strlit("*");
    assert("*"@ =~= seq!['*']);
    lemma_first_match(rs, Some(key), path, 0);
    lemma_first_match(rs, None, path, 0);
    assert(route_key(rs[j]) == route_key(rs[j]));
}

/// A route of another host never takes a request.
pub proof fn routes_of_other_hosts_are_passed_over(
    rs: Seq<RouteConfig>,
    key: Seq<char>,
    path: Seq<char>,
)
    ensures
        chosen_route(rs, (true, Some(key)), path) matches Some(i) ==> rs[i].host@ == seq!['*']
            || host_key(rs[i].host@) == Some(key) || host_key(rs[i].host@) is None,
        chosen_route(rs, (false, None), path) matches Some(i) ==> rs[i].host@ == seq!['*']
            || host_key(rs[i].host@) is None,
        lookup_of(None) == (false, None::<Seq<char>>),
        lookup_of(Some(key)) == (true, host_key(key)),
{
    reveal_strlit("*");
    assert("*"@ =~= seq!['*']);
    chosen_route_fits(rs, (true, Some(key)), path);
    chosen_route_fits(rs, (false, None), path);
}

/// In a table each route leads to the pool of its name, whose upstreams are those of the
/// configuration and have not failed; a route has a limiter just where it asks for one.
pub proof fn tables_lead_to_the_named_pools(
    t: RouteTable,
    c: ProxyConfig,
    first_id: usize,
    i: int,
    u: int,
)
    requires
        t.built_from(c, first_id),
        0 <= i < t.routes@.len(),
        0 <= u < t.pools@[t.routes@[i].pool as int].upstreams@.len(),
    ensures
        t.routes@.len() == c.routes@.len(),
        t.routes@[i].pool < c.upstream_pools@.len(),
        c.upstream_pools@[t.routes@[i].pool as int].0 == t.routes@[i].route.upstream_pool@,
        t.routes@[i].rate_limiter is Some <==> t.routes@[i].route.rate_limit.enabled,
        t.routes@[i].rate_limiter matches Some(l) ==> l.capacity
            == t.routes@[i].route.rate_limit.capacity && l.fill_rate_bits
            == t.routes@[i].route.rate_limit.fill_rate_bits && l.shards@.len() == 32
            && l.shards@[0]@.len() == 0 && l.shards@[31]@.len() == 0,
        ({
            let pool = t.pools@[t.routes@[i].pool as int];
            let config = c.upstream_pools@[t.routes@[i].pool as int].1;
            &&& pool.upstreams@.len() == config.upstreams@.len()
            &&& pool.upstreams@[u].config == config.upstreams@[u]
            &&& pool.upstreams@[u].passive_failures == 0
            &&& pool.upstreams@[u].active_healthy
            &&& pool.passive_failure_threshold == config.passive_failure_threshold
            &&& pool.cursor == 0
        }),
{
    sorting_keeps_every_route(c.routes@);
    assert(configs(t.routes@).len() == t.routes@.len());
    let p = t.routes@[i].pool as int;
    assert(t.routes@[i].limited_as_configured());
    assert(t.pools@[p].fresh(
        c.upstream_pools@[p].1,
        wrapped(first_id, members_before(c.upstream_pools@, p)),
    ));
    assert(t.pools@[p].upstreams@[u].fresh(
        c.upstream_pools@[p].1.upstreams@[u],
        wrapped(wrapped(first_id, members_before(c.upstream_pools@, p)), u),
    ));
}

/// A table needs hosts just where some route is for one host only, and takes all just where its
/// only route is for `*` on `/`.
pub proof fn tables_know_their_routes(t: RouteTable)
    requires
        t.wf(),
    ensures
        t.requires_host_match <==> exists|i: int|
            0 <= i < t.routes@.len() && (#[trigger] t.routes@[i]).route.host@ != seq!['*'],
        t.single_wildcard_root <==> t.routes@.len() == 1 && t.routes@[0].route.host@ == seq!['*']
            && t.routes@[0].route.path_prefix@ == seq!['/'],
{
    reveal_strlit("*");
    reveal_strlit("/");
    assert("*"@ =~= seq!['*']);
    assert("/"@ =~= seq!['/']);
    assert(configs(t.routes@).len() == t.routes@.len());
    if t.routes@.len() == 1 {
        assert(configs(t.routes@)[0] == t.routes@[0].route);
    }
    if t.requires_host_match {
        let i = choose|i: int|
            0 <= i < t.routes@.len() && (#[trigger] t.routes@[i]).route.host@ != "*"@;
        assert(t.routes@[i].route.host@ != seq!['*']);
    }
}

/// A path is under a prefix where it is the prefix, or goes on behind it with a new segment or a
/// query; every path from the root is under `/`.
pub proof fn paths_are_matched_by_segment(path: &str, prefix: &str, r: bool, c: char, t: Seq<char>)
    requires
        call_ensures(path_matches_prefix, (path, prefix), r),
    ensures
        prefix@ == seq!['/'] ==> (r <==> path@.len() > 0 && path@[0] == '/'),
        path@ == prefix@ && prefix@.len() > 0 && prefix@[0] == '/' ==> r,
        prefix@ != seq!['/'] && path@ == prefix@ + seq![c] + t ==> (r <==> c == '/' || c == '?'),
        prefix@ != seq!['/'] && path@.len() < prefix@.len() ==> !r,
        prefix@ != seq!['/'] && path@.len() >= prefix@.len() && path@.take(prefix@.len() as int)
            != prefix@ ==> !r,
{
    reveal_strlit("/");
    assert("/"@ =~= seq!['/']);
    the_root_takes_absolute_paths(path@);
    if prefix@ != seq!['/'] {
        prefixes_end_at_segments(prefix@, c, t);
        if path@.len() < prefix@.len() {
            other_paths_are_not_under_a_prefix(path@, prefix@, 0);
        } else if path@ == prefix@ {
            assert(path@.take(prefix@.len() as int) =~= prefix@);
        }
    }
}

/// A request gets a route whose prefix its path is under, with the pool and the limiter of that
/// route.
pub proof fn matches_fit_the_request(
    table: RouteTable,
    host: Option<&str>,
    path: &str,
    r: Option<RouteMatch<'_>>,
    j: int,
)
    requires
        table.wf(),
        table.routes@.len() > 1,
        call_ensures(RouteTable::match_route, (&table, host, path), r),
        0 <= j < table.routes@.len(),
    ensures
        r matches Some(m) ==> {
            &&& m.index < table.routes@.len()
            &&& *m.route == table.routes@[m.index as int].route
            &&& path_under(path@, m.route.path_prefix@)
            &&& *m.pool == table.pools@[table.routes@[m.index as int].pool as int]
            &&& m.rate_limiter is Some <==> table.routes@[m.index as int].rate_limiter is Some
        },
        host is None && table.routes@[j].route.host@ == seq!['*'] && path_under(
            path@,
            table.routes@[j].route.path_prefix@,
        ) ==> (r matches Some(m) && m.index <= j),
{
    reveal_strlit("*");
    assert("*"@ =~= seq!['*']);
    let rs = configs(table.routes@);
    assert(rs.len() == table.routes@.len());
    assert(rs[j] == table.routes@[j].route);
    lemma_first_match(rs, None, path@, 0);
    if let Some(key) = lookup_of(opt_str(host)).1 {
        lemma_first_match(rs, Some(key), path@, 0);
    }
    if path_under(path@, rs[j].path_prefix@) {
        requests_get_the_first_route_that_fits(rs, Seq::empty(), path@, j);
    }
}

/// What a table shows of its routes is each of them, in order.
pub proof fn tables_show_their_routes(table: RouteTable, v: Vec<RouteConfig>, i: int)
    requires
        call_ensures(RouteTable::debug_routes, (&table,), v),
        0 <= i < table.routes@.len(),
    ensures
        v@.len() == table.routes@.len(),
        v@[i] == table.routes@[i].route,
{
}

/// A route to a pool that is not there is told by its name.
pub proof fn missing_pools_in_words(c: ProxyConfig, r: RouteConfig)
    ensures
        !has_pool(c.upstream_pools@, r.upstream_pool@) ==> missing_pool(r, c.upstream_pools@)
            == Some(
            "route '"@ + r.name@ + "' references missing upstream_pool '"@ + r.upstream_pool@
                + "'"@,
        ),
        has_pool(c.upstream_pools@, r.upstream_pool@) ==> missing_pool(r, c.upstream_pools@)
            is None,
{
}

/// A request that names no host looks among all routes for `*` only; one that names a host by a
/// key looks among its own first; one whose host cannot be read finds none.
pub proof fn lookups_are_by_key(key: String, rs: Seq<RouteConfig>, path: Seq<char>)
    requires
        rs.len() > 1,
    ensures
        HostLookup::Absent.model() == (false, None::<Seq<char>>),
        HostLookup::Key(key).model() == (true, Some(key@)),
        HostLookup::Malformed.model() == (true, None::<Seq<char>>),
        chosen_route(rs, HostLookup::Malformed.model(), path) is None,
{
}

} // verus!
