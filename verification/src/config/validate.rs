//! The rules of a configuration, in the order in which they are checked.

use crate::config::pools::has_pool;
use crate::config::types::{
    ConfigError, Http1Engine, L4RealServerConfig, L4ServiceConfig, ListenerConfig, ListenerProtocol,
    ProxyConfig, RouteConfig, UpstreamConfig, UpstreamPoolConfig, UpstreamProtocol,
};
use crate::text::{cat, cat3, cat5, decimal, decimal_text, has_prefix, starts_with, str_eq};
use crate::uri::{
    host_key, opt_text, parse_authority_host, parse_uri, parsed_uri, UriParts,
};
use vstd::prelude::*;
use vstd::string::*;

verus! {

/// The greatest weight of one upstream.
pub const MAX_UPSTREAM_WEIGHT: u32 = 10_000;

/// The greatest sum of the weights of a pool.
pub const MAX_TOTAL_POOL_WEIGHT: u64 = 100_000;

/// The first of the values that is there.
pub open spec fn first_some<T>(s: Seq<Option<T>>) -> Option<T>
    decreases s.len(),
{
    if s.len() == 0 {
        None
    } else if s[0].is_some() {
        s[0]
    } else {
        first_some(s.skip(1))
    }
}

/// `first_some` is the value at the first position that has one.
pub proof fn lemma_first_some_at<T>(s: Seq<Option<T>>, i: int)
    requires
        0 <= i < s.len(),
        s[i].is_some(),
        forall|j: int| 0 <= j < i ==> (#[trigger] s[j]).is_none(),
    ensures
        first_some(s) == s[i],
    decreases i,
{
    if i > 0 {
        assert(s[0].is_none());
        assert forall|j: int| 0 <= j < i - 1 implies (#[trigger] s.skip(1)[j]).is_none() by {
            assert(s.skip(1)[j] == s[j + 1]);
        }
        lemma_first_some_at(s.skip(1), i - 1);
    }
}

/// Where no position has a value there is no first one, and the other way round.
pub proof fn lemma_first_some_none<T>(s: Seq<Option<T>>)
    ensures
        first_some(s).is_none() <==> forall|j: int| 0 <= j < s.len() ==> (#[trigger] s[j]).is_none(),
    decreases s.len(),
{
    if s.len() > 0 {
        lemma_first_some_none(s.skip(1));
        if s[0].is_none() {
            if first_some(s.skip(1)).is_none() {
                assert forall|j: int| 0 <= j < s.len() implies (#[trigger] s[j]).is_none() by {
                    if j > 0 {
                        assert(s.skip(1)[j - 1] == s[j]);
                    }
                }
            } else {
                let k = choose|k: int| 0 <= k < s.skip(1).len() && (#[trigger] s.skip(1)[k]).is_some();
                assert(s[k + 1].is_some());
            }
        }
    }
}

// ------------------------------------------------------------------ the rules

/// What is wrong with listener `i`, given those before it.
pub open spec fn listener_issue(ls: Seq<ListenerConfig>, i: int) -> Option<Seq<char>> {
    let l = ls[i];
    let own_engine = l.http1_engine == Http1Engine::Fast || l.http1_engine == Http1Engine::Uring;
    if exists|j: int| 0 <= j < i && (#[trigger] ls[j]).name@ == l.name@ {
        Some("duplicate listener name '"@ + l.name@ + "'"@)
    } else if l.protocols@.len() == 0 {
        Some("listener '"@ + l.name@ + "' must enable at least one protocol"@)
    } else if own_engine && l.tls {
        Some(
            "listener '"@ + l.name@ + "' http1_engine = "@ + l.http1_engine.text()
                + " requires tls = false"@,
        )
    } else if own_engine && l.protocols@ != seq![ListenerProtocol::H1] {
        Some(
            "listener '"@ + l.name@ + "' http1_engine = "@ + l.http1_engine.text()
                + " requires protocols = [\"h1\"]"@,
        )
    } else if l.accept_workers > 1 && !l.reuse_port {
        Some("listener '"@ + l.name@ + "' must enable reuse_port when accept_workers > 1"@)
    } else if l.backlog == 0 {
        Some("listener '"@ + l.name@ + "' backlog must be > 0"@)
    } else {
        None
    }
}

/// What is wrong with real server `i` of a service.
pub open spec fn real_server_issue(service: Seq<char>, r: L4RealServerConfig) -> Option<Seq<char>> {
    let place = "real_server '"@ + r.address.text() + ":"@ + decimal(r.port as nat)
        + "' in l4_service '"@ + service;
    if r.port == 0 {
        Some(place + "' port must be > 0"@)
    } else if r.weight == 0 {
        Some(place + "' weight must be > 0"@)
    } else {
        None
    }
}

/// The address of a listener clashes with that of a service.
pub open spec fn clash_issue(s: L4ServiceConfig, l: ListenerConfig) -> Option<Seq<char>> {
    if l.bind.spec_ip() == s.vip && l.bind.spec_port() == s.port {
        Some(
            "l4_service '"@ + s.name@ + "' conflicts with listener '"@ + l.name@ + "' on "@
                + s.vip.text() + ":"@ + decimal(s.port as nat),
        )
    } else {
        None
    }
}

/// What is wrong with service `i`, given those before it and the listeners.
pub open spec fn service_issue(
    ss: Seq<L4ServiceConfig>,
    ls: Seq<ListenerConfig>,
    i: int,
) -> Option<Seq<char>> {
    let s = ss[i];
    let clash = first_some(Seq::new(ls.len(), |k: int| clash_issue(s, ls[k])));
    if exists|j: int| 0 <= j < i && (#[trigger] ss[j]).name@ == s.name@ {
        Some("duplicate l4_service name '"@ + s.name@ + "'"@)
    } else if s.domains@.len() == 0 {
        Some("l4_service '"@ + s.name@ + "' must list at least one domain"@)
    } else if s.port == 0 {
        Some("l4_service '"@ + s.name@ + "' port must be > 0"@)
    } else if exists|j: int|
        0 <= j < i && (#[trigger] ss[j]).vip == s.vip && ss[j].port == s.port && ss[j].protocol
            == s.protocol {
        Some(
            "duplicate l4_service vip/port/protocol '"@ + s.vip.text() + ":"@ + decimal(
                s.port as nat,
            ) + " "@ + s.protocol.text() + "'"@,
        )
    } else if clash.is_some() {
        clash
    } else if s.real_servers@.len() == 0 {
        Some("l4_service '"@ + s.name@ + "' must contain at least one real_server"@)
    } else {
        first_some(
            Seq::new(
                s.real_servers@.len(),
                |k: int| real_server_issue(s.name@, s.real_servers@[k]),
            ),
        )
    }
}

/// Whether the bits are those of a finite number above zero.
pub open spec fn positive_finite(bits: u32) -> bool {
    0 < bits < 0x7f80_0000
}

/// What is wrong with route `i`, given those before it, whether its host is one that requests
/// can name, and whether its pool is there.
pub open spec fn route_issue_given(
    rs: Seq<RouteConfig>,
    i: int,
    host_ok: bool,
    pool_ok: bool,
) -> Option<Seq<char>> {
    let r = rs[i];
    if exists|j: int| 0 <= j < i && (#[trigger] rs[j]).name@ == r.name@ {
        Some("duplicate route name '"@ + r.name@ + "'"@)
    } else if !has_prefix(r.path_prefix@, "/"@) {
        Some("route '"@ + r.name@ + "' path_prefix must start with /"@)
    } else if r.host@ != "*"@ && !host_ok {
        Some(
            "route '"@ + r.name@ + "' host '"@ + r.host@ + "' must be a valid HTTP authority host"@,
        )
    } else if !pool_ok {
        Some(
            "route '"@ + r.name@ + "' references missing upstream_pool '"@ + r.upstream_pool@
                + "'"@,
        )
    } else if r.rate_limit.enabled && r.rate_limit.capacity == 0 {
        Some("route '"@ + r.name@ + "' rate_limit capacity must be > 0"@)
    } else if r.rate_limit.enabled && !positive_finite(r.rate_limit.fill_rate_bits) {
        Some("route '"@ + r.name@ + "' rate_limit fill_rate must be finite and > 0"@)
    } else {
        None
    }
}

/// What is wrong with route `i` of the configuration.
pub open spec fn route_issue(
    rs: Seq<RouteConfig>,
    pools: Seq<(Seq<char>, UpstreamPoolConfig)>,
    i: int,
) -> Option<Seq<char>> {
    route_issue_given(
        rs,
        i,
        host_key(rs[i].host@).is_some(),
        has_pool(pools, rs[i].upstream_pool@),
    )
}

/// What is wrong with an upstream of the pool called `pool`, given what its URL reads as.
pub open spec fn upstream_issue_given(
    pool: Seq<char>,
    u: UpstreamConfig,
    uri: Option<(Option<Seq<char>>, Option<Seq<char>>, Seq<char>, Option<Seq<char>>, Option<u16>, Seq<char>)>,
) -> Option<Seq<char>> {
    let place = "upstream '"@ + u.name@ + "' in pool '"@ + pool;
    if u.weight == 0 {
        Some(place + "' must have weight > 0"@)
    } else if u.weight > MAX_UPSTREAM_WEIGHT {
        Some(place + "' weight must be <= "@ + "10000"@)
    } else {
        match uri {
            None => Some(place + "' has invalid url '"@ + u.url@ + "'"@),
            Some((scheme, authority, _, _, _, _)) => {
                if scheme.is_none() || authority.is_none() {
                    Some(place + "' url must include scheme and authority"@)
                } else if scheme != Some("http"@) {
                    Some(
                        place
                            + "' url scheme must be http until upstream TLS is implemented"@,
                    )
                } else if u.protocol == UpstreamProtocol::H3 && !u.opt_in_h3 {
                    Some(
                        "upstream '"@ + u.name@ + "' uses protocol h3 but opt_in_h3 is not true"@,
                    )
                } else {
                    None
                }
            },
        }
    }
}

/// What is wrong with an upstream of the pool called `pool`.
pub open spec fn upstream_issue(pool: Seq<char>, u: UpstreamConfig) -> Option<Seq<char>> {
    upstream_issue_given(pool, u, parsed_uri(u.url@))
}

/// The sum of the weights.
pub open spec fn total_weight(us: Seq<UpstreamConfig>) -> nat
    decreases us.len(),
{
    if us.len() == 0 {
        0
    } else {
        total_weight(us.drop_last()) + us.last().weight as nat
    }
}

/// What is wrong with the pool called `name`.
pub open spec fn pool_issue(name: Seq<char>, p: UpstreamPoolConfig) -> Option<Seq<char>> {
    let members = first_some(
        Seq::new(p.upstreams@.len(), |k: int| upstream_issue(name, p.upstreams@[k])),
    );
    if p.upstreams@.len() == 0 {
        Some("upstream pool '"@ + name + "' must contain at least one upstream"@)
    } else if members.is_some() {
        members
    } else if total_weight(p.upstreams@) > MAX_TOTAL_POOL_WEIGHT {
        Some("upstream pool '"@ + name + "' total weight must be <= "@ + "100000"@)
    } else {
        None
    }
}

/// The configuration serves nothing, or serves listeners without routes.
pub open spec fn shape_issue(c: ProxyConfig) -> Option<Seq<char>> {
    if c.listeners@.len() == 0 && c.l4_services@.len() == 0 {
        Some("at least one listener or l4_service must be configured"@)
    } else if c.listeners@.len() > 0 && c.routes@.len() == 0 {
        Some("at least one route must be configured when listeners are configured"@)
    } else {
        None
    }
}

/// The admin token is there but empty.
pub open spec fn admin_issue(c: ProxyConfig) -> Option<Seq<char>> {
    if opt_text(c.admin.auth_token) == Some(Seq::<char>::empty()) {
        Some("admin auth_token must not be empty when configured"@)
    } else {
        None
    }
}

/// What is wrong with the listeners: the first complaint.
pub open spec fn listeners_issue(c: ProxyConfig) -> Option<Seq<char>> {
    first_some(Seq::new(c.listeners@.len(), |i: int| listener_issue(c.listeners@, i)))
}

/// What is wrong with the layer-4 services: the first complaint.
pub open spec fn services_issue(c: ProxyConfig) -> Option<Seq<char>> {
    first_some(
        Seq::new(c.l4_services@.len(), |i: int| service_issue(c.l4_services@, c.listeners@, i)),
    )
}

/// What is wrong with the routes: the first complaint.
pub open spec fn routes_issue(c: ProxyConfig) -> Option<Seq<char>> {
    first_some(Seq::new(c.routes@.len(), |i: int| route_issue(c.routes@, c.upstream_pools@, i)))
}

/// What is wrong with the pools, in the order of their names: the first complaint.
pub open spec fn pools_issue(c: ProxyConfig) -> Option<Seq<char>> {
    first_some(
        Seq::new(
            c.upstream_pools@.len(),
            |i: int| pool_issue(c.upstream_pools@[i].0, c.upstream_pools@[i].1),
        ),
    )
}

/// What is wrong with the configuration: the first complaint in the order shape, listeners,
/// services, routes, pools, admin.
pub open spec fn config_issue(c: ProxyConfig) -> Option<Seq<char>> {
    first_some(
        seq![
            shape_issue(c),
            listeners_issue(c),
            services_issue(c),
            routes_issue(c),
            pools_issue(c),
            admin_issue(c),
        ],
    )
}

// ----------------------------------------------------------------- the checks

fn is_h1_only(p: &Vec<ListenerProtocol>) -> (r: bool)
    ensures
        r == (p@ == seq![ListenerProtocol::H1]),
{
    let r = p.len() == 1 && p[0] == ListenerProtocol::H1;
    proof {
        if r {
            assert(p@ =~= seq![ListenerProtocol::H1]);
        }
    }
    r
}

/// Checks listener `i` against the rules for listeners.
pub fn check_listener(ls: &Vec<ListenerConfig>, i: usize) -> (r: Option<String>)
    requires
        i < ls.len(),
    ensures
        opt_text(r) == listener_issue(ls@, i as int),
{
    let l = &ls[i];
    let name = l.name.as_str();
    let mut j: usize = 0;
    while j < i
        invariant
            j <= i < ls.len(),
            l == ls@[i as int],
            name@ == l.name@,
            forall|k: int| 0 <= k < j ==> (#[trigger] ls@[k]).name@ != l.name@,
        decreases i - j,
    {
        if str_eq(ls[j].name.as_str(), name) {
            return Some(cat3("duplicate listener name '", name, "'"));
        }
        j = j + 1;
    }
    if l.protocols.is_empty() {
        return Some(cat3("listener '", name, "' must enable at least one protocol"));
    }
    if l.http1_engine == Http1Engine::Fast || l.http1_engine == Http1Engine::Uring {
        if l.tls {
            return Some(
                cat5(
                    "listener '",
                    name,
                    "' http1_engine = ",
                    l.http1_engine.as_str(),
                    " requires tls = false",
                ),
            );
        }
        if !is_h1_only(&l.protocols) {
            return Some(
                cat5(
                    "listener '",
                    name,
                    "' http1_engine = ",
                    l.http1_engine.as_str(),
                    " requires protocols = [\"h1\"]",
                ),
            );
        }
    }
    if l.accept_workers > 1 && !l.reuse_port {
        return Some(
            cat3("listener '", name, "' must enable reuse_port when accept_workers > 1"),
        );
    }
    if l.backlog == 0 {
        return Some(cat3("listener '", name, "' backlog must be > 0"));
    }
    None
}

/// Checks one real server of the service called `service`.
pub fn check_real_server(service: &str, r: &L4RealServerConfig) -> (m: Option<String>)
    ensures
        opt_text(m) == real_server_issue(service@, *r),
{
    if r.port == 0 || r.weight == 0 {
        let address = r.address.to_text();
        let port = decimal_text(r.port as u64);
        let place = cat5("real_server '", address.as_str(), ":", port.as_str(), "' in l4_service '");
        let tail = if r.port == 0 {
            "' port must be > 0"
        } else {
            "' weight must be > 0"
        };
        return Some(cat3(place.as_str(), service, tail));
    }
    None
}

/// Checks service `i` against the rules for layer-4 services.
pub fn check_service(
    ss: &Vec<L4ServiceConfig>,
    ls: &Vec<ListenerConfig>,
    i: usize,
) -> (r: Option<String>)
    requires
        i < ss.len(),
    ensures
        opt_text(r) == service_issue(ss@, ls@, i as int),
{
    let s = &ss[i];
    let name = s.name.as_str();
    let mut j: usize = 0;
    while j < i
        invariant
            j <= i < ss.len(),
            s == ss@[i as int],
            name@ == s.name@,
            forall|k: int| 0 <= k < j ==> (#[trigger] ss@[k]).name@ != s.name@,
        decreases i - j,
    {
        if str_eq(ss[j].name.as_str(), name) {
            return Some(cat3("duplicate l4_service name '", name, "'"));
        }
        j = j + 1;
    }
    if s.domains.is_empty() {
        return Some(cat3("l4_service '", name, "' must list at least one domain"));
    }
    if s.port == 0 {
        return Some(cat3("l4_service '", name, "' port must be > 0"));
    }
    j = 0;
    while j < i
        invariant
            j <= i < ss.len(),
            s == ss@[i as int],
            name@ == s.name@,
            s.domains@.len() > 0,
            s.port > 0,
            forall|k: int| 0 <= k < i ==> (#[trigger] ss@[k]).name@ != s.name@,
            forall|k: int|
                0 <= k < j ==> !((#[trigger] ss@[k]).vip == s.vip && ss@[k].port == s.port
                    && ss@[k].protocol == s.protocol),
        decreases i - j,
    {
        if ss[j].vip == s.vip && ss[j].port == s.port && ss[j].protocol == s.protocol {
            let vip = s.vip.to_text();
            let port = decimal_text(s.port as u64);
            let head = cat5(
                "duplicate l4_service vip/port/protocol '",
                vip.as_str(),
                ":",
                port.as_str(),
                " ",
            );
            return Some(cat3(head.as_str(), s.protocol.as_str(), "'"));
        }
        j = j + 1;
    }
    let ghost clashes = Seq::new(ls@.len(), |k: int| clash_issue(*s, ls@[k]));
    j = 0;
    while j < ls.len()
        invariant
            j <= ls.len(),
            i < ss.len(),
            s == ss@[i as int],
            name@ == s.name@,
            s.domains@.len() > 0,
            s.port > 0,
            forall|k: int| 0 <= k < i ==> (#[trigger] ss@[k]).name@ != s.name@,
            forall|k: int|
                0 <= k < i ==> !((#[trigger] ss@[k]).vip == s.vip && ss@[k].port == s.port
                    && ss@[k].protocol == s.protocol),
            clashes == Seq::new(ls@.len(), |k: int| clash_issue(*s, ls@[k])),
            forall|k: int| 0 <= k < j ==> (#[trigger] clashes[k]).is_none(),
        decreases ls.len() - j,
    {
        if ls[j].bind.ip() == s.vip && ls[j].bind.port() == s.port {
            let vip = s.vip.to_text();
            let port = decimal_text(s.port as u64);
            let head = cat5(
                "l4_service '",
                name,
                "' conflicts with listener '",
                ls[j].name.as_str(),
                "' on ",
            );
            proof {
                assert(clashes[j as int] == clash_issue(*s, ls@[j as int]));
                lemma_first_some_at(clashes, j as int);
            }
            let at = cat3(vip.as_str(), ":", port.as_str());
            let m = cat(head.as_str(), at.as_str());
            proof {
                assert(m@ =~= "l4_service '"@ + s.name@ + "' conflicts with listener '"@
                    + ls@[j as int].name@ + "' on "@ + s.vip.text() + ":"@ + decimal(
                    s.port as nat,
                ));
            }
            return Some(m);
        }
        proof {
            assert(clashes[j as int] == clash_issue(*s, ls@[j as int]));
        }
        j = j + 1;
    }
    proof {
        lemma_first_some_none(clashes);
    }
    if s.real_servers.is_empty() {
        return Some(cat3("l4_service '", name, "' must contain at least one real_server"));
    }
    let ghost issues = Seq::new(
        s.real_servers@.len(),
        |k: int| real_server_issue(s.name@, s.real_servers@[k]),
    );
    j = 0;
    while j < s.real_servers.len()
        invariant
            j <= s.real_servers.len(),
            name@ == s.name@,
            issues == Seq::new(
                s.real_servers@.len(),
                |k: int| real_server_issue(s.name@, s.real_servers@[k]),
            ),
            service_issue(ss@, ls@, i as int) == first_some(issues),
            forall|k: int| 0 <= k < j ==> (#[trigger] issues[k]).is_none(),
        decreases s.real_servers.len() - j,
    {
        let m = check_real_server(name, &s.real_servers[j]);
        proof {
            assert(issues[j as int] == real_server_issue(s.name@, s.real_servers@[j as int]));
        }
        if m.is_some() {
            proof {
                lemma_first_some_at(issues, j as int);
            }
            return m;
        }
        j = j + 1;
    }
    proof {
        lemma_first_some_none(issues);
    }
    None
}

/// Checks route `i`, given whether its host is one that requests can name and whether its
/// pool is there.
pub fn check_route(rs: &Vec<RouteConfig>, i: usize, host_ok: bool, pool_ok: bool) -> (r: Option<
    String,
>)
    requires
        i < rs.len(),
    ensures
        opt_text(r) == route_issue_given(rs@, i as int, host_ok, pool_ok),
{
    let route = &rs[i];
    let name = route.name.as_str();
    let mut j: usize = 0;
    while j < i
        invariant
            j <= i < rs.len(),
            route == rs@[i as int],
            name@ == route.name@,
            forall|k: int| 0 <= k < j ==> (#[trigger] rs@[k]).name@ != route.name@,
        decreases i - j,
    {
        if str_eq(rs[j].name.as_str(), name) {
            return Some(cat3("duplicate route name '", name, "'"));
        }
        j = j + 1;
    }
    if !starts_with(route.path_prefix.as_str(), "/") {
        return Some(cat3("route '", name, "' path_prefix must start with /"));
    }
    if !str_eq(route.host.as_str(), "*") && !host_ok {
        return Some(
            cat5(
                "route '",
                name,
                "' host '",
                route.host.as_str(),
                "' must be a valid HTTP authority host",
            ),
        );
    }
    if !pool_ok {
        return Some(
            cat5(
                "route '",
                name,
                "' references missing upstream_pool '",
                route.upstream_pool.as_str(),
                "'",
            ),
        );
    }
    if route.rate_limit.enabled && route.rate_limit.capacity == 0 {
        return Some(cat3("route '", name, "' rate_limit capacity must be > 0"));
    }
    if route.rate_limit.enabled && !(0 < route.rate_limit.fill_rate_bits
        && route.rate_limit.fill_rate_bits < 0x7f80_0000) {
        return Some(cat3("route '", name, "' rate_limit fill_rate must be finite and > 0"));
    }
    None
}

/// Checks an upstream of the pool called `pool`, given what its URL reads as.
pub fn check_upstream_config(pool: &str, u: &UpstreamConfig, uri: &Option<UriParts>) -> (r: Option<
    String,
>)
    ensures
        opt_text(r) == upstream_issue_given(
            pool@,
            *u,
            match uri {
                Some(p) => Some(p.model()),
                None => None,
            },
        ),
{
    let name = u.name.as_str();
    let head = cat3("upstream '", name, "' in pool '");
    let place = cat(head.as_str(), pool);
    if u.weight == 0 {
        return Some(cat(place.as_str(), "' must have weight > 0"));
    }
    if u.weight > MAX_UPSTREAM_WEIGHT {
        return Some(cat3(place.as_str(), "' weight must be <= ", "10000"));
    }
    let parts = match uri {
        Some(p) => p,
        None => {
            let start = cat(place.as_str(), "' has invalid url '");
            return Some(cat3(start.as_str(), u.url.as_str(), "'"));
        },
    };
    let scheme = match &parts.scheme {
        Some(s) => s,
        None => {
            return Some(cat(place.as_str(), "' url must include scheme and authority"));
        },
    };
    if parts.authority.is_none() {
        return Some(cat(place.as_str(), "' url must include scheme and authority"));
    }
    if !str_eq(scheme.as_str(), "http") {
        return Some(
            cat(place.as_str(), "' url scheme must be http until upstream TLS is implemented"),
        );
    }
    if u.protocol == UpstreamProtocol::H3 && !u.opt_in_h3 {
        return Some(cat3("upstream '", name, "' uses protocol h3 but opt_in_h3 is not true"));
    }
    None
}

proof fn lemma_total_weight_take(us: Seq<UpstreamConfig>, i: int)
    requires
        0 <= i < us.len(),
    ensures
        total_weight(us.take(i + 1)) == total_weight(us.take(i)) + us[i].weight as nat,
{
    assert(us.take(i + 1).drop_last() =~= us.take(i));
}

/// Checks the pool called `name`.
pub fn check_pool(name: &str, pool: &UpstreamPoolConfig) -> (r: Option<String>)
    ensures
        opt_text(r) == pool_issue(name@, *pool),
{
    if pool.upstreams.is_empty() {
        return Some(cat3("upstream pool '", name, "' must contain at least one upstream"));
    }
    let ghost issues = Seq::new(
        pool.upstreams@.len(),
        |k: int| upstream_issue(name@, pool.upstreams@[k]),
    );
    let mut total: u128 = 0;
    let mut i: usize = 0;
    while i < pool.upstreams.len()
        invariant
            i <= pool.upstreams.len(),
            pool.upstreams.len() > 0,
            issues == Seq::new(
                pool.upstreams@.len(),
                |k: int| upstream_issue(name@, pool.upstreams@[k]),
            ),
            total == total_weight(pool.upstreams@.take(i as int)),
            total <= i * 10_000,
            forall|k: int| 0 <= k < i ==> (#[trigger] issues[k]).is_none(),
        decreases pool.upstreams.len() - i,
    {
        let upstream = &pool.upstreams[i];
        let uri = parse_uri(upstream.url.as_str());
        let m = check_upstream_config(name, upstream, &uri);
        proof {
            assert(issues[i as int] == upstream_issue(name@, pool.upstreams@[i as int]));
        }
        if m.is_some() {
            proof {
                lemma_first_some_at(issues, i as int);
            }
            return m;
        }
        proof {
            lemma_total_weight_take(pool.upstreams@, i as int);
            assert(i * 10_000 <= 0xffff_ffff_ffff_ffff * 10_000);
        }
        total = total + upstream.weight as u128;
        i = i + 1;
    }
    proof {
        lemma_first_some_none(issues);
        assert(pool.upstreams@.take(i as int) =~= pool.upstreams@);
    }
    if total > MAX_TOTAL_POOL_WEIGHT as u128 {
        let head = cat3("upstream pool '", name, "' total weight must be <= ");
        return Some(cat(head.as_str(), "100000"));
    }
    None
}

impl ProxyConfig {
    fn shape_problem(&self) -> (r: Option<&'static str>)
        ensures
            crate::uri::opt_str(r) == shape_issue(*self),
    {
        if self.listeners.is_empty() && self.l4_services.is_empty() {
            return Some("at least one listener or l4_service must be configured");
        }
        if !self.listeners.is_empty() && self.routes.is_empty() {
            return Some("at least one route must be configured when listeners are configured");
        }
        None
    }

    fn listener_problem(&self) -> (r: Option<String>)
        ensures
            opt_text(r) == listeners_issue(*self),
    {
        let ghost issues = Seq::new(
            self.listeners@.len(),
            |i: int| listener_issue(self.listeners@, i),
        );
        let mut i: usize = 0;
        while i < self.listeners.len()
            invariant
                i <= self.listeners.len(),
                issues == Seq::new(
                    self.listeners@.len(),
                    |i: int| listener_issue(self.listeners@, i),
                ),
                forall|k: int| 0 <= k < i ==> (#[trigger] issues[k]).is_none(),
            decreases self.listeners.len() - i,
        {
            let m = check_listener(&self.listeners, i);
            proof {
                assert(issues[i as int] == listener_issue(self.listeners@, i as int));
            }
            if m.is_some() {
                proof {
                    lemma_first_some_at(issues, i as int);
                }
                return m;
            }
            i = i + 1;
        }
        proof {
            lemma_first_some_none(issues);
        }
        None
    }

    fn service_problem(&self) -> (r: Option<String>)
        ensures
            opt_text(r) == services_issue(*self),
    {
        let ghost issues = Seq::new(
            self.l4_services@.len(),
            |i: int| service_issue(self.l4_services@, self.listeners@, i),
        );
        let mut i: usize = 0;
        while i < self.l4_services.len()
            invariant
                i <= self.l4_services.len(),
                issues == Seq::new(
                    self.l4_services@.len(),
                    |i: int| service_issue(self.l4_services@, self.listeners@, i),
                ),
                forall|k: int| 0 <= k < i ==> (#[trigger] issues[k]).is_none(),
            decreases self.l4_services.len() - i,
        {
            let m = check_service(&self.l4_services, &self.listeners, i);
            proof {
                assert(issues[i as int] == service_issue(
                    self.l4_services@,
                    self.listeners@,
                    i as int,
                ));
            }
            if m.is_some() {
                proof {
                    lemma_first_some_at(issues, i as int);
                }
                return m;
            }
            i = i + 1;
        }
        proof {
            lemma_first_some_none(issues);
        }
        None
    }

    fn route_problem(&self) -> (r: Option<String>)
        ensures
            opt_text(r) == routes_issue(*self),
    {
        let ghost issues = Seq::new(
            self.routes@.len(),
            |i: int| route_issue(self.routes@, self.upstream_pools@, i),
        );
        let mut i: usize = 0;
        while i < self.routes.len()
            invariant
                i <= self.routes.len(),
                issues == Seq::new(
                    self.routes@.len(),
                    |i: int| route_issue(self.routes@, self.upstream_pools@, i),
                ),
                forall|k: int| 0 <= k < i ==> (#[trigger] issues[k]).is_none(),
            decreases self.routes.len() - i,
        {
            let host_ok = parse_authority_host(self.routes[i].host.as_str()).is_some();
            let pool_ok = self.upstream_pools.contains_key(self.routes[i].upstream_pool.as_str());
            let m = check_route(&self.routes, i, host_ok, pool_ok);
            proof {
                assert(issues[i as int] == route_issue(
                    self.routes@,
                    self.upstream_pools@,
                    i as int,
                ));
            }
            if m.is_some() {
                proof {
                    lemma_first_some_at(issues, i as int);
                }
                return m;
            }
            i = i + 1;
        }
        proof {
            lemma_first_some_none(issues);
        }
        None
    }

    fn pool_problem(&self) -> (r: Option<String>)
        ensures
            opt_text(r) == pools_issue(*self),
    {
        let ghost issues = Seq::new(self.upstream_pools@.len(), |i: int| pool_issue(self.upstream_pools@[i].0, self.upstream_pools@[i].1));
        let mut i: usize = 0;
        while i < self.upstream_pools.len()
            invariant
                i <= self.upstream_pools@.len(),
                issues == Seq::new(self.upstream_pools@.len(), |i: int| pool_issue(self.upstream_pools@[i].0, self.upstream_pools@[i].1)),
                forall|k: int| 0 <= k < i ==> (#[trigger] issues[k]).is_none(),
            decreases self.upstream_pools@.len() - i,
        {
            let m = check_pool(self.upstream_pools.name_at(i), self.upstream_pools.pool_at(i));
            proof {
                assert(issues[i as int] == pool_issue(self.upstream_pools@[i as int].0, self.upstream_pools@[i as int].1));
            }
            if m.is_some() {
                proof {
                    lemma_first_some_at(issues, i as int);
                }
                return m;
            }
            i = i + 1;
        }
        proof {
            lemma_first_some_none(issues);
        }
        None
    }

    /// Checks every rule and reports the first that is broken.
    pub fn validate(&self) -> (r: Result<(), ConfigError>)
        ensures
            r.is_ok() <==> config_issue(*self).is_none(),
            r matches Err(e) ==> e matches ConfigError::Validation(m) && config_issue(*self)
                == Some(m@),
    {
        let ghost parts = seq![
            shape_issue(*self),
            listeners_issue(*self),
            services_issue(*self),
            routes_issue(*self),
            pools_issue(*self),
            admin_issue(*self),
        ];
        if let Some(m) = self.shape_problem() {
            proof {
                lemma_first_some_at(parts, 0);
            }
            return Err(ConfigError::Validation(m.to_owned()));
        }
        if let Some(m) = self.listener_problem() {
            proof {
                lemma_first_some_at(parts, 1);
            }
            return Err(ConfigError::Validation(m));
        }
        if let Some(m) = self.service_problem() {
            proof {
                lemma_first_some_at(parts, 2);
            }
            return Err(ConfigError::Validation(m));
        }
        if let Some(m) = self.route_problem() {
            proof {
                lemma_first_some_at(parts, 3);
            }
            return Err(ConfigError::Validation(m));
        }
        if let Some(m) = self.pool_problem() {
            proof {
                lemma_first_some_at(parts, 4);
            }
            return Err(ConfigError::Validation(m));
        }
        if let Some(token) = &self.admin.auth_token {
            if token.as_str().is_empty() {
                proof {
                    assert(token@ =~= Seq::<char>::empty());
                    lemma_first_some_at(parts, 5);
                }
                return Err(
                    ConfigError::Validation(
                        "admin auth_token must not be empty when configured".to_owned(),
                    ),
                );
            }
        }
        proof {
            lemma_first_some_none(parts);
        }
        Ok(())
    }
}

// --------------------------------------------------------- what a sound configuration is

/// A listener is sound just where no earlier one has its name, it speaks some protocol, the
/// engines of its own need HTTP/1.1 alone and no TLS, several accept loops share its port, and
/// connections may queue.
pub proof fn sound_listeners(ls: Seq<ListenerConfig>, i: int)
    requires
        0 <= i < ls.len(),
    ensures
        listener_issue(ls, i) is None <==> {
            &&& forall|j: int| 0 <= j < i ==> (#[trigger] ls[j]).name@ != ls[i].name@
            &&& ls[i].protocols@.len() > 0
            &&& ls[i].http1_engine == Http1Engine::Hyper || (!ls[i].tls && ls[i].protocols@ == seq![
                ListenerProtocol::H1,
            ])
            &&& ls[i].accept_workers <= 1 || ls[i].reuse_port
            &&& ls[i].backlog > 0
        },
{
    if exists|j: int| 0 <= j < i && (#[trigger] ls[j]).name@ == ls[i].name@ {
        let j = choose|j: int| 0 <= j < i && (#[trigger] ls[j]).name@ == ls[i].name@;
        assert(ls[j].name@ == ls[i].name@);
    }
}

/// A service is sound just where no earlier one has its name, or its address, port and
/// transport; it has a domain, a port, and real servers with ports and weights; and no listener
/// is bound to its address and port.
pub proof fn sound_services(ss: Seq<L4ServiceConfig>, ls: Seq<ListenerConfig>, i: int)
    requires
        0 <= i < ss.len(),
    ensures
        service_issue(ss, ls, i) is None <==> {
            &&& forall|j: int| 0 <= j < i ==> (#[trigger] ss[j]).name@ != ss[i].name@
            &&& ss[i].domains@.len() > 0
            &&& ss[i].port > 0
            &&& forall|j: int|
                0 <= j < i ==> (#[trigger] ss[j]).vip != ss[i].vip || ss[j].port != ss[i].port
                    || ss[j].protocol != ss[i].protocol
            &&& forall|k: int|
                0 <= k < ls.len() ==> (#[trigger] ls[k]).bind.spec_ip() != ss[i].vip
                    || ls[k].bind.spec_port() != ss[i].port
            &&& ss[i].real_servers@.len() > 0
            &&& forall|k: int|
                0 <= k < ss[i].real_servers@.len() ==> (#[trigger] ss[i].real_servers@[k]).port > 0
                    && ss[i].real_servers@[k].weight > 0
        },
{
    let s = ss[i];
    let clashes = Seq::new(ls.len(), |k: int| clash_issue(s, ls[k]));
    let servers = Seq::new(
        s.real_servers@.len(),
        |k: int| real_server_issue(s.name@, s.real_servers@[k]),
    );
    lemma_first_some_none(clashes);
    lemma_first_some_none(servers);
    if first_some(clashes) is None {
        assert forall|k: int| 0 <= k < ls.len() implies (#[trigger] ls[k]).bind.spec_ip() != s.vip
            || ls[k].bind.spec_port() != s.port by {
            assert(clashes[k] is None);
        }
    } else {
        let k = choose|k: int| 0 <= k < clashes.len() && (#[trigger] clashes[k]).is_some();
        assert(ls[k].bind.spec_ip() == s.vip);
    }
    if first_some(servers) is None {
        assert forall|k: int| 0 <= k < s.real_servers@.len() implies (
        #[trigger] s.real_servers@[k]).port > 0 && s.real_servers@[k].weight > 0 by {
            assert(servers[k] is None);
        }
    } else {
        let k = choose|k: int| 0 <= k < servers.len() && (#[trigger] servers[k]).is_some();
        assert(s.real_servers@[k].port == 0 || s.real_servers@[k].weight == 0);
    }
}

/// A route is sound just where no earlier one has its name, its prefix begins with a slash, its
/// host is `*` or one that requests can name, its pool is there, and a rate limit that is
/// switched on has a capacity and a finite rate above zero.
pub proof fn sound_routes(rs: Seq<RouteConfig>, i: int, host_ok: bool, pool_ok: bool)
    requires
        0 <= i < rs.len(),
    ensures
        route_issue_given(rs, i, host_ok, pool_ok) is None <==> {
            &&& forall|j: int| 0 <= j < i ==> (#[trigger] rs[j]).name@ != rs[i].name@
            &&& rs[i].path_prefix@.len() > 0 && rs[i].path_prefix@[0] == '/'
            &&& rs[i].host@ == seq!['*'] || host_ok
            &&& pool_ok
            &&& rs[i].rate_limit.enabled ==> rs[i].rate_limit.capacity > 0 && 0
                < rs[i].rate_limit.fill_rate_bits < 0x7f80_0000
        },
{
    reveal_strlit("/");
    reveal_strlit("*");
    assert("/"@ =~= seq!['/']);
    assert("*"@ =~= seq!['*']);
    let p = rs[i].path_prefix@;
    if p.len() > 0 {
        assert(p.take(1)[0] == p[0]);
        if p[0] == '/' {
            assert(p.take(1) =~= "/"@);
        }
    }
}

/// An upstream is sound just where its weight is between 1 and 10000, its URL is readable with
/// an authority and the scheme `http`, and HTTP/3 was asked for twice.
pub proof fn sound_upstreams(
    pool: Seq<char>,
    u: UpstreamConfig,
    scheme: Option<Seq<char>>,
    authority: Option<Seq<char>>,
    path: Seq<char>,
    host: Option<Seq<char>>,
    port: Option<u16>,
    text: Seq<char>,
)
    ensures
        upstream_issue_given(pool, u, None) is Some,
        upstream_issue_given(pool, u, Some((scheme, authority, path, host, port, text))) is None
            <==> {
            &&& 1 <= u.weight <= 10000
            &&& scheme == Some(seq!['h', 't', 't', 'p'])
            &&& authority is Some
            &&& u.protocol == UpstreamProtocol::H3 ==> u.opt_in_h3
        },
{
    reveal_strlit("http");
    assert("http"@ =~= seq!['h', 't', 't', 'p']);
}

/// A pool is sound just where it has upstreams, all of them are sound, and their weights add up
/// to 100000 at most.
pub proof fn sound_pools(name: Seq<char>, p: UpstreamPoolConfig)
    ensures
        pool_issue(name, p) is None <==> {
            &&& p.upstreams@.len() > 0
            &&& forall|k: int|
                0 <= k < p.upstreams@.len() ==> upstream_issue(
                    name,
                    #[trigger] p.upstreams@[k],
                ) is None
            &&& total_weight(p.upstreams@) <= 100000
        },
{
    let members = Seq::new(p.upstreams@.len(), |k: int| upstream_issue(name, p.upstreams@[k]));
    lemma_first_some_none(members);
    if first_some(members) is None {
        assert forall|k: int| 0 <= k < p.upstreams@.len() implies upstream_issue(
            name,
            #[trigger] p.upstreams@[k],
        ) is None by {
            assert(members[k] is None);
        }
    } else {
        let k = choose|k: int| 0 <= k < members.len() && (#[trigger] members[k]).is_some();
        assert(upstream_issue(name, p.upstreams@[k]) is Some);
    }
}

/// Weights add up: one more upstream adds its own.
pub proof fn weights_add_up(us: Seq<UpstreamConfig>, u: UpstreamConfig)
    ensures
        total_weight(Seq::empty()) == 0,
        total_weight(us.push(u)) == total_weight(us) + u.weight,
{
    assert(us.push(u).drop_last() =~= us);
}

/// A configuration is sound just where it serves something, has routes for its listeners, each
/// part is sound, and its admin token, where one is set, is not empty.
pub proof fn sound_configurations(c: ProxyConfig)
    ensures
        config_issue(c) is None <==> {
            &&& c.listeners@.len() > 0 || c.l4_services@.len() > 0
            &&& c.listeners@.len() == 0 || c.routes@.len() > 0
            &&& forall|i: int|
                0 <= i < c.listeners@.len() ==> (#[trigger] listener_issue(
                    c.listeners@,
                    i,
                )) is None
            &&& forall|i: int|
                0 <= i < c.l4_services@.len() ==> (#[trigger] service_issue(
                    c.l4_services@,
                    c.listeners@,
                    i,
                )) is None
            &&& forall|i: int|
                0 <= i < c.routes@.len() ==> (#[trigger] route_issue(
                    c.routes@,
                    c.upstream_pools@,
                    i,
                )) is None
            &&& forall|i: int|
                0 <= i < c.upstream_pools@.len() ==> pool_issue(
                    (#[trigger] c.upstream_pools@[i]).0,
                    c.upstream_pools@[i].1,
                ) is None
            &&& c.admin.auth_token matches Some(t) ==> t@.len() > 0
        },
{
    let parts = seq![
        shape_issue(c),
        listeners_issue(c),
        services_issue(c),
        routes_issue(c),
        pools_issue(c),
        admin_issue(c),
    ];
    lemma_first_some_none(parts);
    let a = Seq::new(c.listeners@.len(), |i: int| listener_issue(c.listeners@, i));
    let b = Seq::new(
        c.l4_services@.len(),
        |i: int| service_issue(c.l4_services@, c.listeners@, i),
    );
    let d = Seq::new(c.routes@.len(), |i: int| route_issue(c.routes@, c.upstream_pools@, i));
    let e = Seq::new(
        c.upstream_pools@.len(),
        |i: int| pool_issue(c.upstream_pools@[i].0, c.upstream_pools@[i].1),
    );
    lemma_first_some_none(a);
    lemma_first_some_none(b);
    lemma_first_some_none(d);
    lemma_first_some_none(e);
    if config_issue(c) is None {
        assert(parts[0] is None && parts[1] is None && parts[2] is None && parts[3] is None
            && parts[4] is None && parts[5] is None);
        assert forall|i: int| 0 <= i < c.listeners@.len() implies (#[trigger] listener_issue(
            c.listeners@,
            i,
        )) is None by {
            assert(a[i] is None);
        }
        assert forall|i: int| 0 <= i < c.l4_services@.len() implies (#[trigger] service_issue(
            c.l4_services@,
            c.listeners@,
            i,
        )) is None by {
            assert(b[i] is None);
        }
        assert forall|i: int| 0 <= i < c.routes@.len() implies (#[trigger] route_issue(
            c.routes@,
            c.upstream_pools@,
            i,
        )) is None by {
            assert(d[i] is None);
        }
        assert forall|i: int| 0 <= i < c.upstream_pools@.len() implies pool_issue(
            (#[trigger] c.upstream_pools@[i]).0,
            c.upstream_pools@[i].1,
        ) is None by {
            assert(e[i] is None);
        }
        if let Some(t) = c.admin.auth_token {
            if t@.len() == 0 {
                assert(t@ =~= Seq::<char>::empty());
            }
        }
    } else {
        let k = choose|k: int| 0 <= k < parts.len() && (#[trigger] parts[k]).is_some();
        if k == 1 {
            let i = choose|i: int| 0 <= i < a.len() && (#[trigger] a[i]).is_some();
            assert(listener_issue(c.listeners@, i) is Some);
        } else if k == 2 {
            let i = choose|i: int| 0 <= i < b.len() && (#[trigger] b[i]).is_some();
            assert(service_issue(c.l4_services@, c.listeners@, i) is Some);
        } else if k == 3 {
            let i = choose|i: int| 0 <= i < d.len() && (#[trigger] d[i]).is_some();
            assert(route_issue(c.routes@, c.upstream_pools@, i) is Some);
        } else if k == 4 {
            let i = choose|i: int| 0 <= i < e.len() && (#[trigger] e[i]).is_some();
            assert(pool_issue(c.upstream_pools@[i].0, c.upstream_pools@[i].1) is Some);
        }
    }
}

/// A pool is there just where one has its name.
pub proof fn pools_are_found_by_name(
    ps: Seq<(Seq<char>, UpstreamPoolConfig)>,
    name: Seq<char>,
)
    ensures
        has_pool(ps, name) <==> exists|i: int| 0 <= i < ps.len() && (#[trigger] ps[i]).0 == name,
{
    if has_pool(ps, name) {
        let i = choose|i: int| 0 <= i < ps.len() && #[trigger] ps[i].0 == name;
        assert(ps[i].0 == name);
    }
}

/// Of several complaints the first is made: about the configuration as a whole, its listeners, its
/// services, its routes, its pools, the admin API.
pub proof fn the_first_complaint_is_made(c: ProxyConfig)
    ensures
        c.listeners@.len() == 0 && c.l4_services@.len() == 0 ==> config_issue(c) == Some(
            "at least one listener or l4_service must be configured"@,
        ),
        c.listeners@.len() > 0 && c.routes@.len() == 0 ==> config_issue(c) == Some(
            "at least one route must be configured when listeners are configured"@,
        ),
        shape_issue(c) is None && listeners_issue(c) is Some ==> config_issue(c)
            == listeners_issue(c),
        shape_issue(c) is None && listeners_issue(c) is None && services_issue(c) is Some
            ==> config_issue(c) == services_issue(c),
        shape_issue(c) is None && listeners_issue(c) is None && services_issue(c) is None
            && routes_issue(c) is Some ==> config_issue(c) == routes_issue(c),
        shape_issue(c) is None && listeners_issue(c) is None && services_issue(c) is None
            && routes_issue(c) is None && pools_issue(c) is Some ==> config_issue(c)
            == pools_issue(c),
        shape_issue(c) is None && listeners_issue(c) is None && services_issue(c) is None
            && routes_issue(c) is None && pools_issue(c) is None && opt_text(c.admin.auth_token)
            == Some(Seq::<char>::empty()) ==> config_issue(c) == Some(
            "admin auth_token must not be empty when configured"@,
        ),
{
    let all = seq![
        shape_issue(c),
        listeners_issue(c),
        services_issue(c),
        routes_issue(c),
        pools_issue(c),
        admin_issue(c),
    ];
    assert(config_issue(c) == first_some(all));
    let k: int = if shape_issue(c) is Some {
        0
    } else if listeners_issue(c) is Some {
        1
    } else if services_issue(c) is Some {
        2
    } else if routes_issue(c) is Some {
        3
    } else if pools_issue(c) is Some {
        4
    } else {
        5
    };
    if all[k] is Some {
        complaints_are_about_the_first(all, k);
    }
}

/// A complaint about one of several goes by the first that gives cause for it.
pub proof fn complaints_are_about_the_first<T>(s: Seq<Option<T>>, i: int)
    requires
        0 <= i < s.len(),
        s[i] is Some,
        forall|j: int| 0 <= j < i ==> (#[trigger] s[j]) is None,
    ensures
        first_some(s) == s[i],
    decreases i,
{
    if i > 0 {
        assert(s[0] is None);
        let t = s.skip(1);
        assert forall|j: int| 0 <= j < i - 1 implies (#[trigger] t[j]) is None by {
            assert(s[j + 1] is None);
        }
        complaints_are_about_the_first(t, i - 1);
    }
}

/// What is wrong with a listener, in words.
pub proof fn complaints_about_listeners(l: ListenerConfig, other: ListenerConfig)
    ensures
        other.name@ == l.name@ ==> listener_issue(seq![other, l], 1) == Some(
            "duplicate listener name '"@ + l.name@ + "'"@,
        ),
        l.protocols@.len() == 0 ==> listener_issue(seq![l], 0) == Some(
            "listener '"@ + l.name@ + "' must enable at least one protocol"@,
        ),
        l.protocols@.len() > 0 && l.http1_engine == Http1Engine::Fast && l.tls ==> listener_issue(
            seq![l],
            0,
        ) == Some(
            "listener '"@ + l.name@ + "' http1_engine = "@ + "fast"@ + " requires tls = false"@,
        ),
        l.protocols@.len() > 0 && l.http1_engine == Http1Engine::Uring && !l.tls && l.protocols@
            != seq![ListenerProtocol::H1] ==> listener_issue(seq![l], 0) == Some(
            "listener '"@ + l.name@ + "' http1_engine = "@ + "uring"@
                + " requires protocols = [\"h1\"]"@,
        ),
        l.protocols@.len() > 0 && l.http1_engine == Http1Engine::Hyper && l.accept_workers > 1
            && !l.reuse_port ==> listener_issue(seq![l], 0) == Some(
            "listener '"@ + l.name@ + "' must enable reuse_port when accept_workers > 1"@,
        ),
        l.protocols@.len() > 0 && l.http1_engine == Http1Engine::Hyper && l.accept_workers <= 1
            && l.backlog == 0 ==> listener_issue(seq![l], 0) == Some(
            "listener '"@ + l.name@ + "' backlog must be > 0"@,
        ),
{
    let two = seq![other, l];
    assert(two[0] == other);
}

/// What is wrong with a service, in words.
pub proof fn complaints_about_services(
    s: L4ServiceConfig,
    other: L4ServiceConfig,
    service: Seq<char>,
    r: L4RealServerConfig,
)
    ensures
        other.name@ == s.name@ ==> service_issue(seq![other, s], Seq::empty(), 1) == Some(
            "duplicate l4_service name '"@ + s.name@ + "'"@,
        ),
        s.domains@.len() == 0 ==> service_issue(seq![s], Seq::empty(), 0) == Some(
            "l4_service '"@ + s.name@ + "' must list at least one domain"@,
        ),
        s.domains@.len() > 0 && s.port == 0 ==> service_issue(seq![s], Seq::empty(), 0) == Some(
            "l4_service '"@ + s.name@ + "' port must be > 0"@,
        ),
        s.domains@.len() > 0 && s.port > 0 && s.real_servers@.len() == 0 ==> service_issue(
            seq![s],
            Seq::empty(),
            0,
        ) == Some("l4_service '"@ + s.name@ + "' must contain at least one real_server"@),
        r.port == 0 ==> real_server_issue(service, r) == Some(
            "real_server '"@ + r.address.text() + ":"@ + decimal(0) + "' in l4_service '"@
                + service + "' port must be > 0"@,
        ),
        r.port > 0 && r.weight == 0 ==> real_server_issue(service, r) == Some(
            "real_server '"@ + r.address.text() + ":"@ + decimal(r.port as nat)
                + "' in l4_service '"@ + service + "' weight must be > 0"@,
        ),
{
    let two = seq![other, s];
    assert(two[0] == other);
}

/// What is wrong with a route, in words.
pub proof fn complaints_about_routes(r: RouteConfig, host_ok: bool, pool_ok: bool)
    ensures
        !has_prefix(r.path_prefix@, "/"@) ==> route_issue_given(seq![r], 0, host_ok, pool_ok)
            == Some("route '"@ + r.name@ + "' path_prefix must start with /"@),
        has_prefix(r.path_prefix@, "/"@) && r.host@ != "*"@ && !host_ok ==> route_issue_given(
            seq![r],
            0,
            host_ok,
            pool_ok,
        ) == Some(
            "route '"@ + r.name@ + "' host '"@ + r.host@ + "' must be a valid HTTP authority host"@,
        ),
        has_prefix(r.path_prefix@, "/"@) && r.host@ == "*"@ && !pool_ok ==> route_issue_given(
            seq![r],
            0,
            host_ok,
            pool_ok,
        ) == Some(
            "route '"@ + r.name@ + "' references missing upstream_pool '"@ + r.upstream_pool@
                + "'"@,
        ),
        has_prefix(r.path_prefix@, "/"@) && host_ok && pool_ok && r.rate_limit.enabled
            && r.rate_limit.capacity == 0 ==> route_issue_given(seq![r], 0, host_ok, pool_ok)
            == Some("route '"@ + r.name@ + "' rate_limit capacity must be > 0"@),
        has_prefix(r.path_prefix@, "/"@) && host_ok && pool_ok && r.rate_limit.enabled
            && r.rate_limit.capacity > 0 && r.rate_limit.fill_rate_bits == 0 ==> route_issue_given(
            seq![r],
            0,
            host_ok,
            pool_ok,
        ) == Some("route '"@ + r.name@ + "' rate_limit fill_rate must be finite and > 0"@),
{
}

/// What is wrong with an upstream, in words.
pub proof fn complaints_about_upstreams(
    pool: Seq<char>,
    u: UpstreamConfig,
    authority: Option<Seq<char>>,
    path: Seq<char>,
    host: Option<Seq<char>>,
    port: Option<u16>,
    text: Seq<char>,
)
    ensures
        ({
            let place = "upstream '"@ + u.name@ + "' in pool '"@ + pool;
            let http = Some((Some("http"@), authority, path, host, port, text));
            &&& u.weight == 0 ==> upstream_issue_given(pool, u, http) == Some(
                place + "' must have weight > 0"@,
            )
            &&& u.weight > 10000 ==> upstream_issue_given(pool, u, http) == Some(
                place + "' weight must be <= "@ + "10000"@,
            )
            &&& 0 < u.weight <= 10000 ==> {
                &&& upstream_issue_given(pool, u, None) == Some(
                    place + "' has invalid url '"@ + u.url@ + "'"@,
                )
                &&& authority is None ==> upstream_issue_given(pool, u, http) == Some(
                    place + "' url must include scheme and authority"@,
                )
                &&& authority is Some && u.protocol == UpstreamProtocol::H3 && !u.opt_in_h3
                    ==> upstream_issue_given(pool, u, http) == Some(
                    "upstream '"@ + u.name@ + "' uses protocol h3 but opt_in_h3 is not true"@,
                )
                &&& authority is Some && u.protocol != UpstreamProtocol::H3
                    ==> upstream_issue_given(pool, u, http) is None
            }
        }),
{
}

/// What is wrong between two parts of a configuration, in words.
pub proof fn complaints_about_clashes(
    s: L4ServiceConfig,
    other: L4ServiceConfig,
    l: ListenerConfig,
    r: RouteConfig,
    twin: RouteConfig,
    host_ok: bool,
    pool_ok: bool,
)
    ensures
        l.bind.spec_ip() == s.vip && l.bind.spec_port() == s.port ==> clash_issue(s, l) == Some(
            "l4_service '"@ + s.name@ + "' conflicts with listener '"@ + l.name@ + "' on "@
                + s.vip.text() + ":"@ + decimal(s.port as nat),
        ),
        l.bind.spec_ip() != s.vip || l.bind.spec_port() != s.port ==> clash_issue(s, l) is None,
        other.name@ != s.name@ && s.domains@.len() > 0 && s.port > 0 && other.vip == s.vip
            && other.port == s.port && other.protocol == s.protocol ==> service_issue(
            seq![other, s],
            Seq::empty(),
            1,
        ) == Some(
            "duplicate l4_service vip/port/protocol '"@ + s.vip.text() + ":"@ + decimal(
                s.port as nat,
            ) + " "@ + s.protocol.text() + "'"@,
        ),
        twin.name@ == r.name@ ==> route_issue_given(seq![twin, r], 1, host_ok, pool_ok) == Some(
            "duplicate route name '"@ + r.name@ + "'"@,
        ),
{
    let two = seq![other, s];
    assert(two[0] == other && two[1] == s);
    let routes = seq![twin, r];
    assert(routes[0] == twin && routes[1] == r);
}

/// What is wrong with a pool as a whole, in words.
pub proof fn complaints_about_pools(
    name: Seq<char>,
    p: UpstreamPoolConfig,
    u: UpstreamConfig,
    scheme: Seq<char>,
    authority: Seq<char>,
    path: Seq<char>,
    host: Option<Seq<char>>,
    port: Option<u16>,
    text: Seq<char>,
)
    ensures
        p.upstreams@.len() == 0 ==> pool_issue(name, p) == Some(
            "upstream pool '"@ + name + "' must contain at least one upstream"@,
        ),
        p.upstreams@.len() > 0 && (forall|k: int|
            0 <= k < p.upstreams@.len() ==> upstream_issue(name, #[trigger] p.upstreams@[k])
                is None) && total_weight(p.upstreams@) > 100000 ==> pool_issue(name, p) == Some(
            "upstream pool '"@ + name + "' total weight must be <= "@ + "100000"@,
        ),
        0 < u.weight <= 10000 && scheme != "http"@ ==> upstream_issue_given(
            name,
            u,
            Some((Some(scheme), Some(authority), path, host, port, text)),
        ) == Some(
            "upstream '"@ + u.name@ + "' in pool '"@ + name
                + "' url scheme must be http until upstream TLS is implemented"@,
        ),
{
    let members = Seq::new(p.upstreams@.len(), |k: int| upstream_issue(name, p.upstreams@[k]));
    if forall|k: int|
        0 <= k < p.upstreams@.len() ==> upstream_issue(name, #[trigger] p.upstreams@[k]) is None {
        assert forall|k: int| 0 <= k < members.len() implies (#[trigger] members[k]).is_none() by {
            assert(upstream_issue(name, p.upstreams@[k]) is None);
        }
        lemma_first_some_none(members);
    }
}

} // verus!
