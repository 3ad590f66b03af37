//! The general engine: what becomes of a request that a full HTTP server has read, how a
//! listener is set up, and how many connections are open.

use crate::config::routes::{
    chosen_route, configs, lookup_of, replaced, HostLookup, RouteTable, UpstreamRef,
};
use crate::config::types::{Http1Engine, ListenerConfig, ListenerProtocol, UpstreamProtocol};
use crate::config::upstream::{wrapped, UpstreamState};
use crate::octets::utf8_text;
use crate::proxy::exchange::Health;
use crate::proxy::select::asked;
use crate::text::{trim, trimmed};
use crate::time::Duration;
use crate::uri::{opt_str, parse_authority_host, parsed_uri, UriParts};
use vstd::prelude::*;
use vstd::string::*;
use vstd::utf8::decode_utf8;

verus! {

/// The replies that the engine gives on its own.
#[derive(Clone, Copy, Debug, PartialEq, Eq, Structural)]
pub enum GatewayReply {
    NoRoute,
    RateLimited,
    NoUpstream,
    H3NotEnabled,
    BadUpstreamUri,
    UpstreamTimedOut,
    UpstreamFailed,
}

impl GatewayReply {
    /// Status and text.
    pub open spec fn parts(self) -> (u16, Seq<char>) {
        match self {
            GatewayReply::NoRoute => (404, "no matching route\n"@),
            GatewayReply::RateLimited => (429, "rate limit exceeded\n"@),
            GatewayReply::NoUpstream => (502, "no available upstream\n"@),
            GatewayReply::H3NotEnabled => (
                501,
                "HTTP/3 upstream driver is configured but not enabled in this baseline\n"@,
            ),
            GatewayReply::BadUpstreamUri => (502, "invalid upstream URI\n"@),
            GatewayReply::UpstreamTimedOut => (504, "upstream request timed out\n"@),
            GatewayReply::UpstreamFailed => (502, "upstream request failed\n"@),
        }
    }

    /// The status of the reply.
    pub fn status(&self) -> (r: u16)
        ensures
            r == self.parts().0,
    {
        match self {
            GatewayReply::NoRoute => 404,
            GatewayReply::RateLimited => 429,
            GatewayReply::NoUpstream => 502,
            GatewayReply::H3NotEnabled => 501,
            GatewayReply::BadUpstreamUri => 502,
            GatewayReply::UpstreamTimedOut => 504,
            GatewayReply::UpstreamFailed => 502,
        }
    }

    /// The text of the reply.
    pub fn text(&self) -> (r: &'static str)
        ensures
            r@ == self.parts().1,
    {
        match self {
            GatewayReply::NoRoute => "no matching route\n",
            GatewayReply::RateLimited => "rate limit exceeded\n",
            GatewayReply::NoUpstream => "no available upstream\n",
            GatewayReply::H3NotEnabled => "HTTP/3 upstream driver is configured but not enabled in this baseline\n",
            GatewayReply::BadUpstreamUri => "invalid upstream URI\n",
            GatewayReply::UpstreamTimedOut => "upstream request timed out\n",
            GatewayReply::UpstreamFailed => "upstream request failed\n",
        }
    }

    /// The result that the reply is counted under; an unusable upstream URI is not counted.
    pub fn tally(&self) -> (r: Option<&'static str>)
        ensures
            opt_str(r) == match *self {
                GatewayReply::NoRoute => Some("no_route"@),
                GatewayReply::RateLimited => Some("rate_limited"@),
                GatewayReply::NoUpstream => Some("no_upstream"@),
                GatewayReply::H3NotEnabled => Some("h3_not_enabled"@),
                GatewayReply::BadUpstreamUri => None,
                GatewayReply::UpstreamTimedOut => Some("upstream_error"@),
                GatewayReply::UpstreamFailed => Some("upstream_error"@),
            },
    {
        match self {
            GatewayReply::NoRoute => Some("no_route"),
            GatewayReply::RateLimited => Some("rate_limited"),
            GatewayReply::NoUpstream => Some("no_upstream"),
            GatewayReply::H3NotEnabled => Some("h3_not_enabled"),
            GatewayReply::BadUpstreamUri => None,
            GatewayReply::UpstreamTimedOut => Some("upstream_error"),
            GatewayReply::UpstreamFailed => Some("upstream_error"),
        }
    }
}

// ------------------------------------------------------------------ admission

/// Whether every byte is printable ASCII or a tab.
pub open spec fn printable(value: Seq<u8>) -> bool {
    forall|i: int| 0 <= i < value.len() ==> (32 <= #[trigger] value[i] < 127) || value[i] == 9
}

/// The host that a request names, where its header is printable.
pub open spec fn named_host(value: Option<Seq<u8>>) -> Option<Seq<char>> {
    match value {
        Some(v) => if printable(v) {
            Some(trimmed(decode_utf8(v)))
        } else {
            None
        },
        None => None,
    }
}

/// What routing reads of a request's host: nothing where no route is for one host only.
pub open spec fn gateway_lookup(needed: bool, value: Option<Seq<u8>>) -> (bool, Option<Seq<char>>) {
    if needed {
        lookup_of(named_host(value))
    } else {
        (false, None)
    }
}

/// The target that routing reads: `/` where a request has none.
pub open spec fn target_of(path: Option<Seq<char>>) -> Seq<char> {
    match path {
        Some(p) => p,
        None => "/"@,
    }
}

fn is_printable(value: &[u8]) -> (r: bool)
    ensures
        r == printable(value@),
{
    let mut i: usize = 0;
    while i < value.len()
        invariant
            i <= value.len(),
            forall|k: int| 0 <= k < i ==> (32 <= #[trigger] value@[k] < 127) || value@[k] == 9,
        decreases value.len() - i,
    {
        if !((32 <= value[i] && value[i] < 127) || value[i] == 9) {
            return false;
        }
        i = i + 1;
    }
    true
}

/// The view of optional bytes.
pub open spec fn opt_slice(v: Option<&[u8]>) -> Option<Seq<u8>> {
    match v {
        Some(b) => Some(b@),
        None => None,
    }
}

proof fn lemma_printable_is_text(v: Seq<u8>)
    requires
        printable(v),
    ensures
        vstd::utf8::valid_utf8(v),
    decreases v.len(),
{
    if v.len() > 0 {
        let rest = vstd::utf8::pop_first_scalar(v);
        assert((32 <= v[0] < 127) || v[0] == 9);
        assert(vstd::utf8::valid_first_scalar(v)) by {
            let b = v[0];
            assert(b <= 0x7f);
            assert((b & 0x80) == 0) by (bit_vector)
                requires
                    b <= 0x7fu8,
            ;
        }
        assert(rest =~= v.skip(1));
        assert forall|i: int| 0 <= i < rest.len() implies (32 <= #[trigger] rest[i] < 127)
            || rest[i] == 9 by {
            assert(rest[i] == v[i + 1]);
        }
        lemma_printable_is_text(rest);
    }
}

/// The text of a header value, where it is printable.
pub fn printable_text(value: &[u8]) -> (r: Option<String>)
    ensures
        r.is_some() <==> printable(value@),
        r matches Some(s) ==> s@ == decode_utf8(value@),
{
    if !is_printable(value) {
        return None;
    }
    proof {
        lemma_printable_is_text(value@);
    }
    utf8_text(value)
}

/// What routing reads of a request's host.
pub fn lookup_host_value(needed: bool, value: Option<&[u8]>) -> (r: HostLookup)
    ensures
        r.model() == gateway_lookup(needed, opt_slice(value)),
{
    if !needed {
        return HostLookup::Absent;
    }
    match value {
        None => HostLookup::Absent,
        Some(v) => match printable_text(v) {
            None => HostLookup::Absent,
            Some(text) => match parse_authority_host(trim(text.as_str())) {
                Some(key) => HostLookup::Key(key),
                None => HostLookup::Malformed,
            },
        },
    }
}

/// The route of a request.
pub struct Routed {
    pub route: usize,
    /// Whether the route has a rate limiter.
    pub limited: bool,
}

/// Finds the route for a request's host header and target.
pub fn find_route(table: &RouteTable, host: Option<&[u8]>, path: Option<&str>) -> (r: Result<
    Routed,
    GatewayReply,
>)
    requires
        table.wf(),
    ensures
        match chosen_route(
            configs(table.routes@),
            gateway_lookup(table.requires_host_match, opt_slice(host)),
            target_of(opt_str(path)),
        ) {
            None => r == Err::<Routed, GatewayReply>(GatewayReply::NoRoute),
            Some(i) => r matches Ok(found) && found.route == i && i < table.routes@.len()
                && found.limited == table.routes@[i].rate_limiter.is_some(),
        },
{
    let target = match path {
        Some(p) => p,
        None => "/",
    };
    let lookup = lookup_host_value(table.requires_host_match(), host);
    match table.match_lookup(&lookup, target) {
        None => Err(GatewayReply::NoRoute),
        Some(m) => Ok(Routed { route: m.index, limited: m.rate_limiter.is_some() }),
    }
}

/// A request that goes to an upstream.
pub struct Forward {
    pub at: UpstreamRef,
    pub uri: UriParts,
    /// The host header that takes the place of the client's.
    pub host: String,
    pub request_timeout: Duration,
}

/// What becomes of an admitted request.
pub enum Dispatch {
    Reply(GatewayReply),
    Forward(Forward),
}

/// The index of the route, unless the limiter was asked and refused.
pub open spec fn admitted(routed: Routed, granted: Option<bool>) -> Result<usize, GatewayReply> {
    if routed.limited && granted == Some(false) {
        Err(GatewayReply::RateLimited)
    } else {
        Ok(routed.route)
    }
}

/// Admits a request to its route, given the limiter's verdict where it was asked.
pub fn admit_request(routed: &Routed, granted: Option<bool>) -> (r: Result<usize, GatewayReply>)
    ensures
        r == admitted(*routed, granted),
{
    if routed.limited {
        if let Some(false) = granted {
            return Err(GatewayReply::RateLimited);
        }
    }
    Ok(routed.route)
}

/// What becomes of an admitted request, and of the table.
pub open spec fn dispatched(
    before: RouteTable,
    after: RouteTable,
    route: usize,
    path: Option<Seq<char>>,
    r: Dispatch,
) -> bool {
    let pool = before.routes@[route as int].pool;
    match before.pools@[pool as int].choice().0 {
        None => r == Dispatch::Reply(GatewayReply::NoUpstream) && asked(
            before,
            after,
            route as int,
        ),
        Some(u) => {
            let at = UpstreamRef { pool, index: u };
            let up = before.at(at);
            let target = up.uri_base.target(target_of(path));
            &&& before.has(at)
            &&& if up.config.protocol == UpstreamProtocol::H3 {
                r == Dispatch::Reply(GatewayReply::H3NotEnabled) && asked(
                    before,
                    after,
                    route as int,
                )
            } else {
                match parsed_uri(target) {
                    None => r == Dispatch::Reply(GatewayReply::BadUpstreamUri) && exists|
                        mid: RouteTable,
                    |
                        asked(before, mid, route as int) && #[trigger] replaced(
                            mid,
                            after,
                            at,
                            noted(up, Health::Failure),
                        ),
                    Some(model) => asked(before, after, route as int) && (
                    r matches Dispatch::Forward(f) && {
                        &&& f.at == at
                        &&& f.uri.model() == model
                        &&& f.host@ == up.uri_base.authority@
                        &&& f.request_timeout.nanos == up.config.request_timeout_ms * 1_000_000
                    }),
                }
            }
        },
    }
}

/// Chooses the upstream for an admitted request and builds the URI to send it to.
///
/// The pool is asked only here, after admission. An upstream whose URI cannot be built counts
/// as failed.
pub fn dispatch(table: &mut RouteTable, route: usize, path: Option<&str>) -> (r: Dispatch)
    requires
        old(table).wf(),
        route < old(table).routes@.len(),
    ensures
        final(table).wf(),
        dispatched(*old(table), *final(table), route, opt_str(path), r),
{
    let target = match path {
        Some(p) => p,
        None => "/",
    };
    let pool: usize = table.routes[route].pool;
    let ghost before = *table;
    let chosen = table.pool_mut(pool).select();
    proof {
        assert forall|k: int| 0 <= k < table.pools@.len() implies (#[trigger] table.pools@[k]).wf() by {
            assert(before.pools@[k].wf());
        }
        assert(table.pools@[pool as int].upstreams == before.pools@[pool as int].upstreams);
    }
    let index: usize = match chosen {
        None => {
            return Dispatch::Reply(GatewayReply::NoUpstream);
        },
        Some(i) => i,
    };
    let at = UpstreamRef { pool, index };
    let upstream = table.upstream(at);
    if upstream.config.protocol == UpstreamProtocol::H3 {
        return Dispatch::Reply(GatewayReply::H3NotEnabled);
    }
    let uri = upstream.build_uri(target);
    let ghost mid = *table;
    let r = dispatch_to(table, at, uri);
    proof {
        assert(asked(before, mid, route as int));
        assert(mid.at(at) == before.at(at));
    }
    r
}

/// What becomes of a routed request, and of the table, given the limiter's verdict.
pub open spec fn served(
    before: RouteTable,
    after: RouteTable,
    routed: Routed,
    granted: Option<bool>,
    path: Option<Seq<char>>,
    r: Dispatch,
) -> bool {
    match admitted(routed, granted) {
        Err(reply) => r == Dispatch::Reply(reply) && after == before,
        Ok(route) => dispatched(before, after, route, path, r),
    }
}

/// Admits a routed request, given the limiter's verdict where it was asked, and dispatches it.
pub fn serve(
    table: &mut RouteTable,
    routed: &Routed,
    granted: Option<bool>,
    path: Option<&str>,
) -> (r: Dispatch)
    requires
        old(table).wf(),
        routed.route < old(table).routes@.len(),
    ensures
        final(table).wf(),
        served(*old(table), *final(table), *routed, granted, opt_str(path), r),
{
    match admit_request(routed, granted) {
        Err(reply) => Dispatch::Reply(reply),
        Ok(route) => dispatch(table, route, path),
    }
}

/// A request that the limiter refuses is told so and asks no pool: nothing changes.
pub proof fn refused_requests_ask_no_pool(
    before: RouteTable,
    after: RouteTable,
    routed: Routed,
    path: Option<Seq<char>>,
    r: Dispatch,
)
    requires
        routed.limited,
        served(before, after, routed, Some(false), path, r),
    ensures
        after == before,
        r == Dispatch::Reply(GatewayReply::RateLimited),
{
}

/// Hands a request to the upstream at `at`, given the URI to send it to; where there is none
/// the upstream counts as failed.
pub fn dispatch_to(table: &mut RouteTable, at: UpstreamRef, uri: Option<UriParts>) -> (r: Dispatch)
    requires
        old(table).wf(),
        old(table).has(at),
    ensures
        final(table).wf(),
        match uri {
            None => r == Dispatch::Reply(GatewayReply::BadUpstreamUri) && replaced(
                *old(table),
                *final(table),
                at,
                noted(old(table).at(at), Health::Failure),
            ),
            Some(u) => *final(table) == *old(table) && (r matches Dispatch::Forward(f) && {
                &&& f.at == at
                &&& f.uri == u
                &&& f.host@ == old(table).at(at).uri_base.authority@
                &&& f.request_timeout.nanos == old(table).at(at).config.request_timeout_ms
                    * 1_000_000
            }),
        },
{
    match uri {
        Some(uri) => {
            let upstream = table.upstream(at);
            Dispatch::Forward(
                Forward {
                    at,
                    uri,
                    host: upstream.host_header().to_owned(),
                    request_timeout: Duration::from_millis(upstream.config.request_timeout_ms),
                },
            )
        },
        None => {
            table.mark_failure(at);
            Dispatch::Reply(GatewayReply::BadUpstreamUri)
        },
    }
}

/// What came back from an upstream.
#[derive(Clone, Copy, Debug, PartialEq, Eq, Structural)]
pub enum UpstreamOutcome {
    Response { status: u16 },
    TimedOut,
    Failed,
}

/// Whether the status is in the 500s.
pub open spec fn server_error(status: u16) -> bool {
    500 <= status < 600
}

/// What an outcome says of the upstream's health, and the reply where there is no response.
pub open spec fn verdict(outcome: UpstreamOutcome) -> (Health, Option<GatewayReply>) {
    match outcome {
        UpstreamOutcome::TimedOut => (Health::Failure, Some(GatewayReply::UpstreamTimedOut)),
        UpstreamOutcome::Failed => (Health::Failure, Some(GatewayReply::UpstreamFailed)),
        UpstreamOutcome::Response { status } => if server_error(status) {
            (Health::Failure, None)
        } else {
            (Health::Success, None)
        },
    }
}

/// The upstream after its health was noted.
pub open spec fn noted(u: UpstreamState, health: Health) -> UpstreamState {
    match health {
        Health::Unchanged => u,
        Health::Failure => UpstreamState {
            passive_failures: wrapped(u.passive_failures, 1),
            ..u
        },
        Health::Success => UpstreamState { passive_failures: 0, ..u },
    }
}

/// Notes an upstream's health.
pub fn note_health(table: &mut RouteTable, at: UpstreamRef, health: Health)
    requires
        old(table).wf(),
        old(table).has(at),
    ensures
        final(table).wf(),
        replaced(*old(table), *final(table), at, noted(old(table).at(at), health)),
{
    match health {
        Health::Unchanged => {
            proof {
                let us = table.pools@[at.pool as int].upstreams@;
                assert(us.update(at.index as int, us[at.index as int]) =~= us);
            }
        },
        Health::Failure => table.mark_failure(at),
        Health::Success => table.mark_success(at),
    }
}

/// Notes what came back from an upstream; gives the reply where there is no response to pass on.
pub fn conclude(table: &mut RouteTable, at: UpstreamRef, outcome: UpstreamOutcome) -> (r: Option<
    GatewayReply,
>)
    requires
        old(table).wf(),
        old(table).has(at),
    ensures
        final(table).wf(),
        r == verdict(outcome).1,
        replaced(
            *old(table),
            *final(table),
            at,
            noted(old(table).at(at), verdict(outcome).0),
        ),
{
    match outcome {
        UpstreamOutcome::TimedOut => {
            table.mark_failure(at);
            Some(GatewayReply::UpstreamTimedOut)
        },
        UpstreamOutcome::Failed => {
            table.mark_failure(at);
            Some(GatewayReply::UpstreamFailed)
        },
        UpstreamOutcome::Response { status } => {
            if 500 <= status && status < 600 {
                table.mark_failure(at);
            } else {
                table.mark_success(at);
            }
            None
        },
    }
}

/// An upstream that keeps failing is left alone from the threshold on, and one success brings
/// it back.
pub proof fn failures_add_up_until_success(u: UpstreamState, threshold: u32)
    requires
        u.active_healthy,
        u.passive_failures < usize::MAX,
    ensures
        noted(u, Health::Failure).passive_failures == u.passive_failures + 1,
        u.passive_failures + 1 >= threshold ==> !noted(u, Health::Failure).available(threshold),
        threshold > 0 ==> noted(u, Health::Success).available(threshold),
{
    crate::config::upstream::lemma_wrapped(u.passive_failures, 1);
}

// ------------------------------------------------------------------ listeners

/// How a listener is served.
#[derive(Clone, Copy, Debug, PartialEq, Eq, Structural)]
pub enum ListenerPlan {
    /// It is for TLS, and there is no certificate.
    NoCertificate,
    /// By the HTTP/3 driver.
    Http3,
    /// By nothing: it is for HTTP/3 only, and there is no driver for that.
    Http3Missing,
    /// By the ring engine.
    Ring,
    /// By so many accept loops.
    Accept { workers: usize, h1_only: bool, fast: bool },
}

/// Whether the protocols are just the one.
pub open spec fn only(protocols: Seq<ListenerProtocol>, p: ListenerProtocol) -> bool {
    protocols == seq![p]
}

/// How many accept loops a listener gets: one unless it shares its port; as many as it asks
/// for, or one for each processor.
pub open spec fn workers_of(reuse_port: bool, asked: usize, processors: Option<usize>) -> usize {
    if !reuse_port {
        1
    } else if asked == 0 {
        match processors {
            Some(n) => n,
            None => 1,
        }
    } else {
        asked
    }
}

/// How a listener is served.
pub open spec fn plan_of(
    l: ListenerConfig,
    has_cert: bool,
    processors: Option<usize>,
    http3: bool,
) -> ListenerPlan {
    if l.tls && !has_cert {
        ListenerPlan::NoCertificate
    } else if only(l.protocols@, ListenerProtocol::H3) {
        if http3 {
            ListenerPlan::Http3
        } else {
            ListenerPlan::Http3Missing
        }
    } else if l.http1_engine == Http1Engine::Uring {
        ListenerPlan::Ring
    } else {
        ListenerPlan::Accept {
            workers: workers_of(l.reuse_port, l.accept_workers, processors),
            h1_only: only(l.protocols@, ListenerProtocol::H1),
            fast: l.http1_engine == Http1Engine::Fast,
        }
    }
}

fn is_only(protocols: &Vec<ListenerProtocol>, p: ListenerProtocol) -> (r: bool)
    ensures
        r == only(protocols@, p),
{
    let r = protocols.len() == 1 && protocols[0] == p;
    proof {
        if r {
            assert(protocols@ =~= seq![p]);
        }
    }
    r
}

/// How many accept loops a listener gets.
pub fn accept_worker_count(listener: &ListenerConfig, processors: Option<usize>) -> (r: usize)
    ensures
        r == workers_of(listener.reuse_port, listener.accept_workers, processors),
{
    if !listener.reuse_port {
        return 1;
    }
    if listener.accept_workers == 0 {
        return match processors {
            Some(n) => n,
            None => 1,
        };
    }
    listener.accept_workers
}

/// How many workers the ring engine gets: as many as are asked for, or one for each processor.
pub fn ring_worker_count(listener: &ListenerConfig, processors: Option<usize>) -> (r: usize)
    ensures
        r == workers_of(true, listener.accept_workers, processors),
{
    if listener.accept_workers == 0 {
        match processors {
            Some(n) => n,
            None => 1,
        }
    } else {
        listener.accept_workers
    }
}

/// How a listener is served, given whether there is a certificate, how many processors there
/// are where that is known, and whether there is an HTTP/3 driver.
pub fn plan_listener(
    listener: &ListenerConfig,
    has_cert: bool,
    processors: Option<usize>,
    http3: bool,
) -> (r: ListenerPlan)
    ensures
        r == plan_of(*listener, has_cert, processors, http3),
{
    if listener.tls && !has_cert {
        return ListenerPlan::NoCertificate;
    }
    if is_only(&listener.protocols, ListenerProtocol::H3) {
        return if http3 {
            ListenerPlan::Http3
        } else {
            ListenerPlan::Http3Missing
        };
    }
    if listener.http1_engine == Http1Engine::Uring {
        return ListenerPlan::Ring;
    }
    ListenerPlan::Accept {
        workers: accept_worker_count(listener, processors),
        h1_only: is_only(&listener.protocols, ListenerProtocol::H1),
        fast: listener.http1_engine == Http1Engine::Fast,
    }
}

/// How one connection is served.
#[derive(Clone, Copy, Debug, PartialEq, Eq, Structural)]
pub enum ConnectionMode {
    /// By the fast engine, in the clear.
    Fast,
    /// As HTTP/1.1 by the general engine.
    Http1 { tls: bool },
    /// As whatever the client speaks, by the general engine.
    Auto { tls: bool },
}

/// How one connection of a listener is served.
pub fn connection_mode(h1_only: bool, fast: bool, tls: bool) -> (r: ConnectionMode)
    ensures
        r == if fast {
            ConnectionMode::Fast
        } else if h1_only {
            ConnectionMode::Http1 { tls }
        } else {
            ConnectionMode::Auto { tls }
        },
{
    if fast {
        ConnectionMode::Fast
    } else if h1_only {
        ConnectionMode::Http1 { tls }
    } else {
        ConnectionMode::Auto { tls }
    }
}

/// The protocols offered in a TLS handshake, the preferred one first.
pub open spec fn alpn_of(protocols: Seq<ListenerProtocol>) -> Seq<Seq<char>> {
    (if protocols.contains(ListenerProtocol::H2) {
        seq!["h2"@]
    } else {
        Seq::empty()
    }) + (if protocols.contains(ListenerProtocol::H1) {
        seq!["http/1.1"@]
    } else {
        Seq::empty()
    })
}

fn offers(protocols: &Vec<ListenerProtocol>, p: ListenerProtocol) -> (r: bool)
    ensures
        r == protocols@.contains(p),
{
    let mut i: usize = 0;
    while i < protocols.len()
        invariant
            i <= protocols.len(),
            forall|k: int| 0 <= k < i ==> protocols@[k] != p,
        decreases protocols.len() - i,
    {
        if protocols[i] == p {
            return true;
        }
        i = i + 1;
    }
    false
}

/// The protocols offered in a TLS handshake, the preferred one first.
pub fn alpn_protocols(protocols: &Vec<ListenerProtocol>) -> (v: Vec<&'static str>)
    ensures
        crate::text::texts(v@) == alpn_of(protocols@),
{
    let mut v: Vec<&'static str> = Vec::new();
    if offers(protocols, ListenerProtocol::H2) {
        v.push("h2");
    }
    if offers(protocols, ListenerProtocol::H1) {
        v.push("http/1.1");
    }
    proof {
        assert(crate::text::texts(v@) =~= alpn_of(protocols@));
    }
    v
}

// --------------------------------------------------------- open connections

/// Counts open connections.
#[derive(Debug)]
pub struct ConnectionTracker {
    pub active: usize,
}

impl ConnectionTracker {
    /// No connection is open.
    pub fn new() -> (r: ConnectionTracker)
        ensures
            r.active == 0,
    {
        ConnectionTracker { active: 0 }
    }

    /// A connection was opened.
    pub fn started(&mut self)
        ensures
            final(self).active == wrapped(old(self).active, 1),
    {
        proof {
            crate::config::upstream::lemma_wrapped(self.active, 1);
        }
        self.active = self.active.wrapping_add(1);
    }

    /// A connection was closed. Says whether it was the last.
    pub fn finished(&mut self) -> (last: bool)
        ensures
            last == (old(self).active == 1),
            final(self).active == if old(self).active == 0 {
                usize::MAX
            } else {
                (old(self).active - 1) as usize
            },
    {
        let last = self.active == 1;
        self.active = self.active.wrapping_sub(1);
        last
    }

    /// Whether no connection is open.
    pub fn is_idle(&self) -> (r: bool)
        ensures
            r == (self.active == 0),
    {
        self.active == 0
    }
}

/// Counting a connection in and out again leaves the count as it was, and the last one out is
/// noticed.
pub proof fn counting_out_undoes_counting_in(active: usize)
    requires
        active < usize::MAX,
    ensures
        wrapped(active, 1) == active + 1,
        (wrapped(active, 1) - 1) as usize == active,
        wrapped(active, 1) == 1 <==> active == 0,
{
    crate::config::upstream::lemma_wrapped(active, 1);
}

// ------------------------------------------------------------- in numbers and words

/// A response below 500 leaves its upstream without failures; one from 500 to 599, a request
/// that took too long and one that failed add one. No other upstream changes.
pub proof fn outcomes_count_by_status(
    before: RouteTable,
    after: RouteTable,
    at: UpstreamRef,
    outcome: UpstreamOutcome,
    other: UpstreamRef,
)
    requires
        before.has(at),
        before.has(other),
        other != at,
        before.at(at).passive_failures < usize::MAX,
        replaced(before, after, at, noted(before.at(at), verdict(outcome).0)),
    ensures
        outcome matches UpstreamOutcome::Response { status } ==> {
            &&& status < 500 ==> after.at(at).passive_failures == 0
            &&& 500 <= status <= 599 ==> after.at(at).passive_failures == before.at(
                at,
            ).passive_failures + 1
            &&& status >= 600 ==> after.at(at).passive_failures == 0
            &&& verdict(outcome).1 is None
        },
        !(outcome is Response) ==> after.at(at).passive_failures == before.at(at).passive_failures
            + 1,
        outcome is TimedOut ==> (verdict(outcome).1 matches Some(r) && r.parts().0 == 504),
        outcome is Failed ==> (verdict(outcome).1 matches Some(r) && r.parts().0 == 502),
        after.at(at).active_healthy == before.at(at).active_healthy,
        after.at(at).config == before.at(at).config,
        after.at(at).id == before.at(at).id,
        after.at(other) == before.at(other),
{
    crate::config::upstream::lemma_wrapped(before.at(at).passive_failures, 1);
}

/// What the engine says on its own, in numbers and words.
pub proof fn replies_say_what_happened()
    ensures
        GatewayReply::NoRoute.parts() == (404u16, "no matching route\n"@),
        GatewayReply::RateLimited.parts() == (429u16, "rate limit exceeded\n"@),
        GatewayReply::NoUpstream.parts() == (502u16, "no available upstream\n"@),
        GatewayReply::H3NotEnabled.parts() == (
            501u16,
            "HTTP/3 upstream driver is configured but not enabled in this baseline\n"@,
        ),
        GatewayReply::BadUpstreamUri.parts() == (502u16, "invalid upstream URI\n"@),
        GatewayReply::UpstreamTimedOut.parts() == (504u16, "upstream request timed out\n"@),
        GatewayReply::UpstreamFailed.parts() == (502u16, "upstream request failed\n"@),
{
}

/// A request without a target asks for `/`; a host header is read where it is printable and some
/// route is for one host only.
pub proof fn requests_are_read(path: Seq<char>, value: Seq<u8>, b: u8)
    ensures
        target_of(None) == seq!['/'],
        target_of(Some(path)) == path,
        gateway_lookup(false, Some(value)) == (false, None::<Seq<char>>),
        gateway_lookup(true, None) == (false, None::<Seq<char>>),
        printable(value) ==> gateway_lookup(true, Some(value)) == lookup_of(
            Some(trimmed(decode_utf8(value))),
        ),
        !printable(value) ==> gateway_lookup(true, Some(value)) == (false, None::<Seq<char>>),
        printable(seq![b]) <==> (32 <= b <= 126 || b == 9),
{
    reveal_strlit("/");
    assert("/"@ =~= seq!['/']);
    let s = seq![b];
    if printable(s) {
        assert((32 <= s[0] < 127) || s[0] == 9);
    }
}

/// Only a request that its limiter let pass, or that has none, goes on to the pool of its route.
pub proof fn only_refusals_are_kept_out(routed: Routed, granted: Option<bool>)
    ensures
        !routed.limited ==> admitted(routed, granted) == Ok::<usize, GatewayReply>(routed.route),
        granted == Some(true) ==> admitted(routed, granted) == Ok::<usize, GatewayReply>(
            routed.route,
        ),
        routed.limited && granted == Some(false) ==> (admitted(routed, granted) matches Err(r)
            && r.parts().0 == 429),
{
}

/// A dispatched request goes to an upstream of its route's pool, under that upstream's host and
/// with its timeout; one for an HTTP/3 upstream is told 501, and one without any upstream or
/// with a target that makes no URI 502.
pub proof fn dispatch_goes_to_the_pool_of_the_route(
    before: RouteTable,
    after: RouteTable,
    route: usize,
    path: Option<Seq<char>>,
    r: Dispatch,
)
    requires
        before.wf(),
        route < before.routes@.len(),
        dispatched(before, after, route, path, r),
    ensures
        r matches Dispatch::Forward(f) ==> {
            &&& f.at.pool == before.routes@[route as int].pool
            &&& before.has(f.at)
            &&& before.at(f.at).config.protocol != UpstreamProtocol::H3
            &&& f.host@ == before.at(f.at).uri_base.authority@
            &&& f.request_timeout.nanos == before.at(f.at).config.request_timeout_ms * 1_000_000
            &&& Some(f.at.index) == before.pools@[f.at.pool as int].choice().0
        },
        r matches Dispatch::Reply(reply) ==> reply.parts().0 == 501 || reply.parts().0 == 502,
        before.pools@[before.routes@[route as int].pool as int].choice().0 is None <==> r
            == Dispatch::Reply(GatewayReply::NoUpstream),
{
}

/// How a listener is served: not at all with TLS and no certificate; by HTTP/3 where that is all
/// it speaks; by the ring engine where it asks for it; else by accept loops, one unless it
/// shares its port.
pub proof fn listeners_are_served_as_configured(
    l: ListenerConfig,
    has_cert: bool,
    processors: Option<usize>,
    http3: bool,
)
    ensures
        l.tls && !has_cert ==> plan_of(l, has_cert, processors, http3)
            == ListenerPlan::NoCertificate,
        (has_cert || !l.tls) && l.protocols@ == seq![ListenerProtocol::H3] ==> plan_of(
            l,
            has_cert,
            processors,
            http3,
        ) == if http3 {
            ListenerPlan::Http3
        } else {
            ListenerPlan::Http3Missing
        },
        (has_cert || !l.tls) && l.protocols@ != seq![ListenerProtocol::H3] && l.http1_engine
            == Http1Engine::Uring ==> plan_of(l, has_cert, processors, http3)
            == ListenerPlan::Ring,
        (has_cert || !l.tls) && l.protocols@ != seq![ListenerProtocol::H3] && l.http1_engine
            != Http1Engine::Uring ==> (plan_of(
            l,
            has_cert,
            processors,
            http3,
        ) matches ListenerPlan::Accept { workers, h1_only, fast } && {
            &&& !l.reuse_port ==> workers == 1
            &&& l.reuse_port && l.accept_workers > 0 ==> workers == l.accept_workers
            &&& l.reuse_port && l.accept_workers == 0 ==> (processors matches Some(n) ==> workers
                == n) && (processors is None ==> workers == 1)
            &&& h1_only <==> l.protocols@ == seq![ListenerProtocol::H1]
            &&& fast <==> l.http1_engine == Http1Engine::Fast
        }),
{
}

/// HTTP/2 is offered before HTTP/1.1, each where the listener speaks it, and nothing else.
pub proof fn handshakes_offer_what_is_spoken(protocols: Seq<ListenerProtocol>)
    ensures
        protocols.contains(ListenerProtocol::H2) && protocols.contains(ListenerProtocol::H1)
            ==> alpn_of(protocols) == seq!["h2"@, "http/1.1"@],
        protocols.contains(ListenerProtocol::H2) && !protocols.contains(ListenerProtocol::H1)
            ==> alpn_of(protocols) == seq!["h2"@],
        !protocols.contains(ListenerProtocol::H2) && protocols.contains(ListenerProtocol::H1)
            ==> alpn_of(protocols) == seq!["http/1.1"@],
        !protocols.contains(ListenerProtocol::H2) && !protocols.contains(ListenerProtocol::H1)
            ==> alpn_of(protocols).len() == 0,
{
    assert(seq!["h2"@] + seq!["http/1.1"@] =~= seq!["h2"@, "http/1.1"@]);
    assert(seq!["h2"@] + Seq::<Seq<char>>::empty() =~= seq!["h2"@]);
    assert(Seq::<Seq<char>>::empty() + seq!["http/1.1"@] =~= seq!["http/1.1"@]);
}

/// How requests are counted, in words.
pub proof fn tallies_in_words(reply: GatewayReply, r: Option<&'static str>)
    requires
        call_ensures(GatewayReply::tally, (&reply,), r),
    ensures
        reply == GatewayReply::NoRoute ==> opt_str(r) == Some("no_route"@),
        reply == GatewayReply::RateLimited ==> opt_str(r) == Some("rate_limited"@),
        reply == GatewayReply::NoUpstream ==> opt_str(r) == Some("no_upstream"@),
        reply == GatewayReply::H3NotEnabled ==> opt_str(r) == Some("h3_not_enabled"@),
        reply == GatewayReply::BadUpstreamUri ==> r is None,
        reply == GatewayReply::UpstreamTimedOut ==> opt_str(r) == Some("upstream_error"@),
        reply == GatewayReply::UpstreamFailed ==> opt_str(r) == Some("upstream_error"@),
{
}

/// The fast engine serves in the clear; else HTTP/1.1 alone is served as such, and TLS where it
/// is there.
pub proof fn connections_are_served_as_configured(
    h1_only: bool,
    fast: bool,
    tls: bool,
    r: ConnectionMode,
)
    requires
        call_ensures(connection_mode, (h1_only, fast, tls), r),
    ensures
        fast ==> r == ConnectionMode::Fast,
        !fast && h1_only ==> r == (ConnectionMode::Http1 { tls }),
        !fast && !h1_only ==> r == (ConnectionMode::Auto { tls }),
{
}

/// The last connection to close is noticed, and no other.
pub proof fn the_last_connection_is_noticed(t: &mut ConnectionTracker, last: bool)
    requires
        old(t).active > 0,
        call_ensures(ConnectionTracker::finished, (t,), last),
    ensures
        final(t).active == old(t).active - 1,
        last <==> final(t).active == 0,
{
}

/// The ring engine gets as many workers as are asked for, or one for each processor.
pub proof fn ring_workers(l: ListenerConfig, processors: Option<usize>, r: usize)
    requires
        call_ensures(ring_worker_count, (&l, processors), r),
    ensures
        l.accept_workers > 0 ==> r == l.accept_workers,
        l.accept_workers == 0 ==> (processors matches Some(n) ==> r == n) && (processors is None
            ==> r == 1),
{
}

/// An answer below 500 clears the failures of its upstream and one from 500 on is a failure, as is
/// no answer, which is told to the client as 502, or as 504 where it took too long. No other
/// upstream is touched.
pub proof fn conclusions_count_by_status(
    table: &mut RouteTable,
    at: UpstreamRef,
    outcome: UpstreamOutcome,
    r: Option<GatewayReply>,
    other: UpstreamRef,
)
    requires
        old(table).wf(),
        old(table).has(at),
        old(table).has(other),
        other != at,
        old(table).at(at).passive_failures < usize::MAX,
        call_ensures(conclude, (table, at, outcome), r),
    ensures
        outcome matches UpstreamOutcome::Response { status } ==> r is None && (status < 500
            ==> final(table).at(at).passive_failures == 0) && (500 <= status <= 599 ==> final(
            table
        ).at(at).passive_failures == old(table).at(at).passive_failures + 1),
        outcome is TimedOut ==> (r matches Some(reply) && reply.parts().0 == 504) && final(table).at(
            at,
        ).passive_failures == old(table).at(at).passive_failures + 1,
        outcome is Failed ==> (r matches Some(reply) && reply.parts().0 == 502) && final(table).at(
            at,
        ).passive_failures == old(table).at(at).passive_failures + 1,
        final(table).at(at).active_healthy == old(table).at(at).active_healthy,
        final(table).at(other) == old(table).at(other),
{
    outcomes_count_by_status(*old(table), *final(table), at, outcome, other);
}

/// A request is told that there is no route, or gets one whose prefix its path is under.
pub proof fn requests_get_a_route_that_fits(
    table: RouteTable,
    host: Option<&[u8]>,
    path: Option<&str>,
    r: Result<Routed, GatewayReply>,
)
    requires
        table.wf(),
        call_ensures(find_route, (&table, host, path), r),
    ensures
        r matches Err(reply) ==> reply.parts().0 == 404,
        r matches Ok(found) ==> found.route < table.routes@.len() && (found.limited
            <==> table.routes@[found.route as int].rate_limiter is Some),
{
}

/// A request over its limit is refused with 429 and asks for no upstream; any other goes to the
/// pool of its route.
pub proof fn limits_hold(
    table: &mut RouteTable,
    routed: Routed,
    granted: Option<bool>,
    path: Option<&str>,
    r: Dispatch,
)
    requires
        old(table).wf(),
        routed.route < old(table).routes@.len(),
        call_ensures(serve, (table, &routed, granted, path), r),
    ensures
        routed.limited && granted == Some(false) ==> (r matches Dispatch::Reply(reply)
            && reply.parts().0 == 429) && *final(table) == *old(table),
        r matches Dispatch::Forward(f) ==> {
            &&& !routed.limited || granted != Some(false)
            &&& f.at.pool == old(table).routes@[routed.route as int].pool
            &&& f.host@ == old(table).at(f.at).uri_base.authority@
        },
{
    if let Ok(route) = admitted(routed, granted) {
        dispatch_goes_to_the_pool_of_the_route(*old(table), *final(table), route, opt_str(path), r);
    }
}

/// A connection that starts is counted.
pub proof fn connections_are_counted(t: &mut ConnectionTracker)
    requires
        old(t).active < usize::MAX,
        call_ensures(ConnectionTracker::started, (t,), ()),
    ensures
        final(t).active == old(t).active + 1,
{
    crate::config::upstream::lemma_wrapped(old(t).active, 1);
}

} // verus!
