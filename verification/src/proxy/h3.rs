//! HTTP/3 requests: what they ask for, which are answered at once, and how the others go to an
//! upstream.

use crate::addr::{parse_ipv4, v4_in, SocketAddr};
use crate::config::routes::{
    chosen_route, configs, lookup_of, replaced, HostLookup, RouteTable, UpstreamRef,
};
use crate::octets::{bytes_eq, lower_byte, lower_bytes, prefix_of, push_text, utf8_text};
use crate::proxy::exchange::Health;
use crate::proxy::gateway::{note_health, noted, target_of, Routed};
use crate::proxy::head::{fields, HeaderField};
use crate::proxy::select::asked;
use crate::text::{decimal, decimal_text, parse_number, parsed_number, trim, trimmed};
use crate::time::Duration;
use crate::uri::{opt_str, opt_text, parse_authority_host, parse_uri, parsed_uri, UriParts};
use vstd::prelude::*;
use vstd::string::*;
use vstd::utf8::{decode_utf8, encode_utf8, valid_utf8};

verus! {

/// A header field as HTTP/3 carries it.
pub struct H3Header {
    pub name: Vec<u8>,
    pub value: Vec<u8>,
}

/// Names and values.
pub open spec fn h3_fields(hs: Seq<H3Header>) -> Seq<(Seq<u8>, Seq<u8>)> {
    hs.map_values(|h: H3Header| (h.name@, h.value@))
}

/// The longest name of a header field.
pub const MAX_NAME_LEN: usize = 65535;

/// Whether a byte may stand in the name of a header field: a letter, a digit, or one of the
/// marks that tokens may hold.
pub open spec fn name_byte(b: u8) -> bool {
    ||| 48 <= b <= 57
    ||| 65 <= b <= 90
    ||| 94 <= b <= 122
    ||| b == 33
    ||| 35 <= b <= 39
    ||| b == 42
    ||| b == 43
    ||| b == 45
    ||| b == 46
    ||| b == 124
    ||| b == 126
}

/// The name that bytes spell, in lower case; nothing where they are no name.
pub open spec fn name_of(bytes: Seq<u8>) -> Option<Seq<char>> {
    if 0 < bytes.len() <= MAX_NAME_LEN && forall|i: int|
        0 <= i < bytes.len() ==> name_byte(#[trigger] bytes[i]) {
        Some(bytes.map_values(|b: u8| lower_byte(b) as char))
    } else {
        None
    }
}

/// Calls `http::header::HeaderName::from_bytes` and copies out the name.
///
/// Claimed: bytes are a name exactly where there are between one and 65535 of them and each is
/// a letter, a digit or one of the marks that names may hold; the name is that text in lower
/// case.
#[verifier::external_body]
pub(crate) fn header_name(bytes: &[u8]) -> (r: Option<String>)
    ensures
        opt_text(r) == name_of(bytes@),
{
    http::header::HeaderName::from_bytes(bytes).ok().map(|n| n.as_str().to_owned())
}

/// Whether bytes may stand as the value of a header field: no control characters but tabs.
pub open spec fn value_allowed(bytes: Seq<u8>) -> bool {
    forall|i: int|
        0 <= i < bytes.len() ==> (#[trigger] bytes[i] >= 32 && bytes[i] != 127) || bytes[i] == 9
}

/// Calls `http::HeaderValue::from_bytes`.
///
/// Claimed: it accepts bytes exactly where none is a control character other than a tab.
#[verifier::external_body]
pub(crate) fn header_value_ok(bytes: &[u8]) -> (r: bool)
    ensures
        r == value_allowed(bytes@),
{
    http::HeaderValue::from_bytes(bytes).is_ok()
}

// ---------------------------------------------------------------- the request

/// The value of the last field with exactly this name.
pub open spec fn last_value(hs: Seq<(Seq<u8>, Seq<u8>)>, name: Seq<u8>) -> Option<Seq<u8>>
    decreases hs.len(),
{
    if hs.len() == 0 {
        None
    } else if hs.last().0 == name {
        Some(hs.last().1)
    } else {
        last_value(hs.drop_last(), name)
    }
}

/// The text of the last field with exactly this name, where that is text.
pub open spec fn last_text(hs: Seq<(Seq<u8>, Seq<u8>)>, name: Seq<char>) -> Option<Seq<char>> {
    match last_value(hs, encode_utf8(name)) {
        Some(v) => if valid_utf8(v) {
            Some(decode_utf8(v))
        } else {
            None
        },
        None => None,
    }
}

/// The value of the first field of this name, up to case.
pub open spec fn first_named(hs: Seq<(Seq<u8>, Seq<u8>)>, name: Seq<u8>) -> Option<Seq<u8>>
    decreases hs.len(),
{
    if hs.len() == 0 {
        None
    } else if lower_bytes(hs[0].0) == lower_bytes(name) {
        Some(hs[0].1)
    } else {
        first_named(hs.skip(1), name)
    }
}

/// Whether a request states a body: its stream goes on, or it has a length above zero.
pub open spec fn states_body(hs: Seq<(Seq<u8>, Seq<u8>)>, read_fin: bool) -> bool {
    !read_fin || match first_named(hs, encode_utf8("content-length"@)) {
        Some(v) => valid_utf8(v) && (parsed_number(
            trimmed(decode_utf8(v)),
            10,
            usize::MAX as nat,
        ) matches Some(n) && n > 0),
        None => false,
    }
}

/// What a request asks for.
pub struct H3Request {
    pub host: Option<String>,
    pub path: Option<String>,
    pub method: String,
}

impl H3Request {
    /// The request that the fields state: authority, path, and a method that is `GET` where
    /// none can be read.
    pub open spec fn stated_by(&self, hs: Seq<(Seq<u8>, Seq<u8>)>) -> bool {
        &&& opt_text(self.host) == last_text(hs, ":authority"@)
        &&& opt_text(self.path) == last_text(hs, ":path"@)
        &&& self.method@ == (match last_text(hs, ":method"@) {
            Some(m) => m,
            None => "GET"@,
        })
    }
}

fn find_last_text(headers: &Vec<H3Header>, name: &str) -> (r: Option<String>)
    ensures
        opt_text(r) == last_text(h3_fields(headers@), name@),
{
    let ghost hs = h3_fields(headers@);
    let want = name.as_bytes();
    let mut i: usize = headers.len();
    proof {
        assert(hs.take(hs.len() as int) =~= hs);
    }
    while i > 0
        invariant
            i <= headers.len(),
            hs == h3_fields(headers@),
            want@ == encode_utf8(name@),
            last_value(hs, want@) == last_value(hs.take(i as int), want@),
        decreases i,
    {
        i = i - 1;
        proof {
            assert(hs.take(i + 1).last() == hs[i as int]);
            assert(hs.take(i + 1).drop_last() =~= hs.take(i as int));
        }
        if bytes_eq(headers[i].name.as_slice(), want) {
            return utf8_text(headers[i].value.as_slice());
        }
    }
    None
}

/// Reads what a request asks for.
pub fn read_request(headers: &Vec<H3Header>) -> (r: H3Request)
    ensures
        r.stated_by(h3_fields(headers@)),
{
    let method = match find_last_text(headers, ":method") {
        Some(m) => m,
        None => "GET".to_owned(),
    };
    H3Request {
        host: find_last_text(headers, ":authority"),
        path: find_last_text(headers, ":path"),
        method,
    }
}

fn byte_lower(b: u8) -> (r: u8)
    ensures
        r == lower_byte(b),
{
    if 65 <= b && b <= 90 {
        b + 32
    } else {
        b
    }
}

fn same_name(a: &[u8], b: &[u8]) -> (r: bool)
    ensures
        r == (lower_bytes(a@) == lower_bytes(b@)),
{
    if a.len() != b.len() {
        proof {
            assert(lower_bytes(a@).len() != lower_bytes(b@).len());
        }
        return false;
    }
    let mut i: usize = 0;
    while i < a.len()
        invariant
            i <= a.len() == b.len(),
            forall|k: int| 0 <= k < i ==> lower_bytes(a@)[k] == lower_bytes(b@)[k],
        decreases a.len() - i,
    {
        if byte_lower(a[i]) != byte_lower(b[i]) {
            proof {
                assert(lower_bytes(a@)[i as int] != lower_bytes(b@)[i as int]);
            }
            return false;
        }
        i = i + 1;
    }
    proof {
        assert(lower_bytes(a@) =~= lower_bytes(b@));
    }
    true
}

/// The value of the first field of this name, up to case.
pub fn header_value<'a>(headers: &'a Vec<H3Header>, name: &str) -> (r: Option<&'a Vec<u8>>)
    ensures
        crate::proxy::head::opt_bytes(r) == first_named(
            h3_fields(headers@),
            encode_utf8(name@),
        ),
{
    let ghost hs = h3_fields(headers@);
    let want = name.as_bytes();
    let mut i: usize = 0;
    proof {
        assert(hs.skip(0) =~= hs);
    }
    while i < headers.len()
        invariant
            i <= headers.len(),
            hs == h3_fields(headers@),
            want@ == encode_utf8(name@),
            first_named(hs, want@) == first_named(hs.skip(i as int), want@),
        decreases headers.len() - i,
    {
        proof {
            assert(hs.skip(i as int)[0] == hs[i as int]);
            assert(hs.skip(i as int).skip(1) =~= hs.skip(i + 1));
        }
        if same_name(headers[i].name.as_slice(), want) {
            return Some(&headers[i].value);
        }
        i = i + 1;
    }
    None
}

/// Whether a request states a body.
pub fn has_body(headers: &Vec<H3Header>, read_fin: bool) -> (r: bool)
    ensures
        r == states_body(h3_fields(headers@), read_fin),
{
    if !read_fin {
        return true;
    }
    match header_value(headers, "content-length") {
        None => false,
        Some(v) => match utf8_text(v.as_slice()) {
            None => false,
            Some(text) => match parse_number(trim(text.as_str()), 10, usize::MAX as u64) {
                Some(n) => n > 0,
                None => false,
            },
        },
    }
}

// ------------------------------------------------------------------- replies

/// The replies that are given without an upstream.
#[derive(Clone, Copy, Debug, PartialEq, Eq, Structural)]
pub enum H3Reply {
    BodyUnsupported,
    NoRoute,
    RateLimited,
    NoUpstream,
}

impl H3Reply {
    /// Status and text.
    pub open spec fn parts(self) -> (Seq<char>, Seq<char>) {
        match self {
            H3Reply::BodyUnsupported => ("413"@, "HTTP/3 request bodies are not supported\n"@),
            H3Reply::NoRoute => ("404"@, "no matching route\n"@),
            H3Reply::RateLimited => ("429"@, "rate limit exceeded\n"@),
            H3Reply::NoUpstream => ("502"@, "no available upstream\n"@),
        }
    }

    /// The status of the reply.
    pub fn status(&self) -> (r: &'static str)
        ensures
            r@ == self.parts().0,
    {
        match self {
            H3Reply::BodyUnsupported => "413",
            H3Reply::NoRoute => "404",
            H3Reply::RateLimited => "429",
            H3Reply::NoUpstream => "502",
        }
    }

    /// The text of the reply.
    pub fn text(&self) -> (r: &'static str)
        ensures
            r@ == self.parts().1,
    {
        match self {
            H3Reply::BodyUnsupported => "HTTP/3 request bodies are not supported\n",
            H3Reply::NoRoute => "no matching route\n",
            H3Reply::RateLimited => "rate limit exceeded\n",
            H3Reply::NoUpstream => "no available upstream\n",
        }
    }

    /// The result that the reply is counted under; a request with a body is not counted.
    pub fn tally(&self) -> (r: Option<&'static str>)
        ensures
            opt_str(r) == match *self {
                H3Reply::BodyUnsupported => None,
                H3Reply::NoRoute => Some("no_route"@),
                H3Reply::RateLimited => Some("rate_limited"@),
                H3Reply::NoUpstream => Some("no_upstream"@),
            },
    {
        match self {
            H3Reply::BodyUnsupported => None,
            H3Reply::NoRoute => Some("no_route"),
            H3Reply::RateLimited => Some("rate_limited"),
            H3Reply::NoUpstream => Some("no_upstream"),
        }
    }

    /// Whether it matters that the reply could not be sent.
    pub fn must_arrive(&self) -> (r: bool)
        ensures
            r == (*self == H3Reply::BodyUnsupported || *self == H3Reply::RateLimited),
    {
        match self {
            H3Reply::BodyUnsupported => true,
            H3Reply::NoRoute => false,
            H3Reply::RateLimited => true,
            H3Reply::NoUpstream => false,
        }
    }

    /// The header fields of the reply.
    pub fn headers(&self) -> (r: Vec<H3Header>)
        ensures
            h3_fields(r@) == seq![
                (encode_utf8(":status"@), encode_utf8(self.parts().0)),
                (encode_utf8("content-type"@), encode_utf8("text/plain"@)),
            ],
    {
        let mut r: Vec<H3Header> = Vec::new();
        r.push(text_header(":status", self.status()));
        r.push(text_header("content-type", "text/plain"));
        proof {
            assert(h3_fields(r@) =~= seq![
                (encode_utf8(":status"@), encode_utf8(self.parts().0)),
                (encode_utf8("content-type"@), encode_utf8("text/plain"@)),
            ]);
        }
        r
    }
}

fn text_header(name: &str, value: &str) -> (r: H3Header)
    ensures
        r.name@ == encode_utf8(name@),
        r.value@ == encode_utf8(value@),
{
    let mut n: Vec<u8> = Vec::new();
    push_text(&mut n, name);
    let mut v: Vec<u8> = Vec::new();
    push_text(&mut v, value);
    proof {
        assert(n@ =~= encode_utf8(name@));
        assert(v@ =~= encode_utf8(value@));
    }
    H3Header { name: n, value: v }
}

// ------------------------------------------------------------------ admission

/// The key that a host header is looked up under.
pub open spec fn trimmed_host(host: Option<Seq<char>>) -> Option<Seq<char>> {
    match host {
        Some(h) => Some(trimmed(h)),
        None => None,
    }
}

/// The route of a request that states these fields.
pub open spec fn h3_route(t: RouteTable, hs: Seq<(Seq<u8>, Seq<u8>)>) -> Option<int> {
    chosen_route(
        configs(t.routes@),
        lookup_of(trimmed_host(last_text(hs, ":authority"@))),
        target_of(last_text(hs, ":path"@)),
    )
}

/// Finds the route of a request, or the reply that it gets at once: one with a body is refused
/// before it is routed.
pub fn find_h3_route(table: &RouteTable, headers: &Vec<H3Header>, read_fin: bool) -> (r: Result<
    Routed,
    H3Reply,
>)
    requires
        table.wf(),
    ensures
        if states_body(h3_fields(headers@), read_fin) {
            r == Err::<Routed, H3Reply>(H3Reply::BodyUnsupported)
        } else {
            match h3_route(*table, h3_fields(headers@)) {
                None => r == Err::<Routed, H3Reply>(H3Reply::NoRoute),
                Some(i) => r matches Ok(found) && found.route == i && i < table.routes@.len()
                    && found.limited == table.routes@[i].rate_limiter.is_some(),
            }
        },
{
    if has_body(headers, read_fin) {
        return Err(H3Reply::BodyUnsupported);
    }
    let request = read_request(headers);
    let lookup = match &request.host {
        None => HostLookup::Absent,
        Some(h) => match parse_authority_host(trim(h.as_str())) {
            Some(key) => HostLookup::Key(key),
            None => HostLookup::Malformed,
        },
    };
    let target = match &request.path {
        Some(p) => p.as_str(),
        None => "/",
    };
    match table.match_lookup(&lookup, target) {
        None => Err(H3Reply::NoRoute),
        Some(m) => Ok(Routed { route: m.index, limited: m.rate_limiter.is_some() }),
    }
}

// ----------------------------------------------------------------- forwarding

/// The upstream that the pool of a route gives, and the table afterwards.
pub open spec fn upstream_chosen(
    before: RouteTable,
    after: RouteTable,
    route: usize,
    r: Result<UpstreamRef, H3Reply>,
) -> bool {
    let pool = before.routes@[route as int].pool;
    &&& asked(before, after, route as int)
    &&& match before.pools@[pool as int].choice().0 {
        None => r == Err::<UpstreamRef, H3Reply>(H3Reply::NoUpstream),
        Some(u) => r == Ok::<UpstreamRef, H3Reply>(UpstreamRef { pool, index: u }) && after.has(
            r->Ok_0,
        ) && after.at(r->Ok_0) == before.at(r->Ok_0),
    }
}

/// Asks the pool of a route for an upstream.
pub fn choose_upstream(table: &mut RouteTable, route: usize) -> (r: Result<UpstreamRef, H3Reply>)
    requires
        old(table).wf(),
        route < old(table).routes@.len(),
    ensures
        final(table).wf(),
        upstream_chosen(*old(table), *final(table), route, r),
{
    let pool: usize = table.routes[route].pool;
    let ghost before = *table;
    let chosen = table.pool_mut(pool).select();
    proof {
        assert forall|k: int| 0 <= k < table.pools@.len() implies (#[trigger] table.pools@[k]).wf() by {
            assert(before.pools@[k].wf());
        }
        assert(table.pools@[pool as int].upstreams == before.pools@[pool as int].upstreams);
    }
    match chosen {
        None => Err(H3Reply::NoUpstream),
        Some(index) => Ok(UpstreamRef { pool, index }),
    }
}

/// The index of the route, unless the limiter was asked and refused.
pub open spec fn h3_admitted(routed: Routed, granted: Option<bool>) -> Result<usize, H3Reply> {
    if routed.limited && granted == Some(false) {
        Err(H3Reply::RateLimited)
    } else {
        Ok(routed.route)
    }
}

/// Admits a request to its route, given the limiter's verdict where it was asked.
pub fn admit_h3(routed: &Routed, granted: Option<bool>) -> (r: Result<usize, H3Reply>)
    ensures
        r == h3_admitted(*routed, granted),
{
    if routed.limited {
        if let Some(false) = granted {
            return Err(H3Reply::RateLimited);
        }
    }
    Ok(routed.route)
}

/// The upstream that a routed request gets, and the table afterwards, given the limiter's
/// verdict.
pub open spec fn h3_served(
    before: RouteTable,
    after: RouteTable,
    routed: Routed,
    granted: Option<bool>,
    r: Result<UpstreamRef, H3Reply>,
) -> bool {
    match h3_admitted(routed, granted) {
        Err(reply) => r == Err::<UpstreamRef, H3Reply>(reply) && after == before,
        Ok(route) => upstream_chosen(before, after, route, r),
    }
}

/// Admits a routed request, given the limiter's verdict where it was asked, and asks the pool of
/// its route for an upstream.
pub fn serve_h3(table: &mut RouteTable, routed: &Routed, granted: Option<bool>) -> (r: Result<
    UpstreamRef,
    H3Reply,
>)
    requires
        old(table).wf(),
        routed.route < old(table).routes@.len(),
    ensures
        final(table).wf(),
        h3_served(*old(table), *final(table), *routed, granted, r),
{
    match admit_h3(routed, granted) {
        Err(reply) => Err(reply),
        Ok(route) => choose_upstream(table, route),
    }
}

/// A request that the limiter refuses is told so and asks no pool: nothing changes.
pub proof fn refused_h3_requests_ask_no_pool(
    before: RouteTable,
    after: RouteTable,
    routed: Routed,
    r: Result<UpstreamRef, H3Reply>,
)
    requires
        routed.limited,
        h3_served(before, after, routed, Some(false), r),
    ensures
        after == before,
        r == Err::<UpstreamRef, H3Reply>(H3Reply::RateLimited),
{
}

/// Where the packets of a connection go.
pub enum RouteTarget {
    /// To this address.
    Address(SocketAddr),
    /// To the IPv4 address that this name resolves to.
    Name { host: String, port: u16 },
}

impl RouteTarget {
    /// An address is used as it is; anything else is a name to resolve.
    pub open spec fn is_for(&self, host: Seq<char>, port: u16) -> bool {
        match v4_in(host) {
            Some(ip) => *self == RouteTarget::Address(SocketAddr::V4 { ip, port }),
            None => self matches RouteTarget::Name { host: h, port: p } && h@ == host && *p == port,
        }
    }
}

/// The host and port of an upstream, with defaults for what its URL leaves out.
pub open spec fn host_and_port(
    uri: (
        Option<Seq<char>>,
        Option<Seq<char>>,
        Seq<char>,
        Option<Seq<char>>,
        Option<u16>,
        Seq<char>,
    ),
) -> (Seq<char>, u16) {
    (
        match uri.3 {
            Some(h) => h,
            None => "127.0.0.1"@,
        },
        match uri.4 {
            Some(p) => p,
            None => 80,
        },
    )
}

/// Where the packets of a connection to an upstream with this URL go.
pub fn target_of_uri(uri: &UriParts) -> (r: RouteTarget)
    ensures
        r.is_for(host_and_port(uri.model()).0, host_and_port(uri.model()).1),
{
    let host = match &uri.host {
        Some(h) => h.as_str(),
        None => "127.0.0.1",
    };
    let port: u16 = match uri.port {
        Some(p) => p,
        None => 80,
    };
    match parse_ipv4(host) {
        Some(ip) => RouteTarget::Address(SocketAddr::V4 { ip, port }),
        None => RouteTarget::Name { host: host.to_owned(), port },
    }
}

/// Where the packets of a connection to the upstream go; nothing where its URL is unreadable.
pub fn route_target(table: &RouteTable, at: UpstreamRef) -> (r: Option<RouteTarget>)
    requires
        table.has(at),
    ensures
        match parsed_uri(table.at(at).config.url@) {
            None => r is None,
            Some(m) => r matches Some(t) && t.is_for(host_and_port(m).0, host_and_port(m).1),
        },
{
    match parse_uri(table.upstream(at).config.url.as_str()) {
        None => None,
        Some(parts) => Some(target_of_uri(&parts)),
    }
}

/// The first IPv4 address.
pub open spec fn first_v4(addrs: Seq<SocketAddr>) -> Option<SocketAddr>
    decreases addrs.len(),
{
    if addrs.len() == 0 {
        None
    } else if addrs[0] is V4 {
        Some(addrs[0])
    } else {
        first_v4(addrs.skip(1))
    }
}

/// The first IPv4 address that a name resolved to.
pub fn pick_v4(addrs: &Vec<SocketAddr>) -> (r: Option<SocketAddr>)
    ensures
        r == first_v4(addrs@),
{
    let mut i: usize = 0;
    proof {
        assert(addrs@.skip(0) =~= addrs@);
    }
    while i < addrs.len()
        invariant
            i <= addrs.len(),
            first_v4(addrs@) == first_v4(addrs@.skip(i as int)),
        decreases addrs.len() - i,
    {
        proof {
            assert(addrs@.skip(i as int).skip(1) =~= addrs@.skip(i + 1));
        }
        if matches!(addrs[i], SocketAddr::V4 { .. }) {
            return Some(addrs[i]);
        }
        i = i + 1;
    }
    None
}

/// Whether a field goes upstream: pseudo fields, and fields that HTTP/1.1 could not carry, do
/// not.
pub open spec fn passes(h: (Seq<u8>, Seq<u8>)) -> bool {
    !(h.0.len() > 0 && h.0[0] == 58) && name_of(h.0).is_some() && value_allowed(h.1)
}

/// The fields that go upstream, in order.
pub open spec fn passed_on(hs: Seq<(Seq<u8>, Seq<u8>)>) -> Seq<(Seq<char>, Seq<u8>)>
    decreases hs.len(),
{
    if hs.len() == 0 {
        Seq::empty()
    } else if passes(hs.last()) {
        passed_on(hs.drop_last()).push((name_of(hs.last().0)->0, hs.last().1))
    } else {
        passed_on(hs.drop_last())
    }
}

/// The fields that go upstream.
pub fn forward_headers(headers: &Vec<H3Header>) -> (r: Vec<HeaderField>)
    ensures
        fields(r@) == passed_on(h3_fields(headers@)),
{
    let ghost hs = h3_fields(headers@);
    let mut r: Vec<HeaderField> = Vec::new();
    let mut i: usize = 0;
    proof {
        assert(fields(r@) =~= Seq::<(Seq<char>, Seq<u8>)>::empty());
    }
    while i < headers.len()
        invariant
            i <= headers.len(),
            hs == h3_fields(headers@),
            fields(r@) == passed_on(hs.take(i as int)),
        decreases headers.len() - i,
    {
        let h = &headers[i];
        let pseudo = h.name.len() > 0 && h.name[0] == 58;
        let ghost before = r@;
        proof {
            assert(hs.take(i + 1).last() == (h.name@, h.value@));
            assert(hs.take(i + 1).drop_last() =~= hs.take(i as int));
        }
        if !pseudo {
            if let Some(name) = header_name(h.name.as_slice()) {
                if header_value_ok(h.value.as_slice()) {
                    let value = prefix_of(h.value.as_slice(), h.value.len());
                    proof {
                        assert(value@ =~= h.value@);
                    }
                    let field = HeaderField { name, value };
                    r.push(field);
                    proof {
                        assert(fields(r@) =~= fields(before).push((field.name@, field.value@)));
                    }
                }
            }
        }
        i = i + 1;
    }
    proof {
        assert(hs.take(hs.len() as int) =~= hs);
    }
    r
}

/// A request that goes to an upstream.
pub struct H3Forward {
    pub method: String,
    pub uri: UriParts,
    pub headers: Vec<HeaderField>,
    pub request_timeout: Duration,
}

/// Builds the request for the upstream; nothing where its URI cannot be built.
pub fn build_forward(table: &RouteTable, at: UpstreamRef, headers: &Vec<H3Header>) -> (r: Option<
    H3Forward,
>)
    requires
        table.has(at),
    ensures
        ({
            let hs = h3_fields(headers@);
            let up = table.at(at);
            match parsed_uri(up.uri_base.target(target_of(last_text(hs, ":path"@)))) {
                None => r is None,
                Some(model) => r matches Some(f) && {
                    &&& f.uri.model() == model
                    &&& f.method@ == (match last_text(hs, ":method"@) {
                        Some(m) => m,
                        None => "GET"@,
                    })
                    &&& fields(f.headers@) == passed_on(hs)
                    &&& f.request_timeout.nanos == up.config.request_timeout_ms * 1_000_000
                },
            }
        }),
{
    let request = read_request(headers);
    let target = match &request.path {
        Some(p) => p.as_str(),
        None => "/",
    };
    match table.upstream(at).build_uri(target) {
        None => None,
        Some(uri) => Some(forward_to(table, at, headers, uri)),
    }
}

/// The request for the upstream, given the URI to send it to.
pub fn forward_to(
    table: &RouteTable,
    at: UpstreamRef,
    headers: &Vec<H3Header>,
    uri: UriParts,
) -> (f: H3Forward)
    requires
        table.has(at),
    ensures
        f.uri == uri,
        f.method@ == (match last_text(h3_fields(headers@), ":method"@) {
            Some(m) => m,
            None => "GET"@,
        }),
        fields(f.headers@) == passed_on(h3_fields(headers@)),
        f.request_timeout.nanos == table.at(at).config.request_timeout_ms * 1_000_000,
{
    H3Forward {
        method: read_request(headers).method,
        uri,
        headers: forward_headers(headers),
        request_timeout: Duration::from_millis(table.upstream(at).config.request_timeout_ms),
    }
}

/// What came back from the upstream.
#[derive(Clone, Copy, Debug, PartialEq, Eq, Structural)]
pub enum H3Outcome {
    Answered,
    Failed,
    TimedOut,
}

impl H3Outcome {
    /// The result that the outcome is counted under; a request that took too long is not
    /// counted. An answer is counted once it was passed on.
    pub fn tally(&self) -> (r: Option<&'static str>)
        ensures
            opt_str(r) == match *self {
                H3Outcome::Answered => Some("proxied"@),
                H3Outcome::Failed => Some("upstream_error"@),
                H3Outcome::TimedOut => None,
            },
    {
        match self {
            H3Outcome::Answered => Some("proxied"),
            H3Outcome::Failed => Some("upstream_error"),
            H3Outcome::TimedOut => None,
        }
    }
}

/// Any answer counts as a success and a failed request as a failure; nothing is noted of one
/// that took too long.
pub open spec fn outcome_health(o: H3Outcome) -> Health {
    match o {
        H3Outcome::Answered => Health::Success,
        H3Outcome::Failed => Health::Failure,
        H3Outcome::TimedOut => Health::Unchanged,
    }
}

/// Notes what came back from an upstream.
pub fn conclude(table: &mut RouteTable, at: UpstreamRef, outcome: H3Outcome)
    requires
        old(table).wf(),
        old(table).has(at),
    ensures
        final(table).wf(),
        replaced(
            *old(table),
            *final(table),
            at,
            noted(old(table).at(at), outcome_health(outcome)),
        ),
{
    let health = match outcome {
        H3Outcome::Answered => Health::Success,
        H3Outcome::Failed => Health::Failure,
        H3Outcome::TimedOut => Health::Unchanged,
    };
    note_health(table, at, health);
}

/// The fields of a response: the status, and then those of the upstream.
pub open spec fn response_of(status: u16, hs: Seq<(Seq<char>, Seq<u8>)>) -> Seq<
    (Seq<u8>, Seq<u8>),
> {
    seq![(encode_utf8(":status"@), encode_utf8(decimal(status as nat)))] + hs.map_values(
        |h: (Seq<char>, Seq<u8>)| (encode_utf8(h.0), h.1),
    )
}

/// The fields of a response that is passed on.
pub fn response_headers(status: u16, headers: &Vec<HeaderField>) -> (r: Vec<H3Header>)
    ensures
        h3_fields(r@) == response_of(status, fields(headers@)),
{
    let digits = decimal_text(status as u64);
    let mut r: Vec<H3Header> = Vec::new();
    r.push(text_header(":status", digits.as_str()));
    let ghost hs = fields(headers@);
    let ghost all = response_of(status, hs);
    let mut i: usize = 0;
    proof {
        assert(h3_fields(r@) =~= all.take(1));
    }
    while i < headers.len()
        invariant
            i <= headers.len(),
            hs == fields(headers@),
            all == response_of(status, hs),
            h3_fields(r@) == all.take(i + 1),
        decreases headers.len() - i,
    {
        let ghost before = r@;
        let mut name: Vec<u8> = Vec::new();
        push_text(&mut name, headers[i].name.as_str());
        let value = prefix_of(headers[i].value.as_slice(), headers[i].value.len());
        proof {
            assert(name@ =~= encode_utf8(headers@[i as int].name@));
            assert(value@ =~= headers@[i as int].value@);
        }
        let h = H3Header { name, value };
        r.push(h);
        i = i + 1;
        proof {
            assert(h3_fields(r@) =~= h3_fields(before).push((h.name@, h.value@)));
            assert(all.take(i + 1) =~= all.take(i as int).push(all[i as int]));
            assert(all[i as int] == (h.name@, h.value@));
        }
    }
    proof {
        assert(all.take(i + 1) =~= all);
    }
    r
}

/// No pseudo field goes upstream: what is passed on is the same without it, and no name that
/// is passed on begins with a colon.
pub proof fn pseudo_fields_stay_here(hs: Seq<(Seq<u8>, Seq<u8>)>)
    ensures
        passed_on(hs) == passed_on(hs.filter(|h: (Seq<u8>, Seq<u8>)| !(h.0.len() > 0 && h.0[0] == 58))),
        forall|i: int|
            0 <= i < passed_on(hs).len() ==> (#[trigger] passed_on(hs)[i]).0.len() > 0
                && passed_on(hs)[i].0[0] != ':',
    decreases hs.len(),
{
    reveal(Seq::filter);
    if hs.len() > 0 {
        let plain = |h: (Seq<u8>, Seq<u8>)| !(h.0.len() > 0 && h.0[0] == 58);
        pseudo_fields_stay_here(hs.drop_last());
        if plain(hs.last()) {
            assert(hs.filter(plain).last() == hs.last());
            assert(hs.filter(plain).drop_last() =~= hs.drop_last().filter(plain));
        }
    }
}

// ------------------------------------------------------------- in numbers and words

/// A request is read from its last `:authority`, `:path` and `:method`, whose names are exact;
/// a later field goes before an earlier one.
pub proof fn the_last_pseudo_field_is_read(
    hs: Seq<(Seq<u8>, Seq<u8>)>,
    name: Seq<char>,
    text: Seq<char>,
    other: (Seq<u8>, Seq<u8>),
)
    requires
        other.0 != encode_utf8(name),
    ensures
        last_text(hs.push((encode_utf8(name), encode_utf8(text))), name) == Some(text),
        last_text(hs.push(other), name) == last_text(hs, name),
        last_text(Seq::empty(), name) is None,
{
    broadcast use vstd::utf8::group_utf8_lib;

    let a = hs.push((encode_utf8(name), encode_utf8(text)));
    let b = hs.push(other);
    assert(a.last() == (encode_utf8(name), encode_utf8(text)));
    assert(b.drop_last() =~= hs);
    assert(b.last() == other);
}

/// What a request says of itself stands in these fields; its method is `GET` where it states
/// none.
pub proof fn requests_are_read_from_pseudo_fields(r: H3Request, hs: Seq<(Seq<u8>, Seq<u8>)>)
    requires
        r.stated_by(hs),
    ensures
        opt_text(r.host) == last_text(hs, ":authority"@),
        opt_text(r.path) == last_text(hs, ":path"@),
        last_text(hs, ":method"@) is Some ==> Some(r.method@) == last_text(hs, ":method"@),
        last_text(hs, ":method"@) is None ==> r.method@ == seq!['G', 'E', 'T'],
{
    reveal_strlit("GET");
    assert("GET"@ =~= seq!['G', 'E', 'T']);
}

/// A request has a body where its stream goes on, and where the first `content-length`, in any
/// case, states a number above zero; else it has none.
pub proof fn bodies_are_seen(hs: Seq<(Seq<u8>, Seq<u8>)>, n: usize, i: int)
    ensures
        states_body(hs, false),
        (forall|j: int|
            0 <= j < hs.len() ==> lower_bytes((#[trigger] hs[j]).0) != lower_bytes(
                encode_utf8("content-length"@),
            )) ==> !states_body(hs, true),
        0 <= i < hs.len() && lower_bytes(hs[i].0) == lower_bytes(encode_utf8("content-length"@))
            && hs[i].1 == encode_utf8(decimal(n as nat)) && (forall|j: int|
            0 <= j < i ==> lower_bytes((#[trigger] hs[j]).0) != lower_bytes(
                encode_utf8("content-length"@),
            )) ==> states_body(hs, true) == (n > 0),
{
    let name = encode_utf8("content-length"@);
    if forall|j: int| 0 <= j < hs.len() ==> lower_bytes((#[trigger] hs[j]).0) != lower_bytes(name) {
        lemma_first_named(hs, name, hs.len() as int);
    }
    if 0 <= i < hs.len() && lower_bytes(hs[i].0) == lower_bytes(name) && (forall|j: int|
        0 <= j < i ==> lower_bytes((#[trigger] hs[j]).0) != lower_bytes(name)) {
        lemma_first_named(hs, name, i);
        crate::proxy::head::stated_length_reads_back(n);
        vstd::utf8::encode_utf8_valid_utf8(decimal(n as nat));
    }
}

proof fn lemma_first_named(hs: Seq<(Seq<u8>, Seq<u8>)>, name: Seq<u8>, i: int)
    requires
        0 <= i <= hs.len(),
        forall|j: int| 0 <= j < i ==> lower_bytes((#[trigger] hs[j]).0) != lower_bytes(name),
        i < hs.len() ==> lower_bytes(hs[i].0) == lower_bytes(name),
    ensures
        first_named(hs, name) == if i < hs.len() {
            Some(hs[i].1)
        } else {
            None
        },
    decreases i,
{
    if i > 0 {
        assert(lower_bytes(hs[0].0) != lower_bytes(name));
        let t = hs.skip(1);
        assert forall|j: int| 0 <= j < i - 1 implies lower_bytes((#[trigger] t[j]).0)
            != lower_bytes(name) by {
            assert(t[j] == hs[j + 1]);
        }
        lemma_first_named(t, name, i - 1);
    }
}

/// What is said without an upstream, in numbers and words.
pub proof fn replies_say_what_happened()
    ensures
        H3Reply::BodyUnsupported.parts() == (
            "413"@,
            "HTTP/3 request bodies are not supported\n"@,
        ),
        H3Reply::NoRoute.parts() == ("404"@, "no matching route\n"@),
        H3Reply::RateLimited.parts() == ("429"@, "rate limit exceeded\n"@),
        H3Reply::NoUpstream.parts() == ("502"@, "no available upstream\n"@),
{
}

/// A field goes upstream with its name in lower case and its value as it is, in the order in
/// which it came, unless it is a pseudo field or no field of HTTP/1.1.
pub proof fn fields_go_upstream_in_order(hs: Seq<(Seq<u8>, Seq<u8>)>, h: (Seq<u8>, Seq<u8>))
    ensures
        h.0.len() > 0 && h.0[0] != 58 && name_of(h.0) is Some && value_allowed(h.1)
            ==> passed_on(hs.push(h)) == passed_on(hs).push((name_of(h.0)->0, h.1)),
        h.0.len() == 0 || h.0[0] == 58 || name_of(h.0) is None || !value_allowed(h.1)
            ==> passed_on(hs.push(h)) == passed_on(hs),
        passed_on(Seq::empty()).len() == 0,
        name_of(h.0) matches Some(name) ==> name.len() == h.0.len() && forall|i: int|
            0 <= i < name.len() ==> (#[trigger] name[i]) as u32 == if 65 <= h.0[i] <= 90 {
                (h.0[i] + 32) as u32
            } else {
                h.0[i] as u32
            },
{
    assert(hs.push(h).drop_last() =~= hs);
    assert(hs.push(h).last() == h);
}

/// An upstream is reached at the address or name in its URL: on port 80 where it states none,
/// and on this machine where it states no host.
pub proof fn upstreams_are_reached_where_their_url_says(
    t: RouteTarget,
    scheme: Option<Seq<char>>,
    authority: Option<Seq<char>>,
    path: Seq<char>,
    host: Seq<char>,
    port: u16,
    text: Seq<char>,
)
    ensures
        host_and_port((scheme, authority, path, Some(host), Some(port), text)) == (host, port),
        host_and_port((scheme, authority, path, Some(host), None, text)) == (host, 80u16),
        host_and_port((scheme, authority, path, None, Some(port), text)) == (
            "127.0.0.1"@,
            port,
        ),
        t.is_for(host, port) && v4_in(host) is Some ==> t == RouteTarget::Address(
            SocketAddr::V4 { ip: v4_in(host)->0, port },
        ),
        t.is_for(host, port) && v4_in(host) is None ==> (t matches RouteTarget::Name {
            host: h,
            port: p,
        } && h@ == host && p == port),
{
}

/// Of the addresses that a name resolves to the first of IPv4 is taken.
pub proof fn the_first_v4_is_taken(addrs: Seq<SocketAddr>, i: int)
    requires
        0 <= i <= addrs.len(),
        forall|j: int| 0 <= j < i ==> !((#[trigger] addrs[j]) is V4),
        i < addrs.len() ==> addrs[i] is V4,
    ensures
        first_v4(addrs) == if i < addrs.len() {
            Some(addrs[i])
        } else {
            None
        },
    decreases i,
{
    if i > 0 {
        assert(!(addrs[0] is V4));
        let t = addrs.skip(1);
        assert forall|j: int| 0 <= j < i - 1 implies !((#[trigger] t[j]) is V4) by {
            assert(t[j] == addrs[j + 1]);
        }
        the_first_v4_is_taken(t, i - 1);
    }
}

/// Any answer counts as a success, a failed request as a failure, and nothing is noted of one
/// that took too long.
pub proof fn outcomes_are_noted(u: crate::config::upstream::UpstreamState)
    requires
        u.passive_failures < usize::MAX,
    ensures
        noted(u, outcome_health(H3Outcome::Answered)).passive_failures == 0,
        noted(u, outcome_health(H3Outcome::Failed)).passive_failures == u.passive_failures + 1,
        noted(u, outcome_health(H3Outcome::TimedOut)) == u,
{
    crate::config::upstream::lemma_wrapped(u.passive_failures, 1);
}

/// A response goes back with its status first and then every field of the upstream, in order
/// and as it came.
pub proof fn responses_go_back_whole(status: u16, hs: Seq<(Seq<char>, Seq<u8>)>, i: int)
    requires
        0 <= i < hs.len(),
    ensures
        response_of(status, hs).len() == hs.len() + 1,
        response_of(status, hs)[0] == (
            encode_utf8(":status"@),
            encode_utf8(decimal(status as nat)),
        ),
        response_of(status, hs)[i + 1] == (encode_utf8(hs[i].0), hs[i].1),
{
}

/// The route of a request is that of its trimmed authority and its path, `/` where it has none.
pub proof fn requests_are_routed_by_authority_and_path(
    t: RouteTable,
    hs: Seq<(Seq<u8>, Seq<u8>)>,
    host: Seq<char>,
    path: Seq<char>,
)
    ensures
        last_text(hs, ":authority"@) == Some(host) && last_text(hs, ":path"@) == Some(path)
            ==> h3_route(t, hs) == chosen_route(
            configs(t.routes@),
            lookup_of(Some(trimmed(host))),
            path,
        ),
        last_text(hs, ":authority"@) is None && last_text(hs, ":path"@) is None ==> h3_route(t, hs)
            == chosen_route(configs(t.routes@), lookup_of(None), seq!['/']),
{
    reveal_strlit("/");
    assert("/"@ =~= seq!['/']);
}

/// How requests are counted, in words; and which replies may be lost.
pub proof fn tallies_in_words(
    reply: H3Reply,
    outcome: H3Outcome,
    a: Option<&'static str>,
    b: Option<&'static str>,
    c: bool,
)
    requires
        call_ensures(H3Reply::tally, (&reply,), a),
        call_ensures(H3Outcome::tally, (&outcome,), b),
        call_ensures(H3Reply::must_arrive, (&reply,), c),
    ensures
        reply == H3Reply::BodyUnsupported ==> a is None && c,
        reply == H3Reply::NoRoute ==> opt_str(a) == Some("no_route"@) && !c,
        reply == H3Reply::RateLimited ==> opt_str(a) == Some("rate_limited"@) && c,
        reply == H3Reply::NoUpstream ==> opt_str(a) == Some("no_upstream"@) && !c,
        outcome == H3Outcome::Answered ==> opt_str(b) == Some("proxied"@),
        outcome == H3Outcome::Failed ==> opt_str(b) == Some("upstream_error"@),
        outcome == H3Outcome::TimedOut ==> b is None,
{
}

/// Only a request that its limiter let pass, or that has none, asks for an upstream.
pub proof fn only_refusals_are_kept_out(routed: Routed, granted: Option<bool>)
    ensures
        !routed.limited ==> h3_admitted(routed, granted) == Ok::<usize, H3Reply>(routed.route),
        granted == Some(true) ==> h3_admitted(routed, granted) == Ok::<usize, H3Reply>(
            routed.route,
        ),
        routed.limited && granted == Some(false) ==> (h3_admitted(routed, granted) matches Err(r)
            && r.parts().0 == "429"@),
{
}

/// An answer clears the failures of its upstream and a failure adds one; one that was too slow
/// changes nothing. No other upstream is touched.
pub proof fn conclusions_are_noted(
    table: &mut RouteTable,
    at: UpstreamRef,
    outcome: H3Outcome,
    other: UpstreamRef,
)
    requires
        old(table).wf(),
        old(table).has(at),
        old(table).has(other),
        other != at,
        old(table).at(at).passive_failures < usize::MAX,
        call_ensures(conclude, (table, at, outcome), ()),
    ensures
        outcome == H3Outcome::Answered ==> final(table).at(at).passive_failures == 0,
        outcome == H3Outcome::Failed ==> final(table).at(at).passive_failures == old(table).at(
            at,
        ).passive_failures + 1,
        outcome == H3Outcome::TimedOut ==> final(table).at(at) == old(table).at(at),
        final(table).at(other) == old(table).at(other),
{
    outcomes_are_noted(old(table).at(at));
}

/// A request with a body is refused with 413, one without a route with 404.
pub proof fn requests_get_a_route_or_a_refusal(
    table: RouteTable,
    headers: &Vec<H3Header>,
    read_fin: bool,
    r: Result<Routed, H3Reply>,
)
    requires
        table.wf(),
        call_ensures(find_h3_route, (&table, headers, read_fin), r),
    ensures
        states_body(h3_fields(headers@), read_fin) ==> (r matches Err(reply) && reply.parts().0
            == "413"@),
        !states_body(h3_fields(headers@), read_fin) ==> (r matches Err(reply) ==> reply.parts().0
            == "404"@),
        r matches Ok(found) ==> found.route < table.routes@.len() && (found.limited
            <==> table.routes@[found.route as int].rate_limiter is Some) && Some(
            found.route as int,
        ) == h3_route(table, h3_fields(headers@)),
{
}

/// A request over its limit is refused with 429; any other goes to an upstream of its route's
/// pool, or is told with 502 that there is none.
pub proof fn limits_hold(
    table: &mut RouteTable,
    routed: Routed,
    granted: Option<bool>,
    r: Result<UpstreamRef, H3Reply>,
)
    requires
        old(table).wf(),
        routed.route < old(table).routes@.len(),
        call_ensures(serve_h3, (table, &routed, granted), r),
    ensures
        routed.limited && granted == Some(false) ==> (r matches Err(reply) && reply.parts().0
            == "429"@) && *final(table) == *old(table),
        !(routed.limited && granted == Some(false)) ==> (r matches Err(reply) ==> reply.parts().0
            == "502"@),
        r matches Ok(at) ==> at.pool == old(table).routes@[routed.route as int].pool,
{
}

/// The first of the addresses in four octets is picked.
pub proof fn v4_addresses_are_picked(addrs: &Vec<SocketAddr>, r: Option<SocketAddr>, i: int)
    requires
        call_ensures(pick_v4, (addrs,), r),
        0 <= i < addrs@.len(),
        addrs@[i] is V4,
        forall|j: int| 0 <= j < i ==> !((#[trigger] addrs@[j]) is V4),
    ensures
        r == Some(addrs@[i]),
{
    the_first_v4_is_taken(addrs@, i);
}

/// A response goes back with its status first and then its fields, in order.
pub proof fn response_fields_go_back(
    status: u16,
    headers: &Vec<HeaderField>,
    r: Vec<H3Header>,
    i: int,
)
    requires
        call_ensures(response_headers, (status, headers), r),
        0 <= i < headers@.len(),
    ensures
        r@.len() == headers@.len() + 1,
        r@[0].name@ == encode_utf8(":status"@),
        r@[0].value@ == encode_utf8(decimal(status as nat)),
        r@[i + 1].name@ == encode_utf8(headers@[i].name@),
        r@[i + 1].value@ == headers@[i].value@,
{
    responses_go_back_whole(status, fields(headers@), i);
    assert(h3_fields(r@).len() == r@.len());
    assert(h3_fields(r@)[0] == (r@[0].name@, r@[0].value@));
    assert(h3_fields(r@)[i + 1] == (r@[i + 1].name@, r@[i + 1].value@));
}

/// A field goes upstream where its name is a token of at most 65535 bytes and its value holds no
/// controls but tabs.
pub proof fn tokens_name_fields(b: u8, c: u8)
    ensures
        name_of(seq![b]) is Some <==> (48 <= b <= 57 || 65 <= b <= 90 || 97 <= b <= 122 || b == 33
            || b == 35 || b == 36 || b == 37 || b == 38 || b == 39 || b == 42 || b == 43 || b == 45
            || b == 46 || b == 94 || b == 95 || b == 96 || b == 124 || b == 126),
        name_of(Seq::empty()) is None,
        value_allowed(Seq::empty()),
        value_allowed(seq![c]) <==> c == 9 || (c >= 32 && c != 127),
        MAX_NAME_LEN == 65535,
{
    let one = seq![b];
    let two = seq![c];
    assert(one[0] == b);
    assert(two[0] == c);
    assert(name_byte(b) ==> name_of(one) is Some);
}

/// A reply of the server's own is plain text with its status.
pub proof fn own_replies_are_plain_text(reply: H3Reply, r: Vec<H3Header>)
    requires
        call_ensures(H3Reply::headers, (&reply,), r),
    ensures
        r@.len() == 2,
        r@[0].name@ == encode_utf8(":status"@),
        r@[0].value@ == encode_utf8(reply.parts().0),
        r@[1].name@ == encode_utf8("content-type"@),
        r@[1].value@ == encode_utf8("text/plain"@),
{
    assert(h3_fields(r@).len() == r@.len());
    assert(h3_fields(r@)[0] == (r@[0].name@, r@[0].value@));
    assert(h3_fields(r@)[1] == (r@[1].name@, r@[1].value@));
}

/// The first field of a name is read, in either case of its letters.
pub proof fn the_first_of_a_name_is_read(
    headers: &Vec<H3Header>,
    name: &str,
    r: Option<&Vec<u8>>,
    i: int,
)
    requires
        call_ensures(header_value, (headers, name), r),
        0 <= i < headers@.len(),
        lower_bytes(headers@[i].name@) == lower_bytes(encode_utf8(name@)),
        forall|j: int|
            0 <= j < i ==> lower_bytes((#[trigger] headers@[j]).name@) != lower_bytes(
                encode_utf8(name@),
            ),
    ensures
        r matches Some(v) && v@ == headers@[i].value@,
{
    let hs = h3_fields(headers@);
    assert forall|j: int| 0 <= j < i implies lower_bytes((#[trigger] hs[j]).0) != lower_bytes(
        encode_utf8(name@),
    ) by {
        assert(hs[j].0 == headers@[j].name@);
    }
    assert(hs[i] == (headers@[i].name@, headers@[i].value@));
    lemma_first_named_at(hs, encode_utf8(name@), i);
}

proof fn lemma_first_named_at(hs: Seq<(Seq<u8>, Seq<u8>)>, name: Seq<u8>, i: int)
    requires
        0 <= i < hs.len(),
        lower_bytes(hs[i].0) == lower_bytes(name),
        forall|j: int| 0 <= j < i ==> lower_bytes((#[trigger] hs[j]).0) != lower_bytes(name),
    ensures
        first_named(hs, name) == Some(hs[i].1),
    decreases i,
{
    if i > 0 {
        assert(lower_bytes(hs[0].0) != lower_bytes(name));
        let t = hs.skip(1);
        assert forall|j: int| 0 <= j < i - 1 implies lower_bytes((#[trigger] t[j]).0)
            != lower_bytes(name) by {
            assert(t[j] == hs[j + 1]);
        }
        lemma_first_named_at(t, name, i - 1);
    }
}

} // verus!
