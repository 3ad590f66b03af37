//! The ring engine for HTTP/1.1: bodies of known length only, and the course of a connection.

use crate::addr::SocketAddr;
use crate::config::routes::{replaced, RouteTable, UpstreamRef};
use crate::config::snapshot::ConfigSnapshot;
use crate::config::types::UpstreamProtocol;
use crate::config::upstream::{upstream_path, UpstreamState};
use crate::config::validate::{first_some, lemma_first_some_at, lemma_first_some_none};
use crate::fault::IoFailure;
use crate::octets::{discard_buffer_prefix, prefix_of, rest_after};
use crate::proxy::body::CopyState;
use crate::proxy::exchange::{health_for, health_of, Exchange, Health, StaticReply};
use crate::proxy::h1_fast::{interim, only_asked, route_of, SelectedUpstream};
use crate::proxy::head::{
    content_length_value, fields, first_value, header_value, lemma_framing_names_differ, length_in,
    named, named_before, stated_length_reads_back,
    outcome, parse_request_head, parse_response_head, parsed_request, parsed_response,
    request_model, request_wants_close, response_model, wants_close, BodyKind, HeaderField, Parsed,
    RequestFields, ResponseFields, MAX_HEADERS, MAX_REQUEST_BODY_BYTES,
};
use crate::proxy::select::{
    lookup_host, request_bytes, select_upstream, write_request_head, Selected,
};
use crate::text::{decimal, eq_ignore_case, same_ignoring_case};
use vstd::prelude::*;
use vstd::string::*;
use vstd::utf8::encode_utf8;

verus! {

/// Why a connection ended early.
#[derive(Debug)]
pub enum UringError {
    /// Reading or writing failed.
    Io(IoFailure),
    /// A message could not be understood.
    Parse(&'static str),
    /// No upstream could be used.
    Upstream(&'static str),
}

/// An error in plain values: its kind, and what it holds.
pub ghost enum ErrorModel {
    Io(IoFailure),
    Parse(Seq<char>),
    Upstream(Seq<char>),
}

impl UringError {
    /// The error in plain values.
    pub open spec fn model(&self) -> ErrorModel {
        match self {
            UringError::Io(e) => ErrorModel::Io(*e),
            UringError::Parse(m) => ErrorModel::Parse(m@),
            UringError::Upstream(m) => ErrorModel::Upstream(m@),
        }
    }

    /// What is shown of the error.
    pub open spec fn text(&self) -> Seq<char> {
        match self {
            UringError::Io(e) => e.message@,
            UringError::Parse(m) => m@,
            UringError::Upstream(m) => m@,
        }
    }

    /// What is shown of the error.
    pub fn message(&self) -> (s: String)
        ensures
            s@ == self.text(),
    {
        match self {
            UringError::Io(e) => e.message.clone(),
            UringError::Parse(m) => (*m).to_owned(),
            UringError::Upstream(m) => (*m).to_owned(),
        }
    }
}

impl From<IoFailure> for UringError {
    fn from(value: IoFailure) -> (r: UringError) {
        UringError::Io(value)
    }
}

impl vstd::std_specs::convert::FromSpecImpl<IoFailure> for UringError {
    open spec fn obeys_from_spec() -> bool {
        true
    }

    open spec fn from_spec(value: IoFailure) -> UringError {
        UringError::Io(value)
    }
}

// -------------------------------------------------------------------- framing

/// The complaint about field `i`: a transfer encoding, or a second length.
pub open spec fn unsupported_framing(hs: Seq<(Seq<char>, Seq<u8>)>, i: int) -> Option<Seq<char>> {
    if named(hs[i], "transfer-encoding"@) {
        Some("transfer-encoding is not supported by io_uring engine yet"@)
    } else if named(hs[i], "content-length"@) && named_before(hs, i, "content-length"@) {
        Some("duplicate content-length"@)
    } else {
        None
    }
}

/// The length of a request body, or the complaint about its framing.
pub open spec fn request_length(hs: Seq<(Seq<char>, Seq<u8>)>, limited: bool) -> Result<
    usize,
    Seq<char>,
> {
    match first_some(Seq::new(hs.len(), |i: int| unsupported_framing(hs, i))) {
        Some(why) => Err(why),
        None => match first_value(hs, "content-length"@) {
            None => Ok(0),
            Some(v) => match length_in(v) {
                None => Err("invalid content-length"@),
                Some(n) => if limited && n > MAX_REQUEST_BODY_BYTES {
                    Err("request body too large"@)
                } else {
                    Ok(n as usize)
                },
            },
        },
    }
}

/// The length of a request body. With `enforce_limit`, one above the limit is refused.
pub fn content_length(headers: &Vec<HeaderField>, enforce_limit: bool) -> (r: Result<
    usize,
    &'static str,
>)
    ensures
        outcome(r) == request_length(fields(headers@), enforce_limit),
{
    let ghost hs = fields(headers@);
    let ghost issues = Seq::new(hs.len(), |i: int| unsupported_framing(hs, i));
    let mut seen = false;
    let mut i: usize = 0;
    while i < headers.len()
        invariant
            i <= headers.len(),
            hs == fields(headers@),
            issues == Seq::new(hs.len(), |i: int| unsupported_framing(hs, i)),
            seen == named_before(hs, i as int, "content-length"@),
            forall|k: int| 0 <= k < i ==> (#[trigger] issues[k]).is_none(),
        decreases headers.len() - i,
    {
        proof {
            assert(issues[i as int] == unsupported_framing(hs, i as int));
            assert(hs[i as int].0 == headers@[i as int].name@);
        }
        if eq_ignore_case(headers[i].name.as_str(), "transfer-encoding") {
            proof {
                lemma_first_some_at(issues, i as int);
            }
            return Err("transfer-encoding is not supported by io_uring engine yet");
        }
        if eq_ignore_case(headers[i].name.as_str(), "content-length") {
            if seen {
                proof {
                    lemma_first_some_at(issues, i as int);
                }
                return Err("duplicate content-length");
            }
            seen = true;
            proof {
                assert(named(hs[i as int], "content-length"@));
            }
        }
        i = i + 1;
    }
    proof {
        lemma_first_some_none(issues);
    }
    match header_value(headers, "content-length") {
        None => Ok(0),
        Some(value) => match content_length_value(value) {
            None => Err("invalid content-length"),
            Some(length) => if enforce_limit && length > MAX_REQUEST_BODY_BYTES {
                Err("request body too large")
            } else {
                Ok(length)
            },
        },
    }
}

/// The complaint about length field `i` of a response: a second one, or one that is no number.
pub open spec fn length_issue(hs: Seq<(Seq<char>, Seq<u8>)>, i: int) -> Option<Seq<char>> {
    if !named(hs[i], "content-length"@) {
        None
    } else if named_before(hs, i, "content-length"@) {
        Some("duplicate content-length"@)
    } else if length_in(hs[i].1).is_none() {
        Some("invalid content-length"@)
    } else {
        None
    }
}

/// The length of a response body where one is stated, or the complaint about its framing.
pub open spec fn response_length(hs: Seq<(Seq<char>, Seq<u8>)>) -> Result<Option<usize>, Seq<char>> {
    if named_before(hs, hs.len() as int, "transfer-encoding"@) {
        Err("transfer-encoding is not supported by io_uring engine yet"@)
    } else {
        match first_some(Seq::new(hs.len(), |i: int| length_issue(hs, i))) {
            Some(why) => Err(why),
            None => match first_value(hs, "content-length"@) {
                None => Ok(None),
                Some(v) => Ok(Some(length_in(v)->0 as usize)),
            },
        }
    }
}

proof fn lemma_first_value_named(hs: Seq<(Seq<char>, Seq<u8>)>, name: Seq<char>, i: int)
    requires
        0 <= i < hs.len(),
        named(hs[i], name),
        !named_before(hs, i, name),
    ensures
        first_value(hs, name) == Some(hs[i].1),
    decreases i,
{
    if i > 0 {
        assert(!named(hs[0], name));
        assert(hs.skip(1)[i - 1] == hs[i]);
        assert forall|j: int| 0 <= j < i - 1 implies !named(#[trigger] hs.skip(1)[j], name) by {
            assert(hs.skip(1)[j] == hs[j + 1]);
        }
        lemma_first_value_named(hs.skip(1), name, i - 1);
    }
}

proof fn lemma_first_value_unnamed(hs: Seq<(Seq<char>, Seq<u8>)>, name: Seq<char>)
    requires
        !named_before(hs, hs.len() as int, name),
    ensures
        first_value(hs, name) == None::<Seq<u8>>,
    decreases hs.len(),
{
    if hs.len() > 0 {
        assert(!named(hs[0], name));
        assert forall|j: int| 0 <= j < hs.len() - 1 implies !named(#[trigger] hs.skip(1)[j], name) by {
            assert(hs.skip(1)[j] == hs[j + 1]);
        }
        lemma_first_value_unnamed(hs.skip(1), name);
    }
}

/// The length of a response body, where one is stated.
pub fn response_content_length(headers: &Vec<HeaderField>) -> (r: Result<
    Option<usize>,
    &'static str,
>)
    ensures
        outcome(r) == response_length(fields(headers@)),
{
    let ghost hs = fields(headers@);
    let mut i: usize = 0;
    while i < headers.len()
        invariant
            i <= headers.len(),
            hs == fields(headers@),
            !named_before(hs, i as int, "transfer-encoding"@),
        decreases headers.len() - i,
    {
        if eq_ignore_case(headers[i].name.as_str(), "transfer-encoding") {
            proof {
                assert(named(hs[i as int], "transfer-encoding"@));
            }
            return Err("transfer-encoding is not supported by io_uring engine yet");
        }
        i = i + 1;
    }
    let ghost issues = Seq::new(hs.len(), |i: int| length_issue(hs, i));
    let mut found: Option<usize> = None;
    i = 0;
    while i < headers.len()
        invariant
            i <= headers.len(),
            hs == fields(headers@),
            !named_before(hs, hs.len() as int, "transfer-encoding"@),
            issues == Seq::new(hs.len(), |i: int| length_issue(hs, i)),
            forall|k: int| 0 <= k < i ==> (#[trigger] issues[k]).is_none(),
            found.is_some() == named_before(hs, i as int, "content-length"@),
            found matches Some(n) ==> first_value(hs, "content-length"@).is_some() && length_in(
                first_value(hs, "content-length"@)->0,
            ) == Some(n as nat),
        decreases headers.len() - i,
    {
        proof {
            assert(issues[i as int] == length_issue(hs, i as int));
            assert(hs[i as int] == (headers@[i as int].name@, headers@[i as int].value@));
        }
        if eq_ignore_case(headers[i].name.as_str(), "content-length") {
            proof {
                assert(named(hs[i as int], "content-length"@));
            }
            if found.is_some() {
                proof {
                    lemma_first_some_at(issues, i as int);
                }
                return Err("duplicate content-length");
            }
            match content_length_value(&headers[i].value) {
                None => {
                    proof {
                        lemma_first_some_at(issues, i as int);
                    }
                    return Err("invalid content-length");
                },
                Some(n) => {
                    proof {
                        lemma_first_value_named(hs, "content-length"@, i as int);
                    }
                    found = Some(n);
                },
            }
        }
        i = i + 1;
    }
    proof {
        lemma_first_some_none(issues);
        if found.is_none() {
            lemma_first_value_unnamed(hs, "content-length"@);
        }
    }
    Ok(found)
}

// ------------------------------------------------------------------- requests

/// A request whose upstream was chosen but whose upstream's address may still be unknown.
pub struct StartedRequest {
    pub method: String,
    pub target: String,
    pub http10: bool,
    pub headers: Vec<HeaderField>,
    pub route: usize,
    pub at: UpstreamRef,
    /// The upstream's address, where it was found earlier.
    pub known_addr: Option<SocketAddr>,
    /// What is resolved where the address is unknown.
    pub authority: String,
}

/// What becomes of a request before its upstream's address is known.
pub ghost enum StartPlan {
    Malformed { why: Seq<char> },
    NoRoute,
    NoUpstream,
    Start {
        route: int,
        at: UpstreamRef,
        method: Seq<char>,
        target: Seq<char>,
        http10: bool,
        hs: Seq<(Seq<char>, Seq<u8>)>,
    },
}

/// What becomes of a request with this head before its upstream's address is known.
pub open spec fn start_plan(
    t: RouteTable,
    head: Option<
        Option<(Option<Seq<char>>, Option<Seq<char>>, Option<u8>, Seq<(Seq<char>, Seq<u8>)>)>,
    >,
) -> StartPlan {
    match head {
        None => StartPlan::Malformed { why: "invalid request headers"@ },
        Some(None) => StartPlan::Malformed { why: "incomplete request headers"@ },
        Some(Some((None, _, _, _))) => StartPlan::Malformed { why: "request method missing"@ },
        Some(Some((Some(_), None, _, _))) => StartPlan::Malformed {
            why: "request target missing"@,
        },
        Some(Some((Some(method), Some(target), version, hs))) => match route_of(t, head) {
            None => StartPlan::NoRoute,
            Some(i) => match t.pools@[t.routes@[i].pool as int].choice().0 {
                None => StartPlan::NoUpstream,
                Some(u) => StartPlan::Start {
                    route: i,
                    at: UpstreamRef { pool: t.routes@[i].pool, index: u },
                    method,
                    target,
                    http10: version == Some(0u8),
                    hs,
                },
            },
        },
    }
}

impl StartedRequest {
    /// The request carries out the plan.
    pub open spec fn follows(&self, t: RouteTable, plan: StartPlan) -> bool {
        plan matches StartPlan::Start { route, at, method, target, http10, hs } && {
            &&& self.method@ == method
            &&& self.target@ == target
            &&& self.http10 == http10
            &&& fields(self.headers@) == hs
            &&& self.route == route
            &&& self.at == at
            &&& t.has(at)
            &&& self.known_addr == t.at(at).connect_addr
            &&& self.authority@ == t.at(at).uri_base.authority@
        }
    }
}

/// Routes a request whose head was read, and chooses its upstream.
pub fn start_from_head(snapshot: &mut ConfigSnapshot, head: Parsed<RequestFields>) -> (r: Result<
    Option<StartedRequest>,
    UringError,
>)
    requires
        old(snapshot).routes.wf(),
    ensures
        final(snapshot).routes.wf(),
        final(snapshot).config == old(snapshot).config,
        only_asked(
            old(snapshot).routes,
            final(snapshot).routes,
            route_of(old(snapshot).routes, request_model(head)),
        ),
        match start_plan(old(snapshot).routes, request_model(head)) {
            StartPlan::Malformed { why } => r matches Err(UringError::Parse(m)) && m@ == why,
            StartPlan::NoUpstream => r matches Err(UringError::Upstream(m)) && m@
                == "no available upstream"@,
            StartPlan::NoRoute => r matches Ok(None),
            StartPlan::Start { at, .. } => (r matches Ok(Some(m)) && m.follows(
                old(snapshot).routes,
                start_plan(old(snapshot).routes, request_model(head)),
            )) && final(snapshot).routes.has(at) && final(snapshot).routes.at(at) == old(
                snapshot,
            ).routes.at(at),
        },
{
    let ghost model = request_model(head);
    let parsed = match head {
        Parsed::Invalid => {
            return Err(UringError::Parse("invalid request headers"));
        },
        Parsed::Partial => {
            return Err(UringError::Parse("incomplete request headers"));
        },
        Parsed::Complete(f) => f,
    };
    let method = match parsed.method {
        Some(m) => m,
        None => {
            return Err(UringError::Parse("request method missing"));
        },
    };
    let target = match parsed.path {
        Some(p) => p,
        None => {
            return Err(UringError::Parse("request target missing"));
        },
    };
    let http10 = match parsed.version {
        Some(v) => v == 0,
        None => false,
    };
    let host = lookup_host(snapshot.routes.requires_host_match(), &parsed.headers);
    let (route, at) = match select_upstream(&mut snapshot.routes, &host, target.as_str()) {
        Selected::NoRoute => {
            return Ok(None);
        },
        Selected::NoUpstream => {
            return Err(UringError::Upstream("no available upstream"));
        },
        Selected::Chosen { route, at } => (route, at),
    };
    let ghost before = old(snapshot).routes;
    proof {
        assert(route_of(before, model) == Some(route as int));
        assert(snapshot.routes.pools@[at.pool as int].upstreams
            == before.pools@[at.pool as int].upstreams);
    }
    let known_addr = snapshot.routes.upstream(at).connect_addr;
    let authority = snapshot.routes.upstream(at).authority().to_owned();
    Ok(
        Some(
            StartedRequest {
                method,
                target,
                http10,
                headers: parsed.headers,
                route,
                at,
                known_addr,
                authority,
            },
        ),
    )
}

/// Reads the head of a request, routes it and chooses its upstream.
pub fn start_request(snapshot: &mut ConfigSnapshot, raw_headers: &[u8]) -> (r: Result<
    Option<StartedRequest>,
    UringError,
>)
    requires
        old(snapshot).routes.wf(),
    ensures
        final(snapshot).routes.wf(),
        final(snapshot).config == old(snapshot).config,
        only_asked(
            old(snapshot).routes,
            final(snapshot).routes,
            route_of(old(snapshot).routes, parsed_request(raw_headers@, 96)),
        ),
        match start_plan(old(snapshot).routes, parsed_request(raw_headers@, 96)) {
            StartPlan::Malformed { why } => r matches Err(UringError::Parse(m)) && m@ == why,
            StartPlan::NoUpstream => r matches Err(UringError::Upstream(m)) && m@
                == "no available upstream"@,
            StartPlan::NoRoute => r matches Ok(None),
            StartPlan::Start { at, .. } => (r matches Ok(Some(m)) && m.follows(
                old(snapshot).routes,
                start_plan(old(snapshot).routes, parsed_request(raw_headers@, 96)),
            )) && final(snapshot).routes.has(at) && final(snapshot).routes.at(at) == old(
                snapshot,
            ).routes.at(at),
        },
{
    start_from_head(snapshot, parse_request_head(raw_headers, MAX_HEADERS))
}

/// What the rest of an exchange needs to know of a request.
#[derive(Debug)]
pub struct RequestHead {
    pub body_len: usize,
    pub outbound: Vec<u8>,
    pub close_after_response: bool,
    pub head_response: bool,
}

/// A request that is ready to be sent.
#[derive(Debug)]
pub struct MatchedRequest {
    pub head: RequestHead,
    pub upstream: SelectedUpstream,
    pub connect_addr: SocketAddr,
    /// The position of the route that took the request.
    pub route: usize,
    /// Whether that route has a rate limiter.
    pub limited: bool,
}

/// The framing that is passed on for a body of this length: none is stated of an empty one.
pub open spec fn stated_framing(body_len: usize) -> BodyKind {
    if body_len > 0 {
        BodyKind::ContentLength(body_len)
    } else {
        BodyKind::Empty
    }
}

impl MatchedRequest {
    /// The request is the started one, with the upstream's address and the body's length.
    pub open spec fn completes(
        &self,
        started: StartedRequest,
        t: RouteTable,
        addr: SocketAddr,
        body_len: usize,
    ) -> bool {
        let hs = fields(started.headers@);
        let up = t.at(started.at);
        &&& self.head.body_len == body_len
        &&& self.head.close_after_response == wants_close(started.http10, hs)
        &&& self.head.head_response == same_ignoring_case(started.method@, "HEAD"@)
        &&& self.head.outbound@ == request_bytes(
            started.method@,
            upstream_path(up.uri_base.base_path@, started.target@),
            up.uri_base.authority@,
            hs,
            stated_framing(body_len),
        )
        &&& self.upstream.describes(t, started.at)
        &&& self.connect_addr == addr
        &&& self.route == started.route
        &&& self.limited == t.routes@[started.route as int].rate_limiter.is_some()
    }
}

/// Completes a request once its upstream's address was looked up.
///
/// An address found earlier goes before the one looked up now; a failed look-up counts only
/// where none was found earlier.
pub fn build_request(
    snapshot: &mut ConfigSnapshot,
    started: StartedRequest,
    resolved: Result<SocketAddr, IoFailure>,
) -> (r: Result<MatchedRequest, UringError>)
    requires
        old(snapshot).routes.wf(),
        old(snapshot).routes.has(started.at),
        started.route < old(snapshot).routes.routes@.len(),
    ensures
        final(snapshot).routes.wf(),
        final(snapshot).config == old(snapshot).config,
        match (old(snapshot).routes.at(started.at).connect_addr, resolved) {
            (None, Err(e)) => r == Err::<MatchedRequest, UringError>(UringError::Io(e))
                && *final(snapshot) == *old(snapshot),
            (known, found) => {
                let addr = match known {
                    Some(a) => a,
                    None => found->Ok_0,
                };
                &&& replaced(
                    old(snapshot).routes,
                    final(snapshot).routes,
                    started.at,
                    (UpstreamState {
                        connect_addr: Some(addr),
                        ..old(snapshot).routes.at(started.at)
                    }),
                )
                &&& match request_length(fields(started.headers@), true) {
                    Err(why) => r matches Err(UringError::Parse(m)) && m@ == why,
                    Ok(n) => r matches Ok(m) && m.completes(started, old(snapshot).routes, addr, n),
                }
            },
        },
{
    let ghost before = old(snapshot).routes;
    let known = snapshot.routes.upstream(started.at).connect_addr;
    let addr = match known {
        Some(a) => a,
        None => match resolved {
            Ok(a) => a,
            Err(e) => {
                return Err(UringError::Io(e));
            },
        },
    };
    let connect_addr = snapshot.routes.connect_addr(started.at, addr);
    proof {
        assert(snapshot.routes.at(started.at).config == before.at(started.at).config);
        assert(snapshot.routes.at(started.at).uri_base == before.at(started.at).uri_base);
        assert(snapshot.routes.at(started.at).id == before.at(started.at).id);
    }
    let upstream = SelectedUpstream::of(&snapshot.routes, started.at);
    let path = snapshot.routes.upstream(started.at).upstream_path_and_query(
        started.target.as_str(),
    );
    let body_len: usize = match content_length(&started.headers, true) {
        Ok(n) => n,
        Err(m) => {
            return Err(UringError::Parse(m));
        },
    };
    let close_after_response = request_wants_close(started.http10, &started.headers);
    let framing = if body_len > 0 {
        BodyKind::ContentLength(body_len)
    } else {
        BodyKind::Empty
    };
    let mut outbound: Vec<u8> = Vec::new();
    write_request_head(
        &mut outbound,
        started.method.as_str(),
        path.as_str(),
        upstream.authority.as_str(),
        &started.headers,
        framing,
    );
    proof {
        assert(upstream.describes(before, started.at));
        assert(outbound@ =~= request_bytes(
            started.method@,
            path@,
            upstream.authority@,
            fields(started.headers@),
            framing,
        ));
    }
    let limited = snapshot.routes.routes[started.route].rate_limiter.is_some();
    Ok(
        MatchedRequest {
            head: RequestHead {
                body_len,
                outbound,
                close_after_response,
                head_response: eq_ignore_case(started.method.as_str(), "HEAD"),
            },
            upstream,
            connect_addr,
            route: started.route,
            limited,
        },
    )
}

// ------------------------------------------------------------------ responses

/// How the body of a response is delimited.
#[derive(Clone, Copy, Debug, PartialEq, Eq, Structural)]
pub enum ResponseBody {
    Empty,
    ContentLength(usize),
    CloseDelimited,
}

/// What the rest of an exchange needs to know of a response.
#[derive(Clone, Copy, Debug, PartialEq, Eq, Structural)]
pub struct ResponseMeta {
    pub status: u16,
    pub body: ResponseBody,
    pub close_after_response: bool,
}

/// What a response with this head means, or the complaint about it.
pub open spec fn response_plan(
    head: Option<Option<(Option<u16>, Option<u8>, Seq<(Seq<char>, Seq<u8>)>)>>,
    head_response: bool,
) -> Result<ResponseMeta, Seq<char>> {
    match head {
        None => Err("invalid response headers"@),
        Some(None) => Err("incomplete response headers"@),
        Some(Some((code, version, hs))) => {
            let status = match code {
                Some(c) => c,
                None => 0,
            };
            let bodiless = head_response || interim(status) || status == 204 || status == 304;
            let body = if bodiless {
                Ok(ResponseBody::Empty)
            } else {
                match response_length(hs) {
                    Err(why) => Err(why),
                    Ok(Some(n)) => Ok(ResponseBody::ContentLength(n)),
                    Ok(None) => Ok(ResponseBody::CloseDelimited),
                }
            };
            match body {
                Err(why) => Err(why),
                Ok(body) => Ok(
                    ResponseMeta {
                        status,
                        body,
                        close_after_response: wants_close(version == Some(0u8), hs) || body
                            == ResponseBody::CloseDelimited,
                    },
                ),
            }
        },
    }
}

/// What a response means whose head was read.
pub fn response_from_head(head: Parsed<ResponseFields>, head_response: bool) -> (r: Result<
    ResponseMeta,
    UringError,
>)
    ensures
        match response_plan(response_model(head), head_response) {
            Ok(h) => r == Ok::<ResponseMeta, UringError>(h),
            Err(why) => r matches Err(UringError::Parse(m)) && m@ == why,
        },
{
    let parsed = match head {
        Parsed::Invalid => {
            return Err(UringError::Parse("invalid response headers"));
        },
        Parsed::Partial => {
            return Err(UringError::Parse("incomplete response headers"));
        },
        Parsed::Complete(f) => f,
    };
    let status: u16 = match parsed.code {
        Some(c) => c,
        None => 0,
    };
    let body = if head_response || (100 <= status && status < 200) || status == 204 || status
        == 304 {
        ResponseBody::Empty
    } else {
        match response_content_length(&parsed.headers) {
            Err(m) => {
                return Err(UringError::Parse(m));
            },
            Ok(Some(length)) => ResponseBody::ContentLength(length),
            Ok(None) => ResponseBody::CloseDelimited,
        }
    };
    let http10 = match parsed.version {
        Some(v) => v == 0,
        None => false,
    };
    Ok(
        ResponseMeta {
            status,
            body,
            close_after_response: request_wants_close(http10, &parsed.headers) || body
                == ResponseBody::CloseDelimited,
        },
    )
}

/// Reads the head of a response.
pub fn parse_response(raw_headers: &[u8], head_response: bool) -> (r: Result<
    ResponseMeta,
    UringError,
>)
    ensures
        match response_plan(parsed_response(raw_headers@, 96), head_response) {
            Ok(h) => r == Ok::<ResponseMeta, UringError>(h),
            Err(why) => r matches Err(UringError::Parse(m)) && m@ == why,
        },
{
    response_from_head(parse_response_head(raw_headers, MAX_HEADERS), head_response)
}

/// A response head that was read and goes out as it came.
pub struct RelayedHead {
    pub response: ResponseMeta,
    /// More heads follow: this one is interim.
    pub interim: bool,
    pub bytes: Vec<u8>,
    /// Where the body begins.
    pub state: CopyState,
}

/// The state at the start of a response body.
pub open spec fn body_start(body: ResponseBody) -> CopyState {
    match body {
        ResponseBody::Empty => CopyState::Done,
        ResponseBody::ContentLength(n) => CopyState::Exact { remaining: n as u128 },
        ResponseBody::CloseDelimited => CopyState::UntilClose,
    }
}

/// Reads the response head at the start of `buf` and takes it from `buf`.
pub fn relay_response_head(buf: &mut Vec<u8>, header_end: usize, head_response: bool) -> (r: Result<
    RelayedHead,
    UringError,
>)
    requires
        header_end <= old(buf)@.len(),
    ensures
        match response_plan(
            parsed_response(old(buf)@.take(header_end as int), 96),
            head_response,
        ) {
            Err(why) => (r matches Err(UringError::Parse(m)) && m@ == why) && final(buf)@ == old(
                buf,
            )@,
            Ok(h) => r matches Ok(relayed) && {
                &&& relayed.response == h
                &&& relayed.interim == interim(h.status)
                &&& relayed.bytes@ == old(buf)@.take(header_end as int)
                &&& relayed.state == body_start(h.body)
                &&& final(buf)@ == old(buf)@.skip(header_end as int)
            },
        },
{
    let ghost before = buf@;
    let bytes = prefix_of(buf.as_slice(), header_end);
    match parse_response(bytes.as_slice(), head_response) {
        Err(e) => Err(e),
        Ok(response) => {
            discard_buffer_prefix(buf, header_end);
            proof {
                assert(rest_after(before, header_end as int) =~= before.skip(header_end as int));
            }
            let state = match response.body {
                ResponseBody::Empty => CopyState::Done,
                ResponseBody::ContentLength(n) => CopyState::Exact { remaining: n as u128 },
                ResponseBody::CloseDelimited => CopyState::UntilClose,
            };
            Ok(
                RelayedHead {
                    response,
                    interim: 100 <= response.status && response.status < 200,
                    bytes,
                    state,
                },
            )
        },
    }
}

// ---------------------------------------------------- the course of a connection

/// Where a connection stands: what is being done for it.
#[derive(Clone, Copy, Debug, PartialEq, Eq, Structural)]
pub enum Phase {
    /// The head of the next request is read.
    Head,
    /// The rate limiter is asked.
    Admit(Exchange),
    /// A connection to the upstream is got.
    Connect(Exchange),
    /// The head of the request is sent.
    SendHead(Exchange),
    /// The body of the request is passed on.
    SendBody(Exchange),
    /// Heads of the response are passed on until one is final.
    RelayHead(Exchange),
    /// The body of the response is passed on.
    RelayBody(Exchange, ResponseMeta),
    /// A reply of the engine's own is sent, after which the connection is closed.
    Reply,
    /// The connection is over.
    Closed,
}

/// What came of the last action.
pub enum Event {
    /// No head came in time.
    TimedOut,
    /// The other side closed the connection before the head.
    Ended,
    /// Reading, writing or understanding failed.
    Broken(UringError),
    /// No route takes the request.
    NoRoute,
    /// The request found its upstream.
    Matched(Exchange),
    /// The rate limiter's verdict.
    Verdict(bool),
    /// The action succeeded.
    Done,
    /// The action failed or took too long.
    Failed,
    /// A response head was passed on.
    HeadRelayed(ResponseMeta),
}

/// What to do next, and what to note.
pub struct Move {
    pub next: Phase,
    /// The reply to send, where the next phase is that of a reply.
    pub reply: Option<StaticReply>,
    pub health: Health,
    /// The connection to the upstream goes back to the pool.
    pub pool: bool,
    /// Why the connection ended, where it ended early.
    pub error: Option<UringError>,
}

/// A move in plain values.
pub ghost struct MoveModel {
    pub next: Phase,
    pub reply: Option<StaticReply>,
    pub health: Health,
    pub pool: bool,
    pub error: Option<ErrorModel>,
}

impl Move {
    pub open spec fn model(&self) -> MoveModel {
        MoveModel {
            next: self.next,
            reply: self.reply,
            health: self.health,
            pool: self.pool,
            error: match self.error {
                Some(e) => Some(e.model()),
                None => None,
            },
        }
    }
}

/// Goes on with `next` and notes nothing.
pub open spec fn go(next: Phase) -> MoveModel {
    MoveModel { next, reply: None, health: Health::Unchanged, pool: false, error: None }
}

/// Ends the connection with an error.
pub open spec fn fail(why: ErrorModel) -> MoveModel {
    MoveModel { error: Some(why), ..go(Phase::Closed) }
}

/// Sends a reply and closes.
pub open spec fn answer(reply: StaticReply, health: Health) -> MoveModel {
    MoveModel { reply: Some(reply), health, ..go(Phase::Reply) }
}

/// Where an admitted request goes.
pub open spec fn admitted(x: Exchange) -> MoveModel {
    if x.protocol == UpstreamProtocol::H3 {
        answer(StaticReply::H3NotEnabled, Health::Unchanged)
    } else {
        go(Phase::Connect(x))
    }
}

/// The move for an event; nothing for an event that cannot come in this phase.
pub open spec fn move_for(phase: Phase, event: Event) -> Option<MoveModel> {
    match (phase, event) {
        (Phase::Head, Event::TimedOut) => Some(
            fail(ErrorModel::Parse("downstream header read timed out"@)),
        ),
        (Phase::Head, Event::Ended) => Some(go(Phase::Closed)),
        (Phase::Head, Event::Broken(e)) => Some(fail(e.model())),
        (Phase::Head, Event::NoRoute) => Some(answer(StaticReply::NoRoute, Health::Unchanged)),
        (Phase::Head, Event::Matched(x)) => if x.limited {
            Some(go(Phase::Admit(x)))
        } else {
            Some(admitted(x))
        },
        (Phase::Admit(x), Event::Verdict(true)) => Some(admitted(x)),
        (Phase::Admit(x), Event::Verdict(false)) => Some(
            answer(StaticReply::RateLimited, Health::Unchanged),
        ),
        (Phase::Connect(x), Event::Done) => Some(go(Phase::SendHead(x))),
        (Phase::SendHead(x), Event::Done) => Some(go(Phase::SendBody(x))),
        (Phase::SendBody(x), Event::Done) => Some(go(Phase::RelayHead(x))),
        (Phase::Connect(x), Event::Failed) => Some(
            answer(StaticReply::UpstreamFailed, Health::Failure),
        ),
        (Phase::SendHead(x), Event::Failed) => Some(
            answer(StaticReply::UpstreamFailed, Health::Failure),
        ),
        (Phase::SendBody(x), Event::Failed) => Some(
            MoveModel { health: Health::Failure, ..go(Phase::Closed) },
        ),
        (Phase::RelayHead(x), Event::TimedOut) => Some(
            fail(ErrorModel::Parse("upstream response timed out"@)),
        ),
        (Phase::RelayHead(x), Event::Ended) => Some(
            MoveModel {
                health: Health::Failure,
                ..fail(ErrorModel::Parse("upstream closed before response"@))
            },
        ),
        (Phase::RelayHead(x), Event::Broken(e)) => Some(fail(e.model())),
        (Phase::RelayHead(x), Event::HeadRelayed(response)) => if interim(response.status) {
            Some(go(phase))
        } else {
            Some(go(Phase::RelayBody(x, response)))
        },
        (Phase::RelayBody(x, response), Event::Failed) => Some(
            MoveModel { health: Health::Failure, ..go(Phase::Closed) },
        ),
        (Phase::RelayBody(x, response), Event::Done) => {
            let close = x.close || response.close_after_response;
            Some(
                MoveModel {
                    health: health_for(response.status),
                    pool: !close,
                    ..go(
                        if close {
                            Phase::Closed
                        } else {
                            Phase::Head
                        },
                    )
                },
            )
        },
        (Phase::Reply, Event::Done) => Some(go(Phase::Closed)),
        (Phase::Reply, Event::Broken(e)) => Some(fail(e.model())),
        _ => None,
    }
}

fn plain(next: Phase) -> (r: Move)
    ensures
        r.model() == go(next),
{
    Move { next, reply: None, health: Health::Unchanged, pool: false, error: None }
}

fn failing(error: UringError) -> (r: Move)
    ensures
        r.model() == fail(error.model()),
        r.error == Some(error),
{
    Move { error: Some(error), ..plain(Phase::Closed) }
}

fn answering(reply: StaticReply, health: Health) -> (r: Move)
    ensures
        r.model() == answer(reply, health),
{
    Move { reply: Some(reply), health, ..plain(Phase::Reply) }
}

fn admitting(x: Exchange) -> (r: Move)
    ensures
        r.model() == admitted(x),
{
    if x.protocol == UpstreamProtocol::H3 {
        answering(StaticReply::H3NotEnabled, Health::Unchanged)
    } else {
        plain(Phase::Connect(x))
    }
}

/// What to do after `event`; an event that cannot come in this phase leaves the phase as it is.
pub fn step(phase: Phase, event: Event) -> (r: Move)
    ensures
        r.model() == match move_for(phase, event) {
            Some(m) => m,
            None => go(phase),
        },
        r.error is Some ==> (event matches Event::Broken(e) ==> r.error == Some(e)),
{
    match (phase, event) {
        (Phase::Head, Event::TimedOut) => failing(
            UringError::Parse("downstream header read timed out"),
        ),
        (Phase::Head, Event::Ended) => plain(Phase::Closed),
        (Phase::Head, Event::Broken(e)) => failing(e),
        (Phase::Head, Event::NoRoute) => answering(StaticReply::NoRoute, Health::Unchanged),
        (Phase::Head, Event::Matched(x)) => if x.limited {
            plain(Phase::Admit(x))
        } else {
            admitting(x)
        },
        (Phase::Admit(x), Event::Verdict(granted)) => if granted {
            admitting(x)
        } else {
            answering(StaticReply::RateLimited, Health::Unchanged)
        },
        (Phase::Connect(x), Event::Done) => plain(Phase::SendHead(x)),
        (Phase::SendHead(x), Event::Done) => plain(Phase::SendBody(x)),
        (Phase::SendBody(x), Event::Done) => plain(Phase::RelayHead(x)),
        (Phase::Connect(_), Event::Failed) => answering(
            StaticReply::UpstreamFailed,
            Health::Failure,
        ),
        (Phase::SendHead(_), Event::Failed) => answering(
            StaticReply::UpstreamFailed,
            Health::Failure,
        ),
        (Phase::SendBody(_), Event::Failed) => Move {
            health: Health::Failure,
            ..plain(Phase::Closed)
        },
        (Phase::RelayHead(_), Event::TimedOut) => failing(
            UringError::Parse("upstream response timed out"),
        ),
        (Phase::RelayHead(_), Event::Ended) => Move {
            health: Health::Failure,
            ..failing(UringError::Parse("upstream closed before response"))
        },
        (Phase::RelayHead(_), Event::Broken(e)) => failing(e),
        (Phase::RelayHead(x), Event::HeadRelayed(response)) => if 100 <= response.status
            && response.status < 200 {
            plain(phase)
        } else {
            plain(Phase::RelayBody(x, response))
        },
        (Phase::RelayBody(_, _), Event::Failed) => Move {
            health: Health::Failure,
            ..plain(Phase::Closed)
        },
        (Phase::RelayBody(x, response), Event::Done) => {
            let close = x.close || response.close_after_response;
            let next = if close {
                Phase::Closed
            } else {
                Phase::Head
            };
            Move { health: health_of(response.status), pool: !close, ..plain(next) }
        },
        (Phase::Reply, Event::Done) => plain(Phase::Closed),
        (Phase::Reply, Event::Broken(e)) => failing(e),
        (phase, _) => plain(phase),
    }
}

impl MatchedRequest {
    /// What the course of the exchange depends on.
    pub fn exchange(&self) -> (r: Exchange)
        ensures
            r.close == self.head.close_after_response,
            r.limited == self.limited,
            r.protocol == self.upstream.protocol,
    {
        Exchange {
            close: self.head.close_after_response,
            limited: self.limited,
            protocol: self.upstream.protocol,
        }
    }
}

/// An upstream is noted as healthy only after a whole response below 500; a connection goes
/// back to the pool only after a whole response that neither side wants to be the last.
pub proof fn only_whole_responses_count(phase: Phase, event: Event)
    requires
        move_for(phase, event).is_some(),
    ensures
        move_for(phase, event)->0.health == Health::Success ==> (phase matches Phase::RelayBody(
            _,
            response,
        ) && event == Event::Done && response.status < 500),
        move_for(phase, event)->0.pool ==> (phase matches Phase::RelayBody(x, response) && event
            == Event::Done && !x.close && !response.close_after_response && move_for(
            phase,
            event,
        )->0.next == Phase::Head),
{
}

/// Once a reply of its own went out, the engine reads no further request on the connection.
pub proof fn replies_end_the_connection(event: Event)
    ensures
        move_for(Phase::Reply, event) matches Some(m) ==> m.next == Phase::Closed,
{
}

// --------------------------------------------------- what messages and courses are

proof fn lemma_length_only(hs: Seq<(Seq<char>, Seq<u8>)>, i: int, n: usize)
    requires
        0 <= i < hs.len(),
        same_ignoring_case(hs[i].0, "content-length"@),
        hs[i].1 == encode_utf8(decimal(n as nat)),
        forall|j: int|
            0 <= j < hs.len() && j != i ==> !same_ignoring_case(
                (#[trigger] hs[j]).0,
                "content-length"@,
            ) && !same_ignoring_case(hs[j].0, "transfer-encoding"@),
    ensures
        !named_before(hs, hs.len() as int, "transfer-encoding"@),
        first_value(hs, "content-length"@) == Some(hs[i].1),
        length_in(hs[i].1) == Some(n as nat),
        forall|j: int|
            0 <= j < hs.len() ==> (#[trigger] unsupported_framing(hs, j)).is_none() && length_issue(
                hs,
                j,
            ).is_none(),
{
    stated_length_reads_back(n);
    lemma_framing_names_differ(hs[i].0);
    assert(!named_before(hs, i, "content-length"@)) by {
        assert forall|j: int| 0 <= j < i implies !named(#[trigger] hs[j], "content-length"@) by {
            assert(!same_ignoring_case(hs[j].0, "content-length"@));
        }
    }
    lemma_first_value_named(hs, "content-length"@, i);
    assert forall|j: int| 0 <= j < hs.len() implies !named(#[trigger] hs[j], "transfer-encoding"@) by {
        if j != i {
            assert(!same_ignoring_case(hs[j].0, "content-length"@));
        }
    }
    assert forall|j: int| 0 <= j < hs.len() implies (#[trigger] unsupported_framing(
        hs,
        j,
    )).is_none() && length_issue(hs, j).is_none() by {
        assert(!named(hs[j], "transfer-encoding"@));
        if j != i {
            assert(!same_ignoring_case(hs[j].0, "content-length"@));
        }
    }
}

/// A request whose one framing field is a length has a body of just that length, and is refused
/// above 64 MiB; a response has a body of just that length, whatever its status, but for the
/// answer to `HEAD` and for 1xx, 204 and 304.
pub proof fn messages_have_the_length_they_state(
    hs: Seq<(Seq<char>, Seq<u8>)>,
    i: int,
    n: usize,
    code: u16,
    version: Option<u8>,
)
    requires
        0 <= i < hs.len(),
        same_ignoring_case(hs[i].0, "content-length"@),
        hs[i].1 == encode_utf8(decimal(n as nat)),
        forall|j: int|
            0 <= j < hs.len() && j != i ==> !same_ignoring_case(
                (#[trigger] hs[j]).0,
                "content-length"@,
            ) && !same_ignoring_case(hs[j].0, "transfer-encoding"@),
    ensures
        request_length(hs, true) == if n > 67108864 {
            Err::<usize, Seq<char>>("request body too large"@)
        } else {
            Ok(n)
        },
        (code < 100 || code >= 200) && code != 204 && code != 304 ==> response_plan(
            Some(Some((Some(code), version, hs))),
            false,
        ) == Ok::<ResponseMeta, Seq<char>>(
            ResponseMeta {
                status: code,
                body: ResponseBody::ContentLength(n),
                close_after_response: wants_close(version == Some(0u8), hs),
            },
        ),
{
    lemma_length_only(hs, i, n);
    let a = Seq::new(hs.len(), |k: int| unsupported_framing(hs, k));
    let b = Seq::new(hs.len(), |k: int| length_issue(hs, k));
    lemma_first_some_none(a);
    lemma_first_some_none(b);
    assert forall|j: int| 0 <= j < b.len() implies (#[trigger] b[j]).is_none() by {
        assert(unsupported_framing(hs, j).is_none());
    }
}

/// A message without framing fields: a request has no body; a response lasts as long as its
/// connection, but for the answer to `HEAD` and for 1xx, 204 and 304, which have none.
pub proof fn messages_without_framing(
    hs: Seq<(Seq<char>, Seq<u8>)>,
    code: u16,
    version: Option<u8>,
    limited: bool,
)
    requires
        forall|j: int|
            0 <= j < hs.len() ==> !same_ignoring_case((#[trigger] hs[j]).0, "content-length"@)
                && !same_ignoring_case(hs[j].0, "transfer-encoding"@),
    ensures
        request_length(hs, limited) == Ok::<usize, Seq<char>>(0),
        (code < 100 || code >= 200) && code != 204 && code != 304 ==> response_plan(
            Some(Some((Some(code), version, hs))),
            false,
        ) == Ok::<ResponseMeta, Seq<char>>(
            ResponseMeta {
                status: code,
                body: ResponseBody::CloseDelimited,
                close_after_response: true,
            },
        ),
{
    let a = Seq::new(hs.len(), |k: int| unsupported_framing(hs, k));
    let b = Seq::new(hs.len(), |k: int| length_issue(hs, k));
    lemma_first_some_none(a);
    lemma_first_some_none(b);
    assert forall|j: int| 0 <= j < a.len() implies (#[trigger] a[j]).is_none() by {
        assert(!same_ignoring_case(hs[j].0, "content-length"@));
    }
    assert forall|j: int| 0 <= j < b.len() implies (#[trigger] b[j]).is_none() by {
        assert(!same_ignoring_case(hs[j].0, "content-length"@));
    }
    assert(!named_before(hs, hs.len() as int, "content-length"@)) by {
        assert forall|j: int| 0 <= j < hs.len() implies !named(
            #[trigger] hs[j],
            "content-length"@,
        ) by {
            assert(!same_ignoring_case(hs[j].0, "content-length"@));
        }
    }
    assert(!named_before(hs, hs.len() as int, "transfer-encoding"@)) by {
        assert forall|j: int| 0 <= j < hs.len() implies !named(
            #[trigger] hs[j],
            "transfer-encoding"@,
        ) by {
            assert(!same_ignoring_case(hs[j].0, "content-length"@));
        }
    }
    lemma_first_value_unnamed(hs, "content-length"@);
}

/// The answer to `HEAD` and responses with 1xx, 204 and 304 have no body, whatever their fields
/// say.
pub proof fn bodiless_responses_are_bodiless(
    hs: Seq<(Seq<char>, Seq<u8>)>,
    code: u16,
    version: Option<u8>,
    head_response: bool,
)
    requires
        head_response || 100 <= code < 200 || code == 204 || code == 304,
    ensures
        response_plan(Some(Some((Some(code), version, hs))), head_response) == Ok::<
            ResponseMeta,
            Seq<char>,
        >(
            ResponseMeta {
                status: code,
                body: ResponseBody::Empty,
                close_after_response: wants_close(version == Some(0u8), hs),
            },
        ),
        body_start(ResponseBody::Empty) == CopyState::Done,
{
}

/// A message with a transfer encoding is refused, and so is one with two lengths.
pub proof fn unsupported_messages_are_refused(
    hs: Seq<(Seq<char>, Seq<u8>)>,
    i: int,
    j: int,
    limited: bool,
)
    requires
        0 <= i < hs.len(),
        0 <= j < hs.len(),
        same_ignoring_case(hs[i].0, "transfer-encoding"@) || (i < j && same_ignoring_case(
            hs[i].0,
            "content-length"@,
        ) && same_ignoring_case(hs[j].0, "content-length"@)),
    ensures
        request_length(hs, limited).is_err(),
        response_length(hs).is_err(),
{
    let a = Seq::new(hs.len(), |k: int| unsupported_framing(hs, k));
    let b = Seq::new(hs.len(), |k: int| length_issue(hs, k));
    lemma_first_some_none(a);
    lemma_first_some_none(b);
    if same_ignoring_case(hs[i].0, "transfer-encoding"@) {
        assert(named(hs[i], "transfer-encoding"@));
        assert(a[i].is_some());
    } else {
        assert(named(hs[i], "content-length"@));
        assert(named_before(hs, j, "content-length"@));
        assert(a[j].is_some());
        assert(b[j].is_some());
    }
}

/// A body of known length is passed on as such, and a response that lasts as long as its
/// connection to the end of that.
pub proof fn bodies_start_as_they_are_stated(n: usize, input: Seq<u8>)
    ensures
        stated_framing(n) == if n == 0 {
            BodyKind::Empty
        } else {
            BodyKind::ContentLength(n)
        },
        body_start(ResponseBody::ContentLength(n)) == (CopyState::Exact { remaining: n as u128 }),
        body_start(ResponseBody::CloseDelimited) == CopyState::UntilClose,
{
}

/// An exchange runs step by step: connect, head, body, response head, response body; interim
/// heads are passed on until one is final.
pub proof fn exchanges_run_their_course(x: Exchange, response: ResponseMeta)
    requires
        x.protocol != UpstreamProtocol::H3,
    ensures
        ({
            let first = if x.limited {
                move_for(Phase::Admit(x), Event::Verdict(true))
            } else {
                move_for(Phase::Head, Event::Matched(x))
            };
            let connected = move_for(first->0.next, Event::Done);
            let sent = move_for(connected->0.next, Event::Done);
            let passed = move_for(sent->0.next, Event::Done);
            let relayed = move_for(passed->0.next, Event::HeadRelayed(response));
            &&& first->0.next == Phase::Connect(x)
            &&& connected->0.next == Phase::SendHead(x)
            &&& sent->0.next == Phase::SendBody(x)
            &&& passed->0.next == Phase::RelayHead(x)
            &&& relayed->0.next == if 100 <= response.status < 200 {
                Phase::RelayHead(x)
            } else {
                Phase::RelayBody(x, response)
            }
        }),
        x.limited ==> move_for(Phase::Head, Event::Matched(x)) == Some(go(Phase::Admit(x))),
{
}

/// A whole response is noted in these numbers: below 500 as a success, any other as a failure;
/// and the connections stay open unless one side wants them closed.
pub proof fn responses_are_noted_by_status(x: Exchange, response: ResponseMeta)
    ensures
        move_for(Phase::RelayBody(x, response), Event::Done) matches Some(m) && {
            &&& response.status < 500 ==> m.health == Health::Success
            &&& response.status >= 500 ==> m.health == Health::Failure
            &&& m.reply is None
            &&& m.error is None
            &&& x.close || response.close_after_response ==> m.next == Phase::Closed && !m.pool
            &&& !x.close && !response.close_after_response ==> m.next == Phase::Head && m.pool
        },
{
}

/// A failed upstream is noted as failed and never pooled; the client is told 502 as long as
/// nothing of its body was passed on.
pub proof fn failed_upstreams_are_noted(phase: Phase, x: Exchange, response: ResponseMeta)
    requires
        phase == Phase::Connect(x) || phase == Phase::SendHead(x) || phase == Phase::SendBody(x)
            || phase == Phase::RelayBody(x, response),
    ensures
        move_for(phase, Event::Failed) matches Some(m) && {
            &&& m.health == Health::Failure
            &&& !m.pool
            &&& m.error is None
            &&& phase is Connect || phase is SendHead ==> (m.reply matches Some(r) && r.parts().0
                == 502) && m.next == Phase::Reply
            &&& phase is SendBody || phase is RelayBody ==> m.reply is None && m.next
                == Phase::Closed
        },
        move_for(Phase::RelayHead(x), Event::Ended) matches Some(m) && m.health == Health::Failure
            && m.next == Phase::Closed && m.error is Some && m.reply is None,
        move_for(Phase::RelayHead(x), Event::TimedOut) matches Some(m) && m.health
            == Health::Unchanged && m.next == Phase::Closed && m.error is Some && m.reply is None,
{
}

/// What the client is told in these numbers: 404 without a route, 429 where the limiter refuses,
/// 501 for an HTTP/3 upstream; none of these says anything of an upstream's health.
pub proof fn declined_requests_are_told_why(x: Exchange)
    ensures
        move_for(Phase::Head, Event::NoRoute) matches Some(m) && (m.reply matches Some(r)
            && r.parts().0 == 404) && m.next == Phase::Reply && m.health == Health::Unchanged,
        move_for(Phase::Admit(x), Event::Verdict(false)) matches Some(m) && (
        m.reply matches Some(r) && r.parts().0 == 429) && m.next == Phase::Reply && m.health
            == Health::Unchanged,
        x.protocol == UpstreamProtocol::H3 ==> (
        move_for(Phase::Admit(x), Event::Verdict(true)) matches Some(m) && (
        m.reply matches Some(r) && r.parts().0 == 501) && m.next == Phase::Reply && m.health
            == Health::Unchanged),
        x.protocol == UpstreamProtocol::H3 && !x.limited ==> move_for(
            Phase::Head,
            Event::Matched(x),
        ) == move_for(Phase::Admit(x), Event::Verdict(true)),
        move_for(Phase::Head, Event::Ended) matches Some(m) && m.next == Phase::Closed && m.error
            is None && m.reply is None,
        move_for(Phase::Reply, Event::Done) matches Some(m) && m.next == Phase::Closed && m.error
            is None,
{
}

/// A request that can be read goes to the pool of its route; one without a route or upstream
/// goes nowhere; one that cannot be read is malformed.
pub proof fn requests_start_at_their_route(
    t: RouteTable,
    method: Seq<char>,
    target: Seq<char>,
    version: Option<u8>,
    hs: Seq<(Seq<char>, Seq<u8>)>,
)
    ensures
        ({
            let head = Some(Some((Some(method), Some(target), version, hs)));
            let plan = start_plan(t, head);
            &&& route_of(t, head) is None <==> plan is NoRoute
            &&& route_of(t, head) matches Some(i) ==> {
                let pool = t.routes@[i].pool;
                &&& t.pools@[pool as int].choice().0 is None <==> plan is NoUpstream
                &&& t.pools@[pool as int].choice().0 matches Some(u) ==> plan == (
                StartPlan::Start {
                    route: i,
                    at: UpstreamRef { pool, index: u },
                    method,
                    target,
                    http10: version == Some(0u8),
                    hs,
                })
            }
        }),
        start_plan(t, None) is Malformed,
        start_plan(t, Some(None)) is Malformed,
{
}

/// A completed request is the one that was started, with the length of its body, answered
/// without a body just where it asks by `HEAD`.
pub proof fn completed_requests_are_those_started(
    m: MatchedRequest,
    started: StartedRequest,
    t: RouteTable,
    addr: SocketAddr,
    n: usize,
)
    requires
        m.completes(started, t, addr, n),
    ensures
        m.head.body_len == n,
        m.head.head_response <==> same_ignoring_case(started.method@, "HEAD"@),
        m.head.close_after_response == wants_close(started.http10, fields(started.headers@)),
        m.connect_addr == addr,
        m.route == started.route,
        m.upstream.at == started.at,
        m.head.outbound@ == request_bytes(
            started.method@,
            upstream_path(t.at(started.at).uri_base.base_path@, started.target@),
            t.at(started.at).uri_base.authority@,
            fields(started.headers@),
            if n > 0 {
                BodyKind::ContentLength(n)
            } else {
                BodyKind::Empty
            },
        ),
{
}

/// A response that has been read and states no framing lasts as long as its connection; one
/// that states a length has it; one without a body by its status or its request has none.
pub proof fn responses_are_read_as_they_state(
    head: Parsed<ResponseFields>,
    head_response: bool,
    r: Result<ResponseMeta, UringError>,
    code: u16,
    version: Option<u8>,
    hs: Seq<(Seq<char>, Seq<u8>)>,
    i: int,
    n: usize,
)
    requires
        head matches Parsed::Complete(f) && f.model() == (Some(code), version, hs),
        call_ensures(response_from_head, (head, head_response), r),
        forall|j: int|
            0 <= j < hs.len() && j != i ==> !same_ignoring_case(
                (#[trigger] hs[j]).0,
                "content-length"@,
            ) && !same_ignoring_case(hs[j].0, "transfer-encoding"@),
        0 <= i < hs.len() ==> same_ignoring_case(hs[i].0, "content-length"@) && hs[i].1
            == encode_utf8(decimal(n as nat)),
    ensures
        r matches Ok(h) && {
            &&& h.status == code
            &&& head_response || 100 <= code < 200 || code == 204 || code == 304 ==> h.body
                == ResponseBody::Empty
            &&& !head_response && !(100 <= code < 200) && code != 204 && code != 304 ==> h.body
                == if 0 <= i < hs.len() {
                ResponseBody::ContentLength(n)
            } else {
                ResponseBody::CloseDelimited
            }
            &&& h.body == ResponseBody::CloseDelimited ==> h.close_after_response
        },
{
    if head_response || 100 <= code < 200 || code == 204 || code == 304 {
        bodiless_responses_are_bodiless(hs, code, version, head_response);
    } else if 0 <= i < hs.len() {
        messages_have_the_length_they_state(hs, i, n, code, version);
    } else {
        messages_without_framing(hs, code, version, false);
    }
}

/// The head of a response goes to the client as it came, and what stands behind it stays.
pub proof fn response_heads_go_on_unchanged(
    buf: &mut Vec<u8>,
    header_end: usize,
    head_response: bool,
    r: Result<RelayedHead, UringError>,
)
    requires
        header_end <= old(buf)@.len(),
        call_ensures(relay_response_head, (buf, header_end, head_response), r),
    ensures
        r matches Ok(relayed) ==> {
            &&& relayed.bytes@ == old(buf)@.take(header_end as int)
            &&& relayed.bytes@ + final(buf)@ == old(buf)@
            &&& relayed.interim <==> 100 <= relayed.response.status < 200
            &&& relayed.response.body == ResponseBody::CloseDelimited ==> relayed.state
                == CopyState::UntilClose
            &&& relayed.response.body == ResponseBody::Empty ==> relayed.state == CopyState::Done
        },
        r is Err ==> final(buf)@ == old(buf)@,
{
    if let Ok(relayed) = r {
        assert(relayed.bytes@ + final(buf)@ =~= old(buf)@);
    }
}

/// A step of the engine is the move that its phase and its event call for, and an event that
/// calls for none changes nothing.
pub proof fn steps_follow_events(phase: Phase, event: Event, r: Move)
    requires
        call_ensures(step, (phase, event), r),
    ensures
        move_for(phase, event) matches Some(m) ==> r.model() == m,
        move_for(phase, event) is None ==> r.model().next == phase,
{
}

/// An address that is known is used again, and without one the failure to find it is told.
pub proof fn requests_go_to_a_known_address(
    snapshot: &mut ConfigSnapshot,
    started: StartedRequest,
    resolved: Result<SocketAddr, IoFailure>,
    r: Result<MatchedRequest, UringError>,
)
    requires
        old(snapshot).routes.wf(),
        old(snapshot).routes.has(started.at),
        started.route < old(snapshot).routes.routes@.len(),
        call_ensures(build_request, (snapshot, started, resolved), r),
    ensures
        final(snapshot).config == old(snapshot).config,
        old(snapshot).routes.at(started.at).connect_addr matches Some(known) ==> (r matches Ok(m)
            ==> m.connect_addr == known) && final(snapshot).routes.at(started.at).connect_addr
            == Some(known),
        old(snapshot).routes.at(started.at).connect_addr is None ==> (resolved matches Err(e)
            ==> r == Err::<MatchedRequest, UringError>(UringError::Io(e))),
        old(snapshot).routes.at(started.at).connect_addr is None ==> (resolved matches Ok(found)
            ==> (r matches Ok(m) ==> m.connect_addr == found) && final(snapshot).routes.at(
            started.at,
        ).connect_addr == Some(found)),
        r matches Ok(m) ==> m.route == started.route && m.upstream.at == started.at,
{
}

/// What is wrong with a message, in words.
pub proof fn faults_in_words(
    t: RouteTable,
    method: Seq<char>,
    target: Option<Seq<char>>,
    version: Option<u8>,
    hs: Seq<(Seq<char>, Seq<u8>)>,
    h: (Seq<char>, Seq<u8>),
    x: Exchange,
    head_response: bool,
)
    requires
        same_ignoring_case(h.0, "transfer-encoding"@),
    ensures
        start_plan(t, None) == (StartPlan::Malformed { why: "invalid request headers"@ }),
        start_plan(t, Some(None)) == (StartPlan::Malformed {
            why: "incomplete request headers"@,
        }),
        start_plan(t, Some(Some((None, target, version, hs)))) == (StartPlan::Malformed {
            why: "request method missing"@,
        }),
        start_plan(t, Some(Some((Some(method), None, version, hs)))) == (StartPlan::Malformed {
            why: "request target missing"@,
        }),
        response_plan(None, head_response) == Err::<ResponseMeta, Seq<char>>(
            "invalid response headers"@,
        ),
        response_plan(Some(None), head_response) == Err::<ResponseMeta, Seq<char>>(
            "incomplete response headers"@,
        ),
        response_plan(Some(Some((Some(200u16), version, seq![h]))), false) == Err::<
            ResponseMeta,
            Seq<char>,
        >("transfer-encoding is not supported by io_uring engine yet"@),
        unsupported_framing(seq![h], 0) == Some(
            "transfer-encoding is not supported by io_uring engine yet"@,
        ),
        move_for(Phase::Head, Event::TimedOut) matches Some(m) && m.error == Some(
            ErrorModel::Parse("downstream header read timed out"@),
        ),
        move_for(Phase::RelayHead(x), Event::TimedOut) matches Some(m) && m.error == Some(
            ErrorModel::Parse("upstream response timed out"@),
        ),
        move_for(Phase::RelayHead(x), Event::Ended) matches Some(m) && m.error == Some(
            ErrorModel::Parse("upstream closed before response"@),
        ),
{
    let one = seq![h];
    assert(named(one[0], "transfer-encoding"@));
    assert(named_before(one, 1, "transfer-encoding"@));
}

} // verus!
