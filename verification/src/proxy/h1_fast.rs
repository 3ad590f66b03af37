//! The fast HTTP/1.1 engine: building requests, reading responses, and the course of a
//! connection from one exchange to the next.

use crate::config::routes::{chosen_route, configs, RouteTable, UpstreamRef};
use crate::config::snapshot::ConfigSnapshot;
use crate::config::types::UpstreamProtocol;
use crate::config::upstream::upstream_path;
use crate::fault::{IoFailure, IoKind};
use crate::octets::prefix_of;
use crate::proxy::exchange::{
    after_first_write, begin_relay, first_write, health_for, health_of, Exchange, Health,
    RelayStart, StaticReply, Tally,
};
use crate::proxy::head::{
    body_kind, chunked_states_the_body, connections_stay_open_by_version, framing,
    heads_without_framing_state_no_body, lengths_state_the_body, parse_request_head, parse_response_head, parsed_request, parsed_response,
    request_model, request_wants_close, response_model, wants_close, BodyKind, Parsed,
    RequestFields, ResponseFields, MAX_HEADERS,
};
use crate::proxy::select::{
    asked, head_lookup, lookup_host, request_bytes, select_upstream, write_request_head, Selected,
};
use crate::text::{
    case_means_letters_only, decimal, eq_ignore_case, is_space, same_ignoring_case,
};
use crate::time::Duration;
use vstd::prelude::*;
use vstd::string::*;
use vstd::utf8::encode_utf8;

verus! {

/// Why a connection ended early.
#[derive(Debug)]
pub enum FastH1Error {
    /// Reading or writing failed.
    Io(IoFailure),
    /// A message could not be understood.
    Parse(&'static str),
    /// No upstream could be used.
    Upstream(String),
}

/// An error in plain values: its kind, and what it holds.
pub ghost enum ErrorModel {
    Io(IoFailure),
    Parse(Seq<char>),
    Upstream(Seq<char>),
}

impl FastH1Error {
    /// The error in plain values.
    pub open spec fn model(&self) -> ErrorModel {
        match self {
            FastH1Error::Io(e) => ErrorModel::Io(*e),
            FastH1Error::Parse(m) => ErrorModel::Parse(m@),
            FastH1Error::Upstream(m) => ErrorModel::Upstream(m@),
        }
    }

    /// What is shown of the error.
    pub open spec fn text(&self) -> Seq<char> {
        match self {
            FastH1Error::Io(e) => e.message@,
            FastH1Error::Parse(m) => m@,
            FastH1Error::Upstream(m) => m@,
        }
    }

    /// What is shown of the error.
    pub fn message(&self) -> (s: String)
        ensures
            s@ == self.text(),
    {
        match self {
            FastH1Error::Io(e) => e.message.clone(),
            FastH1Error::Parse(m) => (*m).to_owned(),
            FastH1Error::Upstream(m) => m.clone(),
        }
    }
}

impl From<IoFailure> for FastH1Error {
    fn from(value: IoFailure) -> (r: FastH1Error) {
        FastH1Error::Io(value)
    }
}

impl vstd::std_specs::convert::FromSpecImpl<IoFailure> for FastH1Error {
    open spec fn obeys_from_spec() -> bool {
        true
    }

    open spec fn from_spec(value: IoFailure) -> FastH1Error {
        FastH1Error::Io(value)
    }
}

/// What the rest of an exchange needs to know of a request.
#[derive(Clone, Copy, Debug, PartialEq, Eq, Structural)]
pub struct RequestHead {
    pub head_response: bool,
    pub close_after_response: bool,
    pub body: BodyKind,
}

/// What the rest of an exchange needs to know of a response.
#[derive(Clone, Copy, Debug, PartialEq, Eq, Structural)]
pub struct ResponseHead {
    pub status: u16,
    pub close_after_response: bool,
    pub body: BodyKind,
}

/// The upstream that a request goes to.
#[derive(Clone, Debug)]
pub struct SelectedUpstream {
    pub at: UpstreamRef,
    pub id: usize,
    pub authority: String,
    pub protocol: UpstreamProtocol,
    pub connect_timeout: Duration,
    pub request_timeout: Duration,
}

impl SelectedUpstream {
    /// The upstream at `at`, with its id, authority, protocol and timeouts.
    pub open spec fn describes(&self, t: RouteTable, at: UpstreamRef) -> bool {
        let u = t.pools@[at.pool as int].upstreams@[at.index as int];
        &&& self.at == at
        &&& self.id == u.id
        &&& self.authority@ == u.uri_base.authority@
        &&& self.protocol == u.config.protocol
        &&& self.connect_timeout.nanos == u.config.connect_timeout_ms * 1_000_000
        &&& self.request_timeout.nanos == u.config.request_timeout_ms * 1_000_000
    }

    /// Copies out what an exchange needs of the upstream at `at`.
    pub fn of(table: &RouteTable, at: UpstreamRef) -> (r: SelectedUpstream)
        requires
            at.pool < table.pools@.len(),
            at.index < table.pools@[at.pool as int].upstreams@.len(),
        ensures
            r.describes(*table, at),
    {
        let u = table.upstream(at);
        SelectedUpstream {
            at,
            id: u.id(),
            authority: u.authority().to_owned(),
            protocol: u.config.protocol,
            connect_timeout: Duration::from_millis(u.config.connect_timeout_ms),
            request_timeout: Duration::from_millis(u.config.request_timeout_ms),
        }
    }
}

/// A request that found its upstream.
#[derive(Debug)]
pub struct MatchedRequest {
    pub head: RequestHead,
    pub upstream: SelectedUpstream,
    /// The position of the route that took the request.
    pub route: usize,
    /// Whether that route has a rate limiter.
    pub limited: bool,
    /// Method and target, where accesses are logged.
    pub access_log: Option<(String, String)>,
}

/// What becomes of a request.
pub ghost enum RequestPlan {
    /// It cannot be understood.
    Malformed { why: Seq<char> },
    /// No route takes it.
    NoRoute,
    /// Its route leads to no upstream.
    NoUpstream,
    /// It goes to an upstream, with this head.
    Send {
        route: int,
        at: UpstreamRef,
        method: Seq<char>,
        target: Seq<char>,
        head: RequestHead,
        bytes: Seq<u8>,
    },
}

/// The route that a request with this head takes.
pub open spec fn route_of(
    t: RouteTable,
    head: Option<
        Option<(Option<Seq<char>>, Option<Seq<char>>, Option<u8>, Seq<(Seq<char>, Seq<u8>)>)>,
    >,
) -> Option<int> {
    match head {
        Some(Some((Some(_), Some(target), _, hs))) => chosen_route(
            configs(t.routes@),
            head_lookup(t.requires_host_match, hs),
            target,
        ),
        _ => None,
    }
}

/// What becomes of a request with this head.
pub open spec fn request_plan(
    t: RouteTable,
    head: Option<
        Option<(Option<Seq<char>>, Option<Seq<char>>, Option<u8>, Seq<(Seq<char>, Seq<u8>)>)>,
    >,
) -> RequestPlan {
    match head {
        None => RequestPlan::Malformed { why: "invalid request headers"@ },
        Some(None) => RequestPlan::Malformed { why: "incomplete request headers"@ },
        Some(Some((None, _, _, _))) => RequestPlan::Malformed { why: "request method missing"@ },
        Some(Some((Some(_), None, _, _))) => RequestPlan::Malformed {
            why: "request target missing"@,
        },
        Some(Some((Some(method), Some(target), version, hs))) => match route_of(t, head) {
            None => RequestPlan::NoRoute,
            Some(i) => {
                let pool = t.routes@[i].pool;
                match t.pools@[pool as int].choice().0 {
                    None => RequestPlan::NoUpstream,
                    Some(u) => match framing(hs, true) {
                        Err(why) => RequestPlan::Malformed { why },
                        Ok(body) => {
                            let up = t.pools@[pool as int].upstreams@[u as int];
                            RequestPlan::Send {
                                route: i,
                                at: UpstreamRef { pool, index: u },
                                method,
                                target,
                                head: RequestHead {
                                    head_response: same_ignoring_case(method, "HEAD"@),
                                    close_after_response: wants_close(version == Some(0u8), hs),
                                    body,
                                },
                                bytes: request_bytes(
                                    method,
                                    upstream_path(up.uri_base.base_path@, target),
                                    up.uri_base.authority@,
                                    hs,
                                    body,
                                ),
                            }
                        },
                    },
                }
            },
        },
    }
}

impl MatchedRequest {
    /// The request carries out the plan.
    pub open spec fn follows(&self, t: RouteTable, logged: bool, plan: RequestPlan) -> bool {
        plan matches RequestPlan::Send { route, at, method, target, head, .. } && {
            &&& self.head == head
            &&& self.route == route
            &&& self.limited == t.routes@[route].rate_limiter.is_some()
            &&& self.upstream.describes(t, at)
            &&& match self.access_log {
                Some((m, p)) => logged && m@ == method && p@ == target,
                None => !logged,
            }
        }
    }
}

/// Whether a table is as it was but for the rotation of the pool that was asked.
pub open spec fn only_asked(before: RouteTable, after: RouteTable, route: Option<int>) -> bool {
    match route {
        None => after == before,
        Some(i) => asked(before, after, i),
    }
}

/// Routes a request whose head was read, and appends its head as it goes upstream.
pub fn build_from_head(
    snapshot: &mut ConfigSnapshot,
    head: Parsed<RequestFields>,
    outbound: &mut Vec<u8>,
) -> (r: Result<Option<MatchedRequest>, FastH1Error>)
    requires
        old(snapshot).routes.wf(),
    ensures
        final(snapshot).routes.wf(),
        final(snapshot).config == old(snapshot).config,
        only_asked(
            old(snapshot).routes,
            final(snapshot).routes,
            route_of(old(snapshot).routes, request_model(head)),
        ),
        match request_plan(old(snapshot).routes, request_model(head)) {
            RequestPlan::Malformed { why } => (r matches Err(FastH1Error::Parse(m)) && m@ == why)
                && final(outbound)@ == old(outbound)@,
            RequestPlan::NoUpstream => (r matches Err(FastH1Error::Upstream(m)) && m@
                == "no available upstream"@) && final(outbound)@ == old(outbound)@,
            RequestPlan::NoRoute => r matches Ok(None) && final(outbound)@ == old(outbound)@,
            RequestPlan::Send { bytes, .. } => (r matches Ok(Some(m)) && m.follows(
                old(snapshot).routes,
                old(snapshot).config.telemetry.access_log,
                request_plan(old(snapshot).routes, request_model(head)),
            )) && final(outbound)@ == old(outbound)@ + bytes,
        },
{
    let parsed = match head {
        Parsed::Invalid => {
            return Err(FastH1Error::Parse("invalid request headers"));
        },
        Parsed::Partial => {
            return Err(FastH1Error::Parse("incomplete request headers"));
        },
        Parsed::Complete(f) => f,
    };
    let method = match &parsed.method {
        Some(m) => m.as_str(),
        None => {
            return Err(FastH1Error::Parse("request method missing"));
        },
    };
    let path_and_query = match &parsed.path {
        Some(p) => p.as_str(),
        None => {
            return Err(FastH1Error::Parse("request target missing"));
        },
    };
    let http10 = match parsed.version {
        Some(v) => v == 0,
        None => false,
    };
    let host = lookup_host(snapshot.routes.requires_host_match(), &parsed.headers);
    let (route, at) = match select_upstream(&mut snapshot.routes, &host, path_and_query) {
        Selected::NoRoute => {
            return Ok(None);
        },
        Selected::NoUpstream => {
            return Err(FastH1Error::Upstream("no available upstream".to_owned()));
        },
        Selected::Chosen { route, at } => (route, at),
    };
    let ghost before = old(snapshot).routes;
    let ghost plan = request_plan(before, request_model(head));
    proof {
        assert(route_of(before, request_model(head)) == Some(route as int));
        assert(snapshot.routes.pools@[at.pool as int].upstreams
            == before.pools@[at.pool as int].upstreams);
    }
    let upstream = SelectedUpstream::of(&snapshot.routes, at);
    let upstream_path = snapshot.routes.upstream(at).upstream_path_and_query(path_and_query);
    let close_after_response = request_wants_close(http10, &parsed.headers);
    let body = match body_kind(&parsed.headers, true) {
        Ok(b) => b,
        Err(m) => {
            return Err(FastH1Error::Parse(m));
        },
    };
    write_request_head(
        outbound,
        method,
        upstream_path.as_str(),
        upstream.authority.as_str(),
        &parsed.headers,
        body,
    );
    let access_log = if snapshot.config.telemetry.access_log {
        Some((method.to_owned(), path_and_query.to_owned()))
    } else {
        None
    };
    let limited = snapshot.routes.routes[route].rate_limiter.is_some();
    proof {
        assert(upstream.describes(before, at));
        assert(plan is Send);
    }
    Ok(
        Some(
            MatchedRequest {
                head: RequestHead {
                    head_response: eq_ignore_case(method, "HEAD"),
                    close_after_response,
                    body,
                },
                upstream,
                route,
                limited,
                access_log,
            },
        ),
    )
}

/// Reads the head of a request, routes it, and appends its head as it goes upstream.
pub fn build_request(
    snapshot: &mut ConfigSnapshot,
    raw_headers: &[u8],
    outbound: &mut Vec<u8>,
) -> (r: Result<Option<MatchedRequest>, FastH1Error>)
    requires
        old(snapshot).routes.wf(),
    ensures
        final(snapshot).routes.wf(),
        final(snapshot).config == old(snapshot).config,
        only_asked(
            old(snapshot).routes,
            final(snapshot).routes,
            route_of(old(snapshot).routes, parsed_request(raw_headers@, 96)),
        ),
        match request_plan(old(snapshot).routes, parsed_request(raw_headers@, 96)) {
            RequestPlan::Malformed { why } => (r matches Err(FastH1Error::Parse(m)) && m@ == why)
                && final(outbound)@ == old(outbound)@,
            RequestPlan::NoUpstream => (r matches Err(FastH1Error::Upstream(m)) && m@
                == "no available upstream"@) && final(outbound)@ == old(outbound)@,
            RequestPlan::NoRoute => r matches Ok(None) && final(outbound)@ == old(outbound)@,
            RequestPlan::Send { bytes, .. } => (r matches Ok(Some(m)) && m.follows(
                old(snapshot).routes,
                old(snapshot).config.telemetry.access_log,
                request_plan(old(snapshot).routes, parsed_request(raw_headers@, 96)),
            )) && final(outbound)@ == old(outbound)@ + bytes,
        },
{
    build_from_head(snapshot, parse_request_head(raw_headers, MAX_HEADERS), outbound)
}

// ------------------------------------------------------------------ responses

/// Whether a status is that of an interim response.
pub open spec fn interim(status: u16) -> bool {
    100 <= status < 200
}

/// What a response with this head means, or the complaint about it.
pub open spec fn response_plan(
    head: Option<Option<(Option<u16>, Option<u8>, Seq<(Seq<char>, Seq<u8>)>)>>,
    head_response: bool,
) -> Result<ResponseHead, Seq<char>> {
    match head {
        None => Err("invalid response headers"@),
        Some(None) => Err("incomplete response headers"@),
        Some(Some((None, _, _))) => Err("response status missing"@),
        Some(Some((Some(code), version, hs))) => {
            let bodiless = head_response || interim(code) || code == 204 || code == 304;
            let body = if bodiless {
                Ok(BodyKind::Empty)
            } else {
                framing(hs, false)
            };
            match body {
                Err(why) => Err(why),
                Ok(kind) => {
                    let kind = if bodiless {
                        kind
                    } else {
                        kind.or_close()
                    };
                    Ok(
                        ResponseHead {
                            status: code,
                            close_after_response: !interim(code) && (wants_close(
                                version == Some(0u8),
                                hs,
                            ) || kind == BodyKind::CloseDelimited),
                            body: kind,
                        },
                    )
                },
            }
        },
    }
}

/// What a response means whose head was read.
pub fn response_from_head(head: Parsed<ResponseFields>, head_response: bool) -> (r: Result<
    ResponseHead,
    FastH1Error,
>)
    ensures
        match response_plan(response_model(head), head_response) {
            Ok(h) => r == Ok::<ResponseHead, FastH1Error>(h),
            Err(why) => r matches Err(FastH1Error::Parse(m)) && m@ == why,
        },
{
    let parsed = match head {
        Parsed::Invalid => {
            return Err(FastH1Error::Parse("invalid response headers"));
        },
        Parsed::Partial => {
            return Err(FastH1Error::Parse("incomplete response headers"));
        },
        Parsed::Complete(f) => f,
    };
    let code: u16 = match parsed.code {
        Some(c) => c,
        None => {
            return Err(FastH1Error::Parse("response status missing"));
        },
    };
    let is_interim = 100 <= code && code < 200;
    let body = if head_response || is_interim || code == 204 || code == 304 {
        BodyKind::Empty
    } else {
        match body_kind(&parsed.headers, false) {
            Ok(b) => b.or_close_delimited(),
            Err(m) => {
                return Err(FastH1Error::Parse(m));
            },
        }
    };
    let http10 = match parsed.version {
        Some(v) => v == 0,
        None => false,
    };
    let close_after_response = !is_interim && (request_wants_close(http10, &parsed.headers)
        || body == BodyKind::CloseDelimited);
    Ok(ResponseHead { status: code, close_after_response, body })
}

/// Reads the head of a response.
pub fn parse_response(raw_headers: &[u8], head_response: bool) -> (r: Result<
    ResponseHead,
    FastH1Error,
>)
    ensures
        match response_plan(parsed_response(raw_headers@, 96), head_response) {
            Ok(h) => r == Ok::<ResponseHead, FastH1Error>(h),
            Err(why) => r matches Err(FastH1Error::Parse(m)) && m@ == why,
        },
{
    response_from_head(parse_response_head(raw_headers, MAX_HEADERS), head_response)
}

/// A response head that was read, with what is sent of the response at once.
pub struct RelayedHead {
    pub response: ResponseHead,
    /// More heads follow: this one is interim.
    pub interim: bool,
    pub start: RelayStart,
}

/// Reads the response head at the start of `buf` and takes the first write from `buf`.
pub fn relay_response_head(buf: &mut Vec<u8>, header_end: usize, head_response: bool) -> (r: Result<
    RelayedHead,
    FastH1Error,
>)
    requires
        header_end <= old(buf)@.len(),
    ensures
        match response_plan(
            parsed_response(old(buf)@.take(header_end as int), 96),
            head_response,
        ) {
            Err(why) => (r matches Err(FastH1Error::Parse(m)) && m@ == why) && final(buf)@ == old(
                buf,
            )@,
            Ok(h) => r matches Ok(relayed) && {
                let n = old(buf)@.len() as int;
                let c = first_write(n, header_end as int, h.body);
                &&& relayed.response == h
                &&& relayed.interim == interim(h.status)
                &&& relayed.start.bytes@ == old(buf)@.take(c)
                &&& relayed.start.state == after_first_write(n, header_end as int, h.body)
                &&& final(buf)@ == old(buf)@.skip(c)
            },
        },
{
    let raw = prefix_of(buf.as_slice(), header_end);
    match parse_response(raw.as_slice(), head_response) {
        Err(e) => Err(e),
        Ok(response) => {
            let start = begin_relay(buf, header_end, response.body);
            Ok(
                RelayedHead {
                    response,
                    interim: 100 <= response.status && response.status < 200,
                    start,
                },
            )
        },
    }
}

/// The failure where an upstream closed before it answered.
pub fn closed_before_response() -> (r: FastH1Error)
    ensures
        r.model() == ErrorModel::Parse("upstream closed before response"@),
{
    FastH1Error::Parse("upstream closed before response")
}

// ---------------------------------------------------- the course of a connection

/// What is noted of an exchange: how it is counted, and the status for the access log.
#[derive(Clone, Copy, Debug, PartialEq, Eq, Structural)]
pub struct Note {
    pub tally: Tally,
    pub logged: Option<u16>,
}

/// Where a connection stands: what is being done for it.
#[derive(Clone, Copy, Debug, PartialEq, Eq, Structural)]
pub enum Phase {
    /// The head of the next request is read.
    Head,
    /// The rate limiter is asked.
    Admit(Exchange),
    /// A connection to the upstream is got.
    Connect(Exchange),
    /// The head of the request is sent.
    SendHead(Exchange),
    /// The body of the request is passed on.
    SendBody(Exchange),
    /// The request is flushed.
    Flush(Exchange),
    /// The response is passed on.
    Relay(Exchange),
    /// A reply of the engine's own is sent, after which something is noted or not and the
    /// connection is closed or not.
    Reply { close: bool, note: Option<Note> },
    /// The connection is over.
    Closed,
}

/// What came of the last action.
pub enum Event {
    /// No head came in time.
    HeadTimedOut,
    /// The client closed the connection between requests.
    HeadEnded,
    /// Reading the head failed.
    HeadFailed(FastH1Error),
    /// The request could not be understood or has no upstream.
    Refused(FastH1Error),
    /// No route takes the request.
    NoRoute,
    /// The request found its upstream.
    Matched(Exchange),
    /// The rate limiter's verdict.
    Verdict(bool),
    /// The action succeeded.
    Done,
    /// The action failed or took too long.
    Failed,
    /// The response was passed on.
    Relayed(ResponseHead),
    /// The reply could not be sent.
    ReplyFailed(FastH1Error),
}

/// What to do next, and what to note.
pub struct Move {
    pub next: Phase,
    /// The reply to send, where the next phase is that of a reply.
    pub reply: Option<StaticReply>,
    pub health: Health,
    pub tally: Option<Tally>,
    /// The status for the access log.
    pub logged: Option<u16>,
    /// The connection to the upstream goes back to the pool.
    pub pool: bool,
    /// Why the connection ended, where it ended early.
    pub error: Option<FastH1Error>,
}

/// A move in plain values.
pub ghost struct MoveModel {
    pub next: Phase,
    pub reply: Option<StaticReply>,
    pub health: Health,
    pub tally: Option<Tally>,
    pub logged: Option<u16>,
    pub pool: bool,
    pub error: Option<ErrorModel>,
}

impl Move {
    pub open spec fn model(&self) -> MoveModel {
        MoveModel {
            next: self.next,
            reply: self.reply,
            health: self.health,
            tally: self.tally,
            logged: self.logged,
            pool: self.pool,
            error: match self.error {
                Some(e) => Some(e.model()),
                None => None,
            },
        }
    }
}

/// Goes on with `next` and notes nothing.
pub open spec fn go(next: Phase) -> MoveModel {
    MoveModel {
        next,
        reply: None,
        health: Health::Unchanged,
        tally: None,
        logged: None,
        pool: false,
        error: None,
    }
}

/// Ends the connection with an error.
pub open spec fn fail(why: ErrorModel) -> MoveModel {
    MoveModel { error: Some(why), ..go(Phase::Closed) }
}

/// Sends a reply without having tried an upstream, and closes. What there is to note is noted
/// only once the reply was sent.
pub open spec fn decline(reply: StaticReply, note: Note) -> MoveModel {
    MoveModel { reply: Some(reply), ..go(Phase::Reply { close: true, note: Some(note) }) }
}

/// Notes that the limiter refused a request, sends a reply, and closes.
pub open spec fn limit() -> MoveModel {
    MoveModel {
        reply: Some(StaticReply::RateLimited),
        tally: Some(Tally::RateLimited),
        logged: Some(429),
        ..go(Phase::Reply { close: true, note: None })
    }
}

/// Notes what there was to note once a reply was sent.
pub open spec fn replied(close: bool, note: Option<Note>) -> MoveModel {
    MoveModel {
        tally: match note {
            Some(n) => Some(n.tally),
            None => None,
        },
        logged: match note {
            Some(n) => n.logged,
            None => None,
        },
        ..go(close_or_next(close))
    }
}

/// Notes that the upstream failed.
pub open spec fn upstream_failed(next: Phase, reply: Option<StaticReply>) -> MoveModel {
    MoveModel {
        reply,
        health: Health::Failure,
        tally: Some(Tally::UpstreamError),
        logged: Some(502),
        ..go(next)
    }
}

/// Closes, or reads the next head.
pub open spec fn close_or_next(close: bool) -> Phase {
    if close {
        Phase::Closed
    } else {
        Phase::Head
    }
}

/// Where an admitted request goes.
pub open spec fn admitted(x: Exchange) -> MoveModel {
    if x.protocol == UpstreamProtocol::H3 {
        decline(
            StaticReply::H3NotEnabled,
            Note { tally: Tally::H3NotEnabled, logged: Some(501) },
        )
    } else {
        go(Phase::Connect(x))
    }
}

/// Whether both the exchange and its response leave the connections open.
pub open spec fn stays_open(x: Exchange, response: ResponseHead) -> bool {
    !x.close && !response.close_after_response && response.body != BodyKind::CloseDelimited
}

/// The move for an event; nothing for an event that cannot come in this phase.
pub open spec fn move_for(phase: Phase, event: Event) -> Option<MoveModel> {
    match (phase, event) {
        (Phase::Head, Event::HeadTimedOut) => Some(
            fail(ErrorModel::Parse("downstream header read timed out"@)),
        ),
        (Phase::Head, Event::HeadEnded) => Some(go(Phase::Closed)),
        (Phase::Head, Event::HeadFailed(e)) => if e matches FastH1Error::Io(f) && f.kind
            == IoKind::UnexpectedEof {
            Some(go(Phase::Closed))
        } else {
            Some(fail(e.model()))
        },
        (Phase::Head, Event::Refused(e)) => Some(fail(e.model())),
        (Phase::Head, Event::NoRoute) => Some(
            decline(StaticReply::NoRoute, Note { tally: Tally::NoRoute, logged: None }),
        ),
        (Phase::Head, Event::Matched(x)) => if x.limited {
            Some(go(Phase::Admit(x)))
        } else {
            Some(admitted(x))
        },
        (Phase::Admit(x), Event::Verdict(true)) => Some(admitted(x)),
        (Phase::Admit(x), Event::Verdict(false)) => Some(limit()),
        (Phase::Connect(x), Event::Done) => Some(go(Phase::SendHead(x))),
        (Phase::SendHead(x), Event::Done) => Some(go(Phase::SendBody(x))),
        (Phase::SendBody(x), Event::Done) => Some(go(Phase::Flush(x))),
        (Phase::Flush(x), Event::Done) => Some(go(Phase::Relay(x))),
        (Phase::Connect(x), Event::Failed) => Some(
            upstream_failed(Phase::Reply { close: true, note: None }, Some(StaticReply::UpstreamFailed)),
        ),
        (Phase::SendHead(x), Event::Failed) => Some(
            upstream_failed(Phase::Reply { close: true, note: None }, Some(StaticReply::UpstreamFailed)),
        ),
        (Phase::SendBody(x), Event::Failed) => Some(
            upstream_failed(close_or_next(x.close), None),
        ),
        (Phase::Flush(x), Event::Failed) => Some(upstream_failed(close_or_next(x.close), None)),
        (Phase::Relay(x), Event::Failed) => Some(
            upstream_failed(
                Phase::Reply { close: x.close, note: None },
                Some(StaticReply::UpstreamFailed),
            ),
        ),
        (Phase::Relay(x), Event::Relayed(response)) => Some(
            MoveModel {
                health: health_for(response.status),
                tally: Some(Tally::Proxied),
                logged: Some(response.status),
                pool: stays_open(x, response),
                ..go(close_or_next(!stays_open(x, response)))
            },
        ),
        (Phase::Reply { close, note }, Event::Done) => Some(replied(close, note)),
        (Phase::Reply { .. }, Event::ReplyFailed(e)) => Some(fail(e.model())),
        _ => None,
    }
}

fn plain(next: Phase) -> (r: Move)
    ensures
        r.model() == go(next),
{
    Move {
        next,
        reply: None,
        health: Health::Unchanged,
        tally: None,
        logged: None,
        pool: false,
        error: None,
    }
}

fn failing(error: FastH1Error) -> (r: Move)
    ensures
        r.model() == fail(error.model()),
        r.error == Some(error),
{
    Move { error: Some(error), ..plain(Phase::Closed) }
}

fn declining(reply: StaticReply, note: Note) -> (r: Move)
    ensures
        r.model() == decline(reply, note),
{
    Move { reply: Some(reply), ..plain(Phase::Reply { close: true, note: Some(note) }) }
}

fn limiting() -> (r: Move)
    ensures
        r.model() == limit(),
{
    Move {
        reply: Some(StaticReply::RateLimited),
        tally: Some(Tally::RateLimited),
        logged: Some(429),
        ..plain(Phase::Reply { close: true, note: None })
    }
}

fn noting(close: bool, note: Option<Note>) -> (r: Move)
    ensures
        r.model() == replied(close, note),
{
    let next = closing_or_next(close);
    match note {
        Some(n) => Move { tally: Some(n.tally), logged: n.logged, ..plain(next) },
        None => plain(next),
    }
}

fn failing_upstream(next: Phase, reply: Option<StaticReply>) -> (r: Move)
    ensures
        r.model() == upstream_failed(next, reply),
{
    Move {
        reply,
        health: Health::Failure,
        tally: Some(Tally::UpstreamError),
        logged: Some(502),
        ..plain(next)
    }
}

fn admitting(x: Exchange) -> (r: Move)
    ensures
        r.model() == admitted(x),
{
    if x.protocol == UpstreamProtocol::H3 {
        declining(
            StaticReply::H3NotEnabled,
            Note { tally: Tally::H3NotEnabled, logged: Some(501) },
        )
    } else {
        plain(Phase::Connect(x))
    }
}

fn closing_or_next(close: bool) -> (r: Phase)
    ensures
        r == close_or_next(close),
{
    if close {
        Phase::Closed
    } else {
        Phase::Head
    }
}

/// The error that an event carries.
pub open spec fn carried(event: Event) -> Option<FastH1Error> {
    match event {
        Event::HeadFailed(e) => Some(e),
        Event::Refused(e) => Some(e),
        Event::ReplyFailed(e) => Some(e),
        _ => None,
    }
}

/// What to do after `event`; an event that cannot come in this phase leaves the phase as it is.
pub fn step(phase: Phase, event: Event) -> (r: Move)
    ensures
        r.model() == match move_for(phase, event) {
            Some(m) => m,
            None => go(phase),
        },
        r.error is Some && carried(event) is Some ==> r.error == carried(event),
{
    match (phase, event) {
        (Phase::Head, Event::HeadTimedOut) => failing(
            FastH1Error::Parse("downstream header read timed out"),
        ),
        (Phase::Head, Event::HeadEnded) => plain(Phase::Closed),
        (Phase::Head, Event::HeadFailed(e)) => {
            let eof = match &e {
                FastH1Error::Io(f) => f.kind == IoKind::UnexpectedEof,
                _ => false,
            };
            if eof {
                plain(Phase::Closed)
            } else {
                failing(e)
            }
        },
        (Phase::Head, Event::Refused(e)) => failing(e),
        (Phase::Head, Event::NoRoute) => declining(
            StaticReply::NoRoute,
            Note { tally: Tally::NoRoute, logged: None },
        ),
        (Phase::Head, Event::Matched(x)) => if x.limited {
            plain(Phase::Admit(x))
        } else {
            admitting(x)
        },
        (Phase::Admit(x), Event::Verdict(granted)) => if granted {
            admitting(x)
        } else {
            limiting()
        },
        (Phase::Connect(x), Event::Done) => plain(Phase::SendHead(x)),
        (Phase::SendHead(x), Event::Done) => plain(Phase::SendBody(x)),
        (Phase::SendBody(x), Event::Done) => plain(Phase::Flush(x)),
        (Phase::Flush(x), Event::Done) => plain(Phase::Relay(x)),
        (Phase::Connect(_), Event::Failed) => failing_upstream(
            Phase::Reply { close: true, note: None },
            Some(StaticReply::UpstreamFailed),
        ),
        (Phase::SendHead(_), Event::Failed) => failing_upstream(
            Phase::Reply { close: true, note: None },
            Some(StaticReply::UpstreamFailed),
        ),
        (Phase::SendBody(x), Event::Failed) => failing_upstream(closing_or_next(x.close), None),
        (Phase::Flush(x), Event::Failed) => failing_upstream(closing_or_next(x.close), None),
        (Phase::Relay(x), Event::Failed) => failing_upstream(
            Phase::Reply { close: x.close, note: None },
            Some(StaticReply::UpstreamFailed),
        ),
        (Phase::Relay(x), Event::Relayed(response)) => {
            let close = x.close || response.close_after_response || response.body
                == BodyKind::CloseDelimited;
            Move {
                health: health_of(response.status),
                tally: Some(Tally::Proxied),
                logged: Some(response.status),
                pool: !close,
                ..plain(closing_or_next(close))
            }
        },
        (Phase::Reply { close, note }, Event::Done) => noting(close, note),
        (Phase::Reply { .. }, Event::ReplyFailed(e)) => failing(e),
        (phase, _) => plain(phase),
    }
}

impl MatchedRequest {
    /// What the course of the exchange depends on.
    pub fn exchange(&self) -> (r: Exchange)
        ensures
            r.close == self.head.close_after_response,
            r.limited == self.limited,
            r.protocol == self.upstream.protocol,
    {
        Exchange {
            close: self.head.close_after_response,
            limited: self.limited,
            protocol: self.upstream.protocol,
        }
    }
}

/// Whether an upstream is involved.
pub open spec fn at_upstream(phase: Phase) -> bool {
    phase is Connect || phase is SendHead || phase is SendBody || phase is Flush || phase is Relay
}

/// An exchange that turned to an upstream notes that upstream's health once, when it turns
/// away from it; nothing else notes any health.
pub proof fn health_is_noted_once(phase: Phase, event: Event)
    requires
        move_for(phase, event).is_some(),
    ensures
        ({
            let m = move_for(phase, event)->0;
            m.health != Health::Unchanged <==> at_upstream(phase) && !at_upstream(m.next)
        }),
{
}

/// A request that the limiter refuses, or for which there is no route, never turns to an
/// upstream and is answered.
pub proof fn refused_requests_reach_no_upstream(phase: Phase)
    ensures
        phase is Admit ==> (move_for(phase, Event::Verdict(false)) matches Some(m) && m.next
            == (Phase::Reply { close: true, note: None }) && m.reply == Some(
            StaticReply::RateLimited,
        )),
        move_for(Phase::Head, Event::NoRoute) matches Some(m) && m.next is Reply && m.reply
            == Some(StaticReply::NoRoute),
{
}

/// What is left to note when a reply goes out is noted where the reply was sent, and not where
/// it could not be sent.
pub proof fn unsent_replies_are_not_noted(close: bool, note: Note, e: FastH1Error)
    ensures
        move_for(Phase::Reply { close, note: Some(note) }, Event::Done) matches Some(m) && m.tally
            == Some(note.tally) && m.logged == note.logged,
        move_for(Phase::Reply { close, note: Some(note) }, Event::ReplyFailed(e)) matches Some(m)
            && m.tally is None && m.logged is None && m.next == Phase::Closed,
        move_for(Phase::Head, Event::NoRoute) matches Some(m) && m.tally is None && m.logged is None,
{
}

/// A connection goes back to the pool only after a whole response that neither side wants to be
/// the last and that does not end with the connection; the next head is read then.
pub proof fn only_clean_connections_are_pooled(phase: Phase, event: Event)
    requires
        move_for(phase, event) matches Some(m) && m.pool,
    ensures
        phase matches Phase::Relay(x) && event matches Event::Relayed(response) && !x.close
            && !response.close_after_response && response.body != BodyKind::CloseDelimited
            && move_for(phase, event)->0.next == Phase::Head,
{
}

/// A limited request turns to its upstream only once the limiter let it pass.
pub proof fn limiter_comes_first(x: Exchange)
    requires
        x.limited,
    ensures
        move_for(Phase::Head, Event::Matched(x)) == Some(go(Phase::Admit(x))),
{
}

/// A response to `HEAD`, an interim response, and one with status 204 or 304 has no body,
/// whatever its header fields say.
pub proof fn bodiless_responses_have_no_body(
    code: u16,
    version: Option<u8>,
    hs: Seq<(Seq<char>, Seq<u8>)>,
    head_response: bool,
)
    requires
        head_response || interim(code) || code == 204 || code == 304,
    ensures
        response_plan(Some(Some((Some(code), version, hs))), head_response) matches Ok(h) && h.body
            == BodyKind::Empty && h.status == code,
{
}

/// Where the framing of a response is ambiguous the response is not passed on.
pub proof fn ambiguous_responses_are_refused(
    code: u16,
    version: Option<u8>,
    hs: Seq<(Seq<char>, Seq<u8>)>,
)
    requires
        !interim(code),
        code != 204,
        code != 304,
        framing(hs, false).is_err(),
    ensures
        response_plan(Some(Some((Some(code), version, hs))), false).is_err(),
{
}

// --------------------------------------------------- what responses and courses are

/// A response with a body, to a request other than `HEAD`, has exactly the body that its fields
/// state: all that comes until its connection ends where they state none, and then the
/// connection cannot be used again.
pub proof fn responses_without_framing_last_as_long_as_their_connection(
    code: u16,
    version: Option<u8>,
    hs: Seq<(Seq<char>, Seq<u8>)>,
)
    requires
        code < 100 || code >= 200,
        code != 204,
        code != 304,
        forall|j: int|
            0 <= j < hs.len() ==> !same_ignoring_case((#[trigger] hs[j]).0, "content-length"@)
                && !same_ignoring_case(hs[j].0, "transfer-encoding"@),
    ensures
        response_plan(Some(Some((Some(code), version, hs))), false) == Ok::<
            ResponseHead,
            Seq<char>,
        >(
            ResponseHead {
                status: code,
                close_after_response: true,
                body: BodyKind::CloseDelimited,
            },
        ),
{
    heads_without_framing_state_no_body(hs, false);
}

/// A response with a body, to a request other than `HEAD`, whose one framing field is a length
/// has a body of just that length, whatever its status.
pub proof fn responses_have_the_length_they_state(
    code: u16,
    version: Option<u8>,
    hs: Seq<(Seq<char>, Seq<u8>)>,
    i: int,
    n: usize,
)
    requires
        code < 100 || code >= 200,
        code != 204,
        code != 304,
        0 <= i < hs.len(),
        same_ignoring_case(hs[i].0, "content-length"@),
        hs[i].1 == encode_utf8(decimal(n as nat)),
        forall|j: int|
            0 <= j < hs.len() && j != i ==> !same_ignoring_case(
                (#[trigger] hs[j]).0,
                "content-length"@,
            ) && !same_ignoring_case(hs[j].0, "transfer-encoding"@),
    ensures
        response_plan(Some(Some((Some(code), version, hs))), false) == Ok::<
            ResponseHead,
            Seq<char>,
        >(
            ResponseHead {
                status: code,
                close_after_response: wants_close(version == Some(0u8), hs),
                body: BodyKind::ContentLength(n),
            },
        ),
{
    lengths_state_the_body(hs, i, n, false);
}

/// A response with a body, to a request other than `HEAD`, whose one framing field says
/// `chunked` has a chunked body, whatever its status.
pub proof fn responses_are_chunked_where_they_say_so(
    code: u16,
    version: Option<u8>,
    hs: Seq<(Seq<char>, Seq<u8>)>,
    i: int,
    coding: Seq<char>,
)
    requires
        code < 100 || code >= 200,
        code != 204,
        code != 304,
        0 <= i < hs.len(),
        same_ignoring_case(hs[i].0, "transfer-encoding"@),
        hs[i].1 == encode_utf8(coding),
        same_ignoring_case(coding, "chunked"@),
        forall|j: int|
            0 <= j < hs.len() && j != i ==> !same_ignoring_case(
                (#[trigger] hs[j]).0,
                "content-length"@,
            ) && !same_ignoring_case(hs[j].0, "transfer-encoding"@),
    ensures
        response_plan(Some(Some((Some(code), version, hs))), false) == Ok::<
            ResponseHead,
            Seq<char>,
        >(
            ResponseHead {
                status: code,
                close_after_response: wants_close(version == Some(0u8), hs),
                body: BodyKind::Chunked,
            },
        ),
{
    reveal_strlit("chunked");
    case_means_letters_only(coding, "chunked"@);
    assert forall|k: int| 0 <= k < coding.len() implies coding[k] != ',' && !is_space(coding[k]) by {
        assert(coding[k] == "chunked"@[k] || ('A' <= coding[k] <= 'Z' && "chunked"@[k] as u32
            == coding[k] as u32 + 32) || ('A' <= "chunked"@[k] <= 'Z' && coding[k] as u32
            == "chunked"@[k] as u32 + 32));
    }
    chunked_states_the_body(hs, i, coding, false);
}

/// An interim response never ends the connection, and a head that is no head is no response.
pub proof fn interim_and_unreadable_responses(
    code: u16,
    version: Option<u8>,
    hs: Seq<(Seq<char>, Seq<u8>)>,
    head_response: bool,
)
    requires
        100 <= code < 200,
    ensures
        interim(code),
        !interim(99),
        !interim(200),
        response_plan(Some(Some((Some(code), version, hs))), head_response) == Ok::<
            ResponseHead,
            Seq<char>,
        >(
            ResponseHead { status: code, close_after_response: false, body: BodyKind::Empty },
        ),
        response_plan(None, head_response).is_err(),
        response_plan(Some(None), head_response).is_err(),
        response_plan(Some(Some((None, version, hs))), head_response).is_err(),
{
}

/// A readable request whose route leads to an upstream is sent there with its own method and
/// target, and answered without a body just where its method is `HEAD`.
pub proof fn readable_requests_are_sent(
    t: RouteTable,
    method: Seq<char>,
    target: Seq<char>,
    version: Option<u8>,
    hs: Seq<(Seq<char>, Seq<u8>)>,
    i: int,
    u: usize,
)
    requires
        route_of(t, Some(Some((Some(method), Some(target), version, hs)))) == Some(i),
        t.pools@[t.routes@[i].pool as int].choice().0 == Some(u),
        forall|j: int|
            0 <= j < hs.len() ==> !same_ignoring_case((#[trigger] hs[j]).0, "content-length"@)
                && !same_ignoring_case(hs[j].0, "transfer-encoding"@)
                && !same_ignoring_case(hs[j].0, "connection"@),
    ensures
        request_plan(t, Some(Some((Some(method), Some(target), version, hs)))) == (
        RequestPlan::Send {
            route: i,
            at: UpstreamRef { pool: t.routes@[i].pool, index: u },
            method,
            target,
            head: RequestHead {
                head_response: same_ignoring_case(method, "HEAD"@),
                close_after_response: version == Some(0u8),
                body: BodyKind::Empty,
            },
            bytes: request_bytes(
                method,
                upstream_path(
                    t.pools@[t.routes@[i].pool as int].upstreams@[u as int].uri_base.base_path@,
                    target,
                ),
                t.pools@[t.routes@[i].pool as int].upstreams@[u as int].uri_base.authority@,
                hs,
                BodyKind::Empty,
            ),
        }),
{
    heads_without_framing_state_no_body(hs, true);
    connections_stay_open_by_version(version == Some(0u8), hs);
}

/// A request is refused where its framing is ambiguous, and goes nowhere where no route takes
/// it or no upstream is there; where it goes, it goes to the pool of its route.
pub proof fn requests_that_cannot_be_sent(
    t: RouteTable,
    method: Seq<char>,
    target: Seq<char>,
    version: Option<u8>,
    hs: Seq<(Seq<char>, Seq<u8>)>,
)
    ensures
        ({
            let head = Some(Some((Some(method), Some(target), version, hs)));
            let plan = request_plan(t, head);
            &&& route_of(t, head) is None <==> plan is NoRoute
            &&& route_of(t, head) matches Some(i) ==> {
                &&& t.pools@[t.routes@[i].pool as int].choice().0 is None <==> plan is NoUpstream
                &&& plan is Malformed ==> framing(hs, true).is_err()
                &&& framing(hs, true).is_err() ==> !(plan is Send)
                &&& plan matches RequestPlan::Send { route, at, .. } ==> route == i && at.pool
                    == t.routes@[i].pool
            }
        }),
        request_plan(t, None) is Malformed,
        request_plan(t, Some(None)) is Malformed,
{
}

/// A request that needs no verdict goes to its upstream step by step: connect, head, body,
/// flush, response.
pub proof fn exchanges_run_their_course(x: Exchange)
    requires
        x.protocol != UpstreamProtocol::H3,
    ensures
        ({
            let first = if x.limited {
                move_for(Phase::Admit(x), Event::Verdict(true))
            } else {
                move_for(Phase::Head, Event::Matched(x))
            };
            let connected = move_for(first->0.next, Event::Done);
            let sent = move_for(connected->0.next, Event::Done);
            let passed = move_for(sent->0.next, Event::Done);
            let flushed = move_for(passed->0.next, Event::Done);
            &&& first->0.next == Phase::Connect(x)
            &&& connected->0.next == Phase::SendHead(x)
            &&& sent->0.next == Phase::SendBody(x)
            &&& passed->0.next == Phase::Flush(x)
            &&& flushed->0.next == Phase::Relay(x)
        }),
{
}

/// A response is noted in these numbers: one below 500 as a success, any other as a failure; it
/// is counted and logged with its own status, and the connections stay open unless one side, or
/// the body, ends them.
pub proof fn responses_are_noted_by_status(x: Exchange, response: ResponseHead)
    ensures
        move_for(Phase::Relay(x), Event::Relayed(response)) matches Some(m) && {
            &&& response.status < 500 ==> m.health == Health::Success
            &&& response.status >= 500 ==> m.health == Health::Failure
            &&& m.logged == Some(response.status)
            &&& m.tally == Some(Tally::Proxied)
            &&& m.reply is None
            &&& m.error is None
            &&& x.close || response.close_after_response ==> m.next == Phase::Closed && !m.pool
            &&& !x.close && !response.close_after_response && response.body
                != BodyKind::CloseDelimited ==> m.next == Phase::Head && m.pool
        },
{
}

/// An upstream that fails is noted as failed and counted, and 502 is logged; the client is told
/// 502 unless part of its request was passed on and no response has begun.
pub proof fn failed_upstreams_are_noted(phase: Phase, x: Exchange)
    requires
        phase == Phase::Connect(x) || phase == Phase::SendHead(x) || phase == Phase::SendBody(x)
            || phase == Phase::Flush(x) || phase == Phase::Relay(x),
    ensures
        move_for(phase, Event::Failed) matches Some(m) && {
            &&& m.health == Health::Failure
            &&& m.tally == Some(Tally::UpstreamError)
            &&& m.logged == Some(502u16)
            &&& !m.pool
            &&& m.error is None
            &&& phase is SendBody || phase is Flush ==> m.reply is None && m.next == if x.close {
                Phase::Closed
            } else {
                Phase::Head
            }
            &&& phase is Connect || phase is SendHead || phase is Relay ==> (
            m.reply matches Some(reply) && reply.parts().0 == 502) && m.next is Reply
            &&& phase is Connect || phase is SendHead ==> (
            move_for(m.next, Event::Done) matches Some(n) && n.next == Phase::Closed)
            &&& phase is Relay ==> (move_for(m.next, Event::Done) matches Some(n) && n.next
                == if x.close {
                Phase::Closed
            } else {
                Phase::Head
            })
        },
{
}

/// What the client is told in these numbers: 404 without a route, 429 where the limiter refuses,
/// 501 for an HTTP/3 upstream. After each of these the connection ends.
pub proof fn declined_requests_are_told_why(x: Exchange)
    ensures
        move_for(Phase::Head, Event::NoRoute) matches Some(m) && (m.reply matches Some(r)
            && r.parts().0 == 404) && (move_for(m.next, Event::Done) matches Some(n) && n.next
            == Phase::Closed && n.tally == Some(Tally::NoRoute) && n.logged is None),
        move_for(Phase::Admit(x), Event::Verdict(false)) matches Some(m) && (
        m.reply matches Some(r) && r.parts().0 == 429) && m.tally == Some(Tally::RateLimited)
            && m.logged == Some(429u16) && (move_for(m.next, Event::Done) matches Some(n) && n.next
            == Phase::Closed && n.tally is None && n.logged is None),
        x.protocol == UpstreamProtocol::H3 && !x.limited ==> (
        move_for(Phase::Head, Event::Matched(x)) matches Some(m) && (m.reply matches Some(r)
            && r.parts().0 == 501) && (move_for(m.next, Event::Done) matches Some(n) && n.next
            == Phase::Closed && n.tally == Some(Tally::H3NotEnabled) && n.logged == Some(501u16))),
        x.protocol == UpstreamProtocol::H3 ==> move_for(Phase::Admit(x), Event::Verdict(true))
            == move_for(Phase::Head, Event::Matched((Exchange { limited: false, ..x }))),
{
}

/// A connection whose client goes away between requests ends without an error, also within a
/// head; any other failure is reported as it is.
pub proof fn clients_may_go_away(e: FastH1Error)
    ensures
        move_for(Phase::Head, Event::HeadEnded) matches Some(m) && m.next == Phase::Closed
            && m.error is None && m.reply is None,
        move_for(Phase::Head, Event::HeadFailed(e)) matches Some(m) && m.next == Phase::Closed
            && m.reply is None && (m.error is None <==> (e matches FastH1Error::Io(f) && f.kind
            == IoKind::UnexpectedEof)) && (m.error matches Some(why) ==> why == e.model()),
        move_for(Phase::Head, Event::Refused(e)) matches Some(m) && m.next == Phase::Closed
            && m.error == Some(e.model()) && m.reply is None,
        move_for(Phase::Head, Event::HeadTimedOut) matches Some(m) && m.next == Phase::Closed
            && m.error is Some && m.reply is None,
{
}

/// An exchange goes by the timeouts, the protocol and the authority of its upstream, and by
/// what its request asked for.
pub proof fn exchanges_follow_their_upstream(
    s: SelectedUpstream,
    t: RouteTable,
    at: UpstreamRef,
    m: MatchedRequest,
    x: Exchange,
)
    requires
        s.describes(t, at),
        call_ensures(MatchedRequest::exchange, (&m,), x),
    ensures
        s.at == at,
        s.id == t.at(at).id,
        s.authority@ == t.at(at).uri_base.authority@,
        s.protocol == t.at(at).config.protocol,
        s.connect_timeout.nanos == t.at(at).config.connect_timeout_ms * 1_000_000,
        s.request_timeout.nanos == t.at(at).config.request_timeout_ms * 1_000_000,
        x.close == m.head.close_after_response,
        x.limited == m.limited,
        x.protocol == m.upstream.protocol,
{
}

/// A request that is sent is what its plan says: its route, whether that is limited, its
/// upstream, and method and target where accesses are logged.
pub proof fn requests_follow_their_plan(
    m: MatchedRequest,
    t: RouteTable,
    logged: bool,
    plan: RequestPlan,
)
    requires
        m.follows(t, logged, plan),
    ensures
        plan matches RequestPlan::Send { route, at, method, target, head, .. } && {
            &&& m.route == route
            &&& m.head == head
            &&& m.limited <==> t.routes@[route].rate_limiter is Some
            &&& m.upstream.at == at
            &&& m.access_log is Some <==> logged
            &&& m.access_log matches Some((a, b)) ==> a@ == method && b@ == target
        },
{
}

/// Responses are read with room for 96 fields.
pub proof fn responses_are_read_with_room(
    raw: &[u8],
    head_response: bool,
    r: Result<ResponseHead, FastH1Error>,
)
    requires
        call_ensures(parse_response, (raw, head_response), r),
    ensures
        parsed_response(raw@, 96) is None ==> r is Err,
        parsed_response(raw@, 96) matches Some(None) ==> r is Err,
        MAX_HEADERS == 96,
{
}

/// A response that has been read and states no framing lasts as long as its connection; one
/// that states a length has it; one without a body by its status or its request has none.
pub proof fn responses_are_read_as_they_state(
    head: Parsed<ResponseFields>,
    head_response: bool,
    r: Result<ResponseHead, FastH1Error>,
    code: u16,
    version: Option<u8>,
    hs: Seq<(Seq<char>, Seq<u8>)>,
    i: int,
    n: usize,
)
    requires
        head matches Parsed::Complete(f) && f.model() == (Some(code), version, hs),
        call_ensures(response_from_head, (head, head_response), r),
        forall|j: int|
            0 <= j < hs.len() && j != i ==> !same_ignoring_case(
                (#[trigger] hs[j]).0,
                "content-length"@,
            ) && !same_ignoring_case(hs[j].0, "transfer-encoding"@),
        0 <= i < hs.len() ==> same_ignoring_case(hs[i].0, "content-length"@) && hs[i].1
            == encode_utf8(decimal(n as nat)),
    ensures
        r matches Ok(h) && {
            &&& h.status == code
            &&& head_response || 100 <= code < 200 || code == 204 || code == 304 ==> h.body
                == BodyKind::Empty
            &&& !head_response && !(100 <= code < 200) && code != 204 && code != 304 ==> h.body
                == if 0 <= i < hs.len() {
                BodyKind::ContentLength(n)
            } else {
                BodyKind::CloseDelimited
            }
            &&& h.body == BodyKind::CloseDelimited ==> h.close_after_response
        },
{
    if 100 <= code < 200 {
        interim_and_unreadable_responses(code, version, hs, head_response);
    } else if !head_response && code != 204 && code != 304 {
        if 0 <= i < hs.len() {
            responses_have_the_length_they_state(code, version, hs, i, n);
        } else {
            responses_without_framing_last_as_long_as_their_connection(code, version, hs);
        }
    } else {
        if 0 <= i < hs.len() {
            lengths_state_the_body(hs, i, n, false);
        } else {
            heads_without_framing_state_no_body(hs, false);
        }
    }
}

/// A head that cannot be read is an error.
pub proof fn unreadable_responses_are_errors(
    head: Parsed<ResponseFields>,
    head_response: bool,
    r: Result<ResponseHead, FastH1Error>,
)
    requires
        !(head is Complete),
        call_ensures(response_from_head, (head, head_response), r),
    ensures
        r matches Err(FastH1Error::Parse(_)),
{
}

/// The head of a response goes to the client as it came, and nothing of the buffer is lost.
pub proof fn response_heads_go_on_unchanged(
    buf: &mut Vec<u8>,
    header_end: usize,
    head_response: bool,
    r: Result<RelayedHead, FastH1Error>,
)
    requires
        header_end <= old(buf)@.len(),
        call_ensures(relay_response_head, (buf, header_end, head_response), r),
    ensures
        r matches Ok(relayed) ==> {
            &&& relayed.start.bytes@.len() >= header_end
            &&& relayed.start.bytes@.take(header_end as int) == old(buf)@.take(header_end as int)
            &&& relayed.start.bytes@ + final(buf)@ == old(buf)@
            &&& relayed.interim <==> 100 <= relayed.response.status < 200
        },
        r is Err ==> final(buf)@ == old(buf)@,
{
    if let Ok(relayed) = r {
        let n = old(buf)@.len() as int;
        let c = first_write(n, header_end as int, relayed.response.body);
        assert(header_end <= c <= n);
        assert(relayed.start.bytes@.take(header_end as int) =~= old(buf)@.take(header_end as int));
        assert(relayed.start.bytes@ + final(buf)@ =~= old(buf)@);
    }
}

/// A step of the engine is the move that its phase and its event call for, and an event that
/// calls for none changes nothing.
pub proof fn steps_follow_events(phase: Phase, event: Event, r: Move)
    requires
        call_ensures(step, (phase, event), r),
    ensures
        move_for(phase, event) matches Some(m) ==> r.model() == m,
        move_for(phase, event) is None ==> r.model().next == phase,
{
}

/// What is wrong with a message, in words.
pub proof fn faults_in_words(
    t: RouteTable,
    method: Seq<char>,
    target: Option<Seq<char>>,
    version: Option<u8>,
    hs: Seq<(Seq<char>, Seq<u8>)>,
    head_response: bool,
)
    ensures
        request_plan(t, None) == (RequestPlan::Malformed { why: "invalid request headers"@ }),
        request_plan(t, Some(None)) == (RequestPlan::Malformed {
            why: "incomplete request headers"@,
        }),
        request_plan(t, Some(Some((None, target, version, hs)))) == (RequestPlan::Malformed {
            why: "request method missing"@,
        }),
        request_plan(t, Some(Some((Some(method), None, version, hs)))) == (RequestPlan::Malformed {
            why: "request target missing"@,
        }),
        response_plan(None, head_response) == Err::<ResponseHead, Seq<char>>(
            "invalid response headers"@,
        ),
        response_plan(Some(None), head_response) == Err::<ResponseHead, Seq<char>>(
            "incomplete response headers"@,
        ),
        response_plan(Some(Some((None, version, hs))), head_response) == Err::<
            ResponseHead,
            Seq<char>,
        >("response status missing"@),
        move_for(Phase::Head, Event::HeadTimedOut) matches Some(m) && m.error == Some(
            ErrorModel::Parse("downstream header read timed out"@),
        ),
{
}

/// An upstream that closes before it answers has broken off the exchange.
pub proof fn silent_upstreams_in_words(e: FastH1Error)
    requires
        call_ensures(closed_before_response, (), e),
    ensures
        e matches FastH1Error::Parse(m) && m@ == "upstream closed before response"@,
{
}

/// A request is answered by the plan for its head: sent behind what is to go out already, told
/// that there is no route, or refused.
pub proof fn requests_are_built_by_plan(
    snapshot: &mut ConfigSnapshot,
    raw: &[u8],
    outbound: &mut Vec<u8>,
    r: Result<Option<MatchedRequest>, FastH1Error>,
)
    requires
        old(snapshot).routes.wf(),
        call_ensures(build_request, (snapshot, raw, outbound), r),
    ensures
        final(snapshot).config == old(snapshot).config,
        parsed_request(raw@, 96) is None ==> (r matches Err(FastH1Error::Parse(m)) && m@
            == "invalid request headers"@),
        parsed_request(raw@, 96) == Some(
            None::<(Option<Seq<char>>, Option<Seq<char>>, Option<u8>, Seq<(Seq<char>, Seq<u8>)>)>,
        ) ==> (r matches Err(FastH1Error::Parse(m)) && m@ == "incomplete request headers"@),
        r matches Err(FastH1Error::Upstream(m)) ==> m@ == "no available upstream"@,
        !(r matches Ok(Some(_))) ==> final(outbound)@ == old(outbound)@,
        r matches Ok(Some(_)) ==> final(outbound)@.len() > old(outbound)@.len() && final(
            outbound
        )@.take(old(outbound)@.len() as int) == old(outbound)@,
{
    if r matches Ok(Some(_)) {
        match request_plan(old(snapshot).routes, parsed_request(raw@, 96)) {
            RequestPlan::Send { bytes, .. } => {
                assert(final(outbound)@ == old(outbound)@ + bytes);
                assert(final(outbound)@.take(old(outbound)@.len() as int) =~= old(outbound)@);
                lemma_request_bytes_some(old(snapshot).routes, parsed_request(raw@, 96));
            },
            _ => {},
        }
    }
}

proof fn lemma_request_bytes_some(
    t: RouteTable,
    head: Option<
        Option<(Option<Seq<char>>, Option<Seq<char>>, Option<u8>, Seq<(Seq<char>, Seq<u8>)>)>,
    >,
)
    ensures
        request_plan(t, head) matches RequestPlan::Send { bytes, .. } ==> bytes.len() > 0,
{
    if let RequestPlan::Send { bytes, .. } = request_plan(t, head) {
        reveal_strlit("\r\n");
        vstd::utf8::is_ascii_chars_encode_utf8("\r\n"@);
    }
}

/// A request without a route asks no pool.
pub proof fn requests_without_a_route_ask_no_pool(
    snapshot: &mut ConfigSnapshot,
    raw: &[u8],
    outbound: &mut Vec<u8>,
    r: Result<Option<MatchedRequest>, FastH1Error>,
)
    requires
        old(snapshot).routes.wf(),
        route_of(old(snapshot).routes, parsed_request(raw@, 96)) is None,
        call_ensures(build_request, (snapshot, raw, outbound), r),
    ensures
        final(snapshot).routes == old(snapshot).routes,
        !(r matches Ok(Some(_))),
{
}

} // verus!
