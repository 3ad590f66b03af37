//! From a request head to the route it takes and the upstream that gets it.

use crate::config::routes::{
    chosen_route, configs, lookup_of, HostLookup, RouteTable, UpstreamRef,
};
use crate::config::upstream::UpstreamPool;
use crate::octets::{occurs_at, push_text, utf8_text};
use crate::proxy::head::{
    append_forward_headers, end_to_end_fields_survive, fields, first_value, forwarded,
    framing_line, header_value, is_listed, the_first_of_a_name_is_read, BodyKind, HeaderField,
};
use crate::text::{
    case_means_letters_only, is_space, same_ignoring_case, trim, trimmed,
    trimming_takes_off_padding,
};
use crate::uri::{host_key, parse_authority_host};
use vstd::prelude::*;
use vstd::string::*;
use vstd::utf8::{decode_utf8, encode_utf8, is_ascii_chars_encode_utf8, valid_utf8};

verus! {

/// The host that a head names: its first `Host` field, where that is text.
pub open spec fn host_text(hs: Seq<(Seq<char>, Seq<u8>)>) -> Option<Seq<char>> {
    match first_value(hs, "host"@) {
        Some(v) => if valid_utf8(v) {
            Some(trimmed(decode_utf8(v)))
        } else {
            None
        },
        None => None,
    }
}

/// What routing reads of a head's host: nothing where no route is for one host only.
pub open spec fn head_lookup(needed: bool, hs: Seq<(Seq<char>, Seq<u8>)>) -> (
    bool,
    Option<Seq<char>>,
) {
    if needed {
        lookup_of(host_text(hs))
    } else {
        (false, None)
    }
}

/// What routing reads of a head's host.
pub fn lookup_host(needed: bool, headers: &Vec<HeaderField>) -> (r: HostLookup)
    ensures
        r.model() == head_lookup(needed, fields(headers@)),
{
    if !needed {
        return HostLookup::Absent;
    }
    match header_value(headers, "host") {
        None => HostLookup::Absent,
        Some(value) => match utf8_text(value.as_slice()) {
            None => HostLookup::Absent,
            Some(text) => match parse_authority_host(trim(text.as_str())) {
                Some(key) => HostLookup::Key(key),
                None => HostLookup::Malformed,
            },
        },
    }
}

/// What became of choosing an upstream for a request.
pub enum Selected {
    /// No route takes it.
    NoRoute,
    /// The route's pool has no upstream.
    NoUpstream,
    /// The route at this position takes it, and this upstream gets it.
    Chosen { route: usize, at: UpstreamRef },
}

/// The table after the pool of route `i` was asked for an upstream.
pub open spec fn asked(t: RouteTable, after: RouteTable, i: int) -> bool {
    let p = t.routes@[i].pool as int;
    &&& after.pools@ == t.pools@.update(
        p,
        (UpstreamPool { cursor: t.pools@[p].choice().1, ..t.pools@[p] }),
    )
    &&& after.routes == t.routes
    &&& after.host_routes == t.host_routes
    &&& after.wildcard_routes == t.wildcard_routes
    &&& after.single_wildcard_root == t.single_wildcard_root
    &&& after.requires_host_match == t.requires_host_match
}

/// Chooses the route for a request and asks its pool for an upstream.
pub fn select_upstream(table: &mut RouteTable, host: &HostLookup, path: &str) -> (r: Selected)
    requires
        old(table).wf(),
    ensures
        final(table).wf(),
        match chosen_route(configs(old(table).routes@), host.model(), path@) {
            None => r is NoRoute && *final(table) == *old(table),
            Some(i) => {
                &&& 0 <= i < old(table).routes@.len()
                &&& asked(*old(table), *final(table), i)
                &&& match old(table).pools@[old(table).routes@[i].pool as int].choice().0 {
                    None => r is NoUpstream,
                    Some(u) => (r matches Selected::Chosen { route, at } && route == i && at == (
                    UpstreamRef { pool: old(table).routes@[i].pool, index: u })) && u < old(table).pools@[old(table).routes@[i].pool as int].upstreams@.len(),
                }
            },
        },
{
    let route: usize = match table.match_lookup(host, path) {
        None => {
            return Selected::NoRoute;
        },
        Some(m) => m.index,
    };
    let pool: usize = table.routes[route].pool;
    let ghost before = *table;
    let chosen = table.pool_mut(pool).select();
    proof {
        assert forall|k: int| 0 <= k < table.pools@.len() implies (#[trigger] table.pools@[k]).wf() by {
            assert(before.pools@[k].wf());
        }
    }
    match chosen {
        None => Selected::NoUpstream,
        Some(index) => Selected::Chosen { route, at: UpstreamRef { pool, index } },
    }
}

/// The head of a request as it goes to an upstream.
pub open spec fn request_bytes(
    method: Seq<char>,
    path: Seq<char>,
    authority: Seq<char>,
    hs: Seq<(Seq<char>, Seq<u8>)>,
    body: BodyKind,
) -> Seq<u8> {
    encode_utf8(method) + encode_utf8(" "@) + encode_utf8(path) + encode_utf8(
        " HTTP/1.1\r\nHost: "@,
    ) + encode_utf8(authority) + encode_utf8("\r\nConnection: keep-alive\r\n"@) + forwarded(
        hs,
        hs.len() as int,
    ) + framing_line(body) + encode_utf8("\r\n"@)
}

/// Appends the head of a request as it goes to an upstream.
pub fn write_request_head(
    out: &mut Vec<u8>,
    method: &str,
    path: &str,
    authority: &str,
    headers: &Vec<HeaderField>,
    body: BodyKind,
)
    ensures
        final(out)@ == old(out)@ + request_bytes(
            method@,
            path@,
            authority@,
            fields(headers@),
            body,
        ),
{
    let ghost before = out@;
    push_text(out, method);
    push_text(out, " ");
    push_text(out, path);
    push_text(out, " HTTP/1.1\r\nHost: ");
    push_text(out, authority);
    push_text(out, "\r\nConnection: keep-alive\r\n");
    append_forward_headers(out, headers, body);
    push_text(out, "\r\n");
    proof {
        assert(out@ =~= before + request_bytes(
            method@,
            path@,
            authority@,
            fields(headers@),
            body,
        ));
    }
}

/// A request goes to its upstream with its own method, the path there and the upstream as host,
/// on a connection that is kept open; what follows is what is passed on of its fields, the line
/// that states its body, and an empty line.
pub proof fn request_heads_are_whole(
    method: Seq<char>,
    path: Seq<char>,
    authority: Seq<char>,
    hs: Seq<(Seq<char>, Seq<u8>)>,
    body: BodyKind,
)
    ensures
        ({
            let line = encode_utf8(method) + seq![32u8] + encode_utf8(path) + seq![32u8]
                + encode_utf8("HTTP/1.1"@) + seq![13u8, 10u8];
            let host = encode_utf8("Host: "@) + encode_utf8(authority) + seq![13u8, 10u8];
            let keep = encode_utf8("Connection: keep-alive"@) + seq![13u8, 10u8];
            request_bytes(method, path, authority, hs, body) == line + host + keep + forwarded(
                hs,
                hs.len() as int,
            ) + framing_line(body) + seq![13u8, 10u8]
        }),
{
    reveal_strlit(" ");
    reveal_strlit(" HTTP/1.1\r\nHost: ");
    reveal_strlit("\r\nConnection: keep-alive\r\n");
    reveal_strlit("\r\n");
    reveal_strlit("HTTP/1.1");
    reveal_strlit("Host: ");
    reveal_strlit("Connection: keep-alive");
    is_ascii_chars_encode_utf8(" "@);
    is_ascii_chars_encode_utf8(" HTTP/1.1\r\nHost: "@);
    is_ascii_chars_encode_utf8("\r\nConnection: keep-alive\r\n"@);
    is_ascii_chars_encode_utf8("\r\n"@);
    is_ascii_chars_encode_utf8("HTTP/1.1"@);
    is_ascii_chars_encode_utf8("Host: "@);
    is_ascii_chars_encode_utf8("Connection: keep-alive"@);
    let crlf = seq![13u8, 10u8];
    let sp = seq![32u8];
    let version = encode_utf8("HTTP/1.1"@);
    let host = encode_utf8("Host: "@);
    let keep = encode_utf8("Connection: keep-alive"@);
    assert(encode_utf8(" "@) =~= sp);
    assert(encode_utf8("\r\n"@) =~= crlf);
    assert(encode_utf8(" HTTP/1.1\r\nHost: "@) =~= sp + version + crlf + host);
    assert(encode_utf8("\r\nConnection: keep-alive\r\n"@) =~= crlf + keep + crlf);
    let line = encode_utf8(method) + sp + encode_utf8(path) + sp + version + crlf;
    assert(request_bytes(method, path, authority, hs, body) =~= line + (host + encode_utf8(
        authority,
    ) + crlf) + (keep + crlf) + forwarded(hs, hs.len() as int) + framing_line(body) + crlf);
}

/// Every field that is for the other end stands in the head that goes to the upstream, as it
/// came.
pub proof fn end_to_end_fields_reach_the_upstream(
    method: Seq<char>,
    path: Seq<char>,
    authority: Seq<char>,
    hs: Seq<(Seq<char>, Seq<u8>)>,
    body: BodyKind,
    i: int,
)
    requires
        0 <= i < hs.len(),
        !is_listed(hs, hs[i].0),
        !same_ignoring_case(hs[i].0, "host"@),
        !same_ignoring_case(hs[i].0, "connection"@),
        !same_ignoring_case(hs[i].0, "proxy-connection"@),
        !same_ignoring_case(hs[i].0, "keep-alive"@),
        !same_ignoring_case(hs[i].0, "content-length"@),
        !same_ignoring_case(hs[i].0, "transfer-encoding"@),
        !same_ignoring_case(hs[i].0, "te"@),
        !same_ignoring_case(hs[i].0, "trailer"@),
        !same_ignoring_case(hs[i].0, "upgrade"@),
    ensures
        exists|at: int|
            occurs_at(
                request_bytes(method, path, authority, hs, body),
                encode_utf8(hs[i].0) + seq![58u8, 32u8] + hs[i].1 + seq![13u8, 10u8],
                at,
            ),
{
    let line = encode_utf8(hs[i].0) + seq![58u8, 32u8] + hs[i].1 + seq![13u8, 10u8];
    let kept = forwarded(hs, hs.len() as int);
    end_to_end_fields_survive(hs, i);
    let at = choose|at: int| occurs_at(kept, line, at);
    let before = encode_utf8(method) + encode_utf8(" "@) + encode_utf8(path) + encode_utf8(
        " HTTP/1.1\r\nHost: "@,
    ) + encode_utf8(authority) + encode_utf8("\r\nConnection: keep-alive\r\n"@);
    let all = request_bytes(method, path, authority, hs, body);
    assert(all =~= before + kept + (framing_line(body) + encode_utf8("\r\n"@)));
    let k = before.len() + at;
    assert(all.subrange(k, k + line.len()) =~= kept.subrange(at, at + line.len()));
    assert(occurs_at(all, line, k));
}

/// Routing reads the first `Host` field, without white space around it, and reads none where
/// no route is for one host only.
pub proof fn routing_reads_the_first_host(hs: Seq<(Seq<char>, Seq<u8>)>, i: int, host: Seq<char>)
    requires
        0 <= i < hs.len(),
        same_ignoring_case(hs[i].0, "host"@),
        hs[i].1 == encode_utf8(host),
        host.len() > 0,
        !is_space(host[0]),
        !is_space(host.last()),
        forall|j: int| 0 <= j < i ==> (#[trigger] hs[j]).0.len() != 4,
    ensures
        head_lookup(true, hs) == (true, host_key(host)),
        head_lookup(false, hs) == (false, None::<Seq<char>>),
{
    broadcast use vstd::utf8::group_utf8_lib;

    reveal_strlit("host");
    case_means_letters_only(hs[i].0, "host"@);
    the_first_of_a_name_is_read(hs, "host"@, i);
    trimming_takes_off_padding(Seq::empty(), host, Seq::empty());
    assert(Seq::<char>::empty() + host + Seq::<char>::empty() =~= host);
}

/// A request without a route asks no pool; any other asks the pool of its route and gets the
/// upstream whose turn it is.
pub proof fn requests_ask_the_pool_of_their_route(
    table: &mut RouteTable,
    host: HostLookup,
    path: &str,
    r: Selected,
)
    requires
        old(table).wf(),
        call_ensures(select_upstream, (table, &host, path), r),
    ensures
        chosen_route(configs(old(table).routes@), host.model(), path@) is None <==> r is NoRoute,
        r is NoRoute ==> *final(table) == *old(table),
        r matches Selected::Chosen { route, at } ==> Some(route as int) == chosen_route(
            configs(old(table).routes@),
            host.model(),
            path@,
        ) && at.pool == old(table).routes@[route as int].pool && Some(at.index) == old(
            table
        ).pools@[at.pool as int].choice().0,
{
}

/// To ask a pool for its next upstream turns its cursor on and changes nothing else of any pool or
/// route.
pub proof fn asking_turns_a_cursor(t: RouteTable, after: RouteTable, i: int, p: int)
    requires
        t.wf(),
        0 <= i < t.routes@.len(),
        asked(t, after, i),
        0 <= p < t.pools@.len(),
    ensures
        after.routes == t.routes,
        after.pools@.len() == t.pools@.len(),
        after.pools@[p].upstreams == t.pools@[p].upstreams,
        after.pools@[p].expanded == t.pools@[p].expanded,
        after.pools@[p].passive_failure_threshold == t.pools@[p].passive_failure_threshold,
        p != t.routes@[i].pool ==> after.pools@[p] == t.pools@[p],
        p == t.routes@[i].pool ==> after.pools@[p].cursor == t.pools@[p].choice().1,
{
}

} // verus!
