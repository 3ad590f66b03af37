//! What the HTTP/1.1 engines share: fixed replies, the start of a relayed response, and the
//! words in which the course of a connection is told.

use crate::config::types::UpstreamProtocol;
use crate::fault::IoFailure;
use crate::octets::{discard_buffer_prefix, prefix_of, push_text, rest_after};
use crate::proxy::body::{frame, start_body, start_of, CopyState};
use crate::proxy::head::BodyKind;
use crate::text::{byte_len, decimal, decimal_text};
use vstd::prelude::*;
use vstd::string::*;
use vstd::utf8::{encode_utf8, is_ascii_chars_encode_utf8};

verus! {

/// The replies that an engine gives on its own.
#[derive(Clone, Copy, Debug, PartialEq, Eq, Structural)]
pub enum StaticReply {
    NoRoute,
    RateLimited,
    H3NotEnabled,
    UpstreamFailed,
}

impl StaticReply {
    /// Status, reason and body.
    pub open spec fn parts(self) -> (u16, Seq<char>, Seq<char>) {
        match self {
            StaticReply::NoRoute => (404, "Not Found"@, "no matching route\n"@),
            StaticReply::RateLimited => (429, "Too Many Requests"@, "rate limit exceeded\n"@),
            StaticReply::H3NotEnabled => (
                501,
                "Not Implemented"@,
                "HTTP/3 upstream driver is configured but not enabled in this baseline\n"@,
            ),
            StaticReply::UpstreamFailed => (502, "Bad Gateway"@, "upstream request failed\n"@),
        }
    }

    /// The status of the reply.
    pub fn status(&self) -> (r: u16)
        ensures
            r == self.parts().0,
    {
        match self {
            StaticReply::NoRoute => 404,
            StaticReply::RateLimited => 429,
            StaticReply::H3NotEnabled => 501,
            StaticReply::UpstreamFailed => 502,
        }
    }

    /// The reason phrase of the reply.
    pub fn reason(&self) -> (r: &'static str)
        ensures
            r@ == self.parts().1,
    {
        match self {
            StaticReply::NoRoute => "Not Found",
            StaticReply::RateLimited => "Too Many Requests",
            StaticReply::H3NotEnabled => "Not Implemented",
            StaticReply::UpstreamFailed => "Bad Gateway",
        }
    }

    /// The body of the reply.
    pub fn body(&self) -> (r: &'static str)
        ensures
            r@ == self.parts().2,
    {
        match self {
            StaticReply::NoRoute => "no matching route\n",
            StaticReply::RateLimited => "rate limit exceeded\n",
            StaticReply::H3NotEnabled => "HTTP/3 upstream driver is configured but not enabled in this baseline\n",
            StaticReply::UpstreamFailed => "upstream request failed\n",
        }
    }

    /// The whole reply.
    pub fn bytes(&self) -> (r: Vec<u8>)
        ensures
            r@ == reply_bytes(self.parts().0, self.parts().1, self.parts().2),
    {
        static_response(self.status(), self.reason(), self.body())
    }
}

/// A plain-text response that closes the connection.
pub open spec fn reply_bytes(status: u16, reason: Seq<char>, body: Seq<char>) -> Seq<u8> {
    encode_utf8("HTTP/1.1 "@) + encode_utf8(decimal(status as nat)) + encode_utf8(" "@)
        + encode_utf8(reason) + encode_utf8(
        "\r\nContent-Type: text/plain; charset=utf-8\r\nContent-Length: "@,
    ) + encode_utf8(decimal(encode_utf8(body).len())) + encode_utf8(
        "\r\nConnection: close\r\n\r\n"@,
    ) + encode_utf8(body)
}

/// A plain-text response that closes the connection.
fn static_response(status: u16, reason: &str, body: &str) -> (r: Vec<u8>)
    ensures
        r@ == reply_bytes(status, reason@, body@),
{
    let mut out: Vec<u8> = Vec::new();
    let digits = decimal_text(status as u64);
    let length = decimal_text(byte_len(body) as u64);
    push_text(&mut out, "HTTP/1.1 ");
    push_text(&mut out, digits.as_str());
    push_text(&mut out, " ");
    push_text(&mut out, reason);
    push_text(&mut out, "\r\nContent-Type: text/plain; charset=utf-8\r\nContent-Length: ");
    push_text(&mut out, length.as_str());
    push_text(&mut out, "\r\nConnection: close\r\n\r\n");
    push_text(&mut out, body);
    proof {
        assert(out@ =~= reply_bytes(status, reason@, body@));
    }
    out
}

/// What an engine notes of an upstream's health.
#[derive(Clone, Copy, Debug, PartialEq, Eq, Structural)]
pub enum Health {
    Unchanged,
    Failure,
    Success,
}

/// How an exchange is counted.
#[derive(Clone, Copy, Debug, PartialEq, Eq, Structural)]
pub enum Tally {
    NoRoute,
    RateLimited,
    H3NotEnabled,
    UpstreamError,
    Proxied,
}

impl Tally {
    /// The result that an exchange is counted under.
    pub fn name(&self) -> (r: &'static str)
        ensures
            r@ == match *self {
                Tally::NoRoute => "no_route"@,
                Tally::RateLimited => "rate_limited"@,
                Tally::H3NotEnabled => "h3_not_enabled"@,
                Tally::UpstreamError => "upstream_error"@,
                Tally::Proxied => "proxied"@,
            },
    {
        match self {
            Tally::NoRoute => "no_route",
            Tally::RateLimited => "rate_limited",
            Tally::H3NotEnabled => "h3_not_enabled",
            Tally::UpstreamError => "upstream_error",
            Tally::Proxied => "proxied",
        }
    }
}

/// What the course of an exchange depends on.
#[derive(Clone, Copy, Debug, PartialEq, Eq, Structural)]
pub struct Exchange {
    /// The client wants the connection closed afterwards.
    pub close: bool,
    /// The route has a rate limiter.
    pub limited: bool,
    /// What the upstream speaks.
    pub protocol: UpstreamProtocol,
}

/// The health to note for a response with this status.
pub open spec fn health_for(status: u16) -> Health {
    if status >= 500 {
        Health::Failure
    } else {
        Health::Success
    }
}

/// The health to note for a response with this status.
pub fn health_of(status: u16) -> (r: Health)
    ensures
        r == health_for(status),
{
    if status >= 500 {
        Health::Failure
    } else {
        Health::Success
    }
}

/// What it means that the connection ended while a head was read: nothing between messages, a
/// failure within one.
pub fn head_at_eof(buf: &[u8]) -> (r: Option<IoFailure>)
    ensures
        r is None <==> buf@.len() == 0,
        r matches Some(e) ==> e.is_eof(),
{
    if buf.len() == 0 {
        None
    } else {
        Some(IoFailure::unexpected_eof())
    }
}

// --------------------------------------------------------- relaying a response

/// The bytes of a response that are sent at once, and where its body goes on.
pub struct RelayStart {
    pub bytes: Vec<u8>,
    pub state: CopyState,
}

/// How much of the bytes at hand goes out in the first write: the head, and with it what is
/// there of a body of known length.
pub open spec fn first_write(buffered: int, header_end: int, body: BodyKind) -> int {
    match body {
        BodyKind::ContentLength(n) => header_end + if buffered - header_end < n {
            buffered - header_end
        } else {
            n as int
        },
        _ => header_end,
    }
}

/// Where a body goes on after the first write.
pub open spec fn after_first_write(buffered: int, header_end: int, body: BodyKind) -> CopyState {
    match body {
        BodyKind::ContentLength(n) => CopyState::Exact {
            remaining: (n - (first_write(buffered, header_end, body) - header_end)) as u128,
        },
        _ => start_of(body),
    }
}

/// Takes the first write of a response from `buf`, which begins with its head.
pub fn begin_relay(buf: &mut Vec<u8>, header_end: usize, body: BodyKind) -> (r: RelayStart)
    requires
        header_end <= old(buf)@.len(),
    ensures
        r.bytes@ == old(buf)@.take(first_write(old(buf)@.len() as int, header_end as int, body)),
        final(buf)@ == old(buf)@.skip(first_write(old(buf)@.len() as int, header_end as int, body)),
        r.state == after_first_write(old(buf)@.len() as int, header_end as int, body),
{
    let ghost before = buf@;
    let buffered: usize = buf.len() - header_end;
    let (count, state) = match body {
        BodyKind::ContentLength(length) => {
            let sent: usize = if buffered < length {
                buffered
            } else {
                length
            };
            (header_end + sent, CopyState::Exact { remaining: (length - sent) as u128 })
        },
        _ => (header_end, start_body(body)),
    };
    let bytes = prefix_of(buf.as_slice(), count);
    discard_buffer_prefix(buf, count);
    proof {
        assert(rest_after(before, count as int) =~= before.skip(count as int));
    }
    RelayStart { bytes, state }
}

/// Sending part of the body along with the head changes no byte: what goes out is the head and
/// then the body, and the body goes on where it would have.
pub proof fn coalescing_changes_no_byte(
    buf: Seq<u8>,
    header_end: int,
    n: usize,
    more: Seq<u8>,
    max: Option<usize>,
)
    requires
        0 <= header_end <= buf.len(),
    ensures
        ({
            let body = BodyKind::ContentLength(n);
            let c = first_write(buf.len() as int, header_end, body);
            let direct = frame(start_of(body), buf.skip(header_end) + more, max);
            let split = frame(
                after_first_write(buf.len() as int, header_end, body),
                buf.skip(c) + more,
                max,
            );
            &&& header_end <= c <= buf.len()
            &&& buf.take(c) + (buf.skip(c) + more).take(split.taken()) == buf.take(header_end) + (
            buf.skip(header_end) + more).take(direct.taken())
            &&& split.after(c - header_end) == direct
        }),
{
    let body = BodyKind::ContentLength(n);
    let c = first_write(buf.len() as int, header_end, body);
    let k = c - header_end;
    let direct = frame(start_of(body), buf.skip(header_end) + more, max);
    let split = frame(
        after_first_write(buf.len() as int, header_end, body),
        buf.skip(c) + more,
        max,
    );
    assert(direct.taken() == split.taken() + k);
    assert(buf.take(c) + (buf.skip(c) + more).take(split.taken()) =~= buf.take(header_end) + (
    buf.skip(header_end) + more).take(direct.taken()));
}

/// What the engine says on its own, in numbers and words.
pub proof fn replies_say_what_happened()
    ensures
        StaticReply::NoRoute.parts() == (404u16, "Not Found"@, "no matching route\n"@),
        StaticReply::RateLimited.parts() == (
            429u16,
            "Too Many Requests"@,
            "rate limit exceeded\n"@,
        ),
        StaticReply::H3NotEnabled.parts() == (
            501u16,
            "Not Implemented"@,
            "HTTP/3 upstream driver is configured but not enabled in this baseline\n"@,
        ),
        StaticReply::UpstreamFailed.parts() == (
            502u16,
            "Bad Gateway"@,
            "upstream request failed\n"@,
        ),
{
}

/// A reply is a whole response: a status line, the length of its text in bytes, the word that
/// ends the connection, an empty line, and its text.
pub proof fn replies_are_whole_responses(status: u16, reason: Seq<char>, body: Seq<char>)
    ensures
        ({
            let head = encode_utf8("HTTP/1.1 "@) + encode_utf8(decimal(status as nat))
                + encode_utf8(" "@) + encode_utf8(reason) + seq![13u8, 10u8];
            let kind = encode_utf8("Content-Type: text/plain; charset=utf-8"@) + seq![13u8, 10u8];
            let length = encode_utf8("Content-Length: "@) + encode_utf8(
                decimal(encode_utf8(body).len()),
            ) + seq![13u8, 10u8];
            let last = encode_utf8("Connection: close"@) + seq![13u8, 10u8];
            reply_bytes(status, reason, body) == head + kind + length + last + seq![13u8, 10u8]
                + encode_utf8(body)
        }),
{
    reveal_strlit("\r\nContent-Type: text/plain; charset=utf-8\r\nContent-Length: ");
    reveal_strlit("\r\nConnection: close\r\n\r\n");
    reveal_strlit("Content-Type: text/plain; charset=utf-8");
    reveal_strlit("Content-Length: ");
    reveal_strlit("Connection: close");
    is_ascii_chars_encode_utf8(
        "\r\nContent-Type: text/plain; charset=utf-8\r\nContent-Length: "@,
    );
    is_ascii_chars_encode_utf8("\r\nConnection: close\r\n\r\n"@);
    is_ascii_chars_encode_utf8("Content-Type: text/plain; charset=utf-8"@);
    is_ascii_chars_encode_utf8("Content-Length: "@);
    is_ascii_chars_encode_utf8("Connection: close"@);
    let crlf = seq![13u8, 10u8];
    let kind = encode_utf8("Content-Type: text/plain; charset=utf-8"@);
    let length = encode_utf8("Content-Length: "@);
    let last = encode_utf8("Connection: close"@);
    assert(encode_utf8("\r\nContent-Type: text/plain; charset=utf-8\r\nContent-Length: "@)
        =~= crlf + kind + crlf + length);
    assert(encode_utf8("\r\nConnection: close\r\n\r\n"@) =~= crlf + last + crlf + crlf);
    let head = encode_utf8("HTTP/1.1 "@) + encode_utf8(decimal(status as nat)) + encode_utf8(" "@)
        + encode_utf8(reason);
    let digits = encode_utf8(decimal(encode_utf8(body).len()));
    assert(reply_bytes(status, reason, body) =~= (head + crlf) + (kind + crlf) + (length + digits
        + crlf) + (last + crlf) + crlf + encode_utf8(body));
}

/// A response below 500 is a success of its upstream, and any other a failure.
pub proof fn statuses_from_500_are_failures(status: u16)
    ensures
        status < 500 ==> health_for(status) == Health::Success,
        status >= 500 ==> health_for(status) == Health::Failure,
{
}

/// The first write holds the whole head, no byte of a body of unknown length, and never more of
/// a body than belongs to it.
pub proof fn first_writes_hold_the_head(buffered: int, header_end: int, body: BodyKind)
    requires
        0 <= header_end <= buffered,
    ensures
        header_end <= first_write(buffered, header_end, body) <= buffered,
        body matches BodyKind::ContentLength(n) ==> first_write(buffered, header_end, body)
            - header_end <= n && (buffered - header_end >= n ==> first_write(
            buffered,
            header_end,
            body,
        ) == header_end + n) && (buffered - header_end < n ==> first_write(
            buffered,
            header_end,
            body,
        ) == buffered),
        !(body is ContentLength) ==> first_write(buffered, header_end, body) == header_end
            && after_first_write(buffered, header_end, body) == start_of(body),
{
}

/// A connection that ends between messages ends well; within a head it does not.
pub proof fn heads_may_not_end_early(buf: &[u8], r: Option<IoFailure>)
    requires
        call_ensures(head_at_eof, (buf,), r),
    ensures
        buf@.len() == 0 ==> r is None,
        buf@.len() > 0 ==> (r matches Some(e) && e.kind == crate::fault::IoKind::UnexpectedEof),
{
}

/// How exchanges are counted, in words.
pub proof fn tallies_in_words(t: Tally, r: &'static str)
    requires
        call_ensures(Tally::name, (&t,), r),
    ensures
        t == Tally::NoRoute ==> r@ == "no_route"@,
        t == Tally::RateLimited ==> r@ == "rate_limited"@,
        t == Tally::H3NotEnabled ==> r@ == "h3_not_enabled"@,
        t == Tally::UpstreamError ==> r@ == "upstream_error"@,
        t == Tally::Proxied ==> r@ == "proxied"@,
{
}

/// A reply of the engine's own is a whole response with its status, its text and its length, on
/// a connection that closes.
pub proof fn own_replies_are_whole(reply: StaticReply, r: Vec<u8>)
    requires
        call_ensures(StaticReply::bytes, (&reply,), r),
    ensures
        ({
            let (status, reason, body) = reply.parts();
            r@ == encode_utf8("HTTP/1.1 "@) + encode_utf8(decimal(status as nat)) + encode_utf8(
                " "@,
            ) + encode_utf8(reason) + seq![13u8, 10u8] + (encode_utf8(
                "Content-Type: text/plain; charset=utf-8"@,
            ) + seq![13u8, 10u8]) + (encode_utf8("Content-Length: "@) + encode_utf8(
                decimal(encode_utf8(body).len()),
            ) + seq![13u8, 10u8]) + (encode_utf8("Connection: close"@) + seq![13u8, 10u8]) + seq![
                13u8,
                10u8,
            ] + encode_utf8(body)
        }),
{
    replies_are_whole_responses(reply.parts().0, reply.parts().1, reply.parts().2);
}

} // verus!
