//! HTTP/1.1 message heads: reading them, their framing, and what of them is passed on.

use crate::config::validate::{first_some, lemma_first_some_at, lemma_first_some_none};
use crate::octets::{
    ascii_contains, contains_ignoring_case, lower_bytes, occurs_at, push_bytes, push_text, utf8_text,
};
use crate::text::{
    case_means_letters_only, decimal, decimal_text, eq_ignore_case, is_space, lemma_pieces_head,
    lower, parse_number, parsed_number, pieces, same_ignoring_case, split_at_char, texts, trim,
    trimmed, trimming_takes_off_padding,
};
use crate::uri::opt_text;
use vstd::prelude::*;
use vstd::string::*;
use vstd::utf8::{decode_utf8, encode_utf8, is_ascii_chars_encode_utf8, valid_utf8};

verus! {

/// The most header fields that a message may have.
pub const MAX_HEADERS: usize = 96;

/// The most bytes that a request body may have.
pub const MAX_REQUEST_BODY_BYTES: usize = 67_108_864;

/// One header field.
pub struct HeaderField {
    pub name: String,
    pub value: Vec<u8>,
}

/// The names and values of header fields.
pub open spec fn fields(hs: Seq<HeaderField>) -> Seq<(Seq<char>, Seq<u8>)> {
    hs.map_values(|h: HeaderField| (h.name@, h.value@))
}

/// The head of a request.
pub struct RequestFields {
    pub method: Option<String>,
    pub path: Option<String>,
    pub version: Option<u8>,
    pub headers: Vec<HeaderField>,
}

/// The head of a response.
pub struct ResponseFields {
    pub code: Option<u16>,
    pub version: Option<u8>,
    pub headers: Vec<HeaderField>,
}

impl RequestFields {
    /// Method, target, version and header fields as plain values.
    pub open spec fn model(&self) -> (
        Option<Seq<char>>,
        Option<Seq<char>>,
        Option<u8>,
        Seq<(Seq<char>, Seq<u8>)>,
    ) {
        (opt_text(self.method), opt_text(self.path), self.version, fields(self.headers@))
    }
}

impl ResponseFields {
    /// Status, version and header fields as plain values.
    pub open spec fn model(&self) -> (Option<u16>, Option<u8>, Seq<(Seq<char>, Seq<u8>)>) {
        (self.code, self.version, fields(self.headers@))
    }
}

/// What came of reading a head.
pub enum Parsed<T> {
    /// It is malformed, or has too many fields.
    Invalid,
    /// It has no end.
    Partial,
    /// It was read.
    Complete(T),
}

/// What `httparse::Request::parse` makes of bytes with room for so many header fields: nothing
/// where it refuses them; nothing within where it wants more; else method, target, version and
/// fields.
pub uninterp spec fn parsed_request(raw: Seq<u8>, max_headers: nat) -> Option<
    Option<(Option<Seq<char>>, Option<Seq<char>>, Option<u8>, Seq<(Seq<char>, Seq<u8>)>)>,
>;

/// What `httparse::Response::parse` makes of bytes with room for so many header fields: nothing
/// where it refuses them; nothing within where it wants more; else status, version and fields.
pub uninterp spec fn parsed_response(raw: Seq<u8>, max_headers: nat) -> Option<
    Option<(Option<u16>, Option<u8>, Seq<(Seq<char>, Seq<u8>)>)>,
>;

/// The outcome of reading a request, as plain values.
pub open spec fn request_model(p: Parsed<RequestFields>) -> Option<
    Option<(Option<Seq<char>>, Option<Seq<char>>, Option<u8>, Seq<(Seq<char>, Seq<u8>)>)>,
> {
    match p {
        Parsed::Invalid => None,
        Parsed::Partial => Some(None),
        Parsed::Complete(f) => Some(Some(f.model())),
    }
}

/// The outcome of reading a response, as plain values.
pub open spec fn response_model(p: Parsed<ResponseFields>) -> Option<
    Option<(Option<u16>, Option<u8>, Seq<(Seq<char>, Seq<u8>)>)>,
> {
    match p {
        Parsed::Invalid => None,
        Parsed::Partial => Some(None),
        Parsed::Complete(f) => Some(Some(f.model())),
    }
}

/// Calls `httparse::Request::parse` with room for `max_headers` fields and copies out what it
/// found.
///
/// Claimed: the outcome depends on the bytes and on the room alone.
#[verifier::external_body]
pub(crate) fn parse_request_head(raw: &[u8], max_headers: usize) -> (r: Parsed<RequestFields>)
    requires
        max_headers <= MAX_HEADERS,
    ensures
        request_model(r) == parsed_request(raw@, max_headers as nat),
{
    let mut headers = vec![httparse::EMPTY_HEADER; max_headers];
    let mut parsed = httparse::Request::new(&mut headers);
    match parsed.parse(raw) {
        Err(_) => Parsed::Invalid,
        Ok(httparse::Status::Partial) => Parsed::Partial,
        Ok(httparse::Status::Complete(_)) => Parsed::Complete(RequestFields {
            method: parsed.method.map(|m| m.to_owned()),
            path: parsed.path.map(|p| p.to_owned()),
            version: parsed.version,
            headers: parsed.headers.iter().map(
                |h| HeaderField { name: h.name.to_owned(), value: h.value.to_vec() },
            ).collect(),
        }),
    }
}

/// Calls `httparse::Response::parse` with room for `max_headers` fields and copies out what it
/// found.
///
/// Claimed: the outcome depends on the bytes and on the room alone.
#[verifier::external_body]
pub(crate) fn parse_response_head(raw: &[u8], max_headers: usize) -> (r: Parsed<ResponseFields>)
    requires
        max_headers <= MAX_HEADERS,
    ensures
        response_model(r) == parsed_response(raw@, max_headers as nat),
{
    let mut headers = vec![httparse::EMPTY_HEADER; max_headers];
    let mut parsed = httparse::Response::new(&mut headers);
    match parsed.parse(raw) {
        Err(_) => Parsed::Invalid,
        Ok(httparse::Status::Partial) => Parsed::Partial,
        Ok(httparse::Status::Complete(_)) => Parsed::Complete(ResponseFields {
            code: parsed.code,
            version: parsed.version,
            headers: parsed.headers.iter().map(
                |h| HeaderField { name: h.name.to_owned(), value: h.value.to_vec() },
            ).collect(),
        }),
    }
}

// -------------------------------------------------------------- header fields

/// Whether a field has the given name, up to case.
pub open spec fn named(h: (Seq<char>, Seq<u8>), name: Seq<char>) -> bool {
    same_ignoring_case(h.0, name)
}

/// The value of the first field of the given name.
pub open spec fn first_value(hs: Seq<(Seq<char>, Seq<u8>)>, name: Seq<char>) -> Option<Seq<u8>>
    decreases hs.len(),
{
    if hs.len() == 0 {
        None
    } else if named(hs[0], name) {
        Some(hs[0].1)
    } else {
        first_value(hs.skip(1), name)
    }
}

/// The view of optional bytes.
pub open spec fn opt_bytes(v: Option<&Vec<u8>>) -> Option<Seq<u8>> {
    match v {
        Some(b) => Some(b@),
        None => None,
    }
}

/// The value of the first field of the given name.
pub fn header_value<'a>(headers: &'a Vec<HeaderField>, name: &str) -> (r: Option<&'a Vec<u8>>)
    ensures
        opt_bytes(r) == first_value(fields(headers@), name@),
{
    let ghost hs = fields(headers@);
    let mut i: usize = 0;
    proof {
        assert(hs.skip(0) =~= hs);
    }
    while i < headers.len()
        invariant
            i <= headers.len(),
            hs == fields(headers@),
            first_value(hs, name@) == first_value(hs.skip(i as int), name@),
        decreases headers.len() - i,
    {
        proof {
            assert(hs.skip(i as int)[0] == hs[i as int]);
            assert(hs.skip(i as int).skip(1) =~= hs.skip(i + 1));
        }
        if eq_ignore_case(headers[i].name.as_str(), name) {
            return Some(&headers[i].value);
        }
        i = i + 1;
    }
    None
}

/// Whether the first `Connection` field mentions the word.
pub open spec fn connection_mentions(hs: Seq<(Seq<char>, Seq<u8>)>, word: Seq<char>) -> bool {
    first_value(hs, "connection"@) matches Some(v) && contains_ignoring_case(v, encode_utf8(word))
}

/// Whether the sender of a head wants the connection closed: it says so, or it speaks HTTP/1.0
/// and does not ask to keep it.
pub open spec fn wants_close(http10: bool, hs: Seq<(Seq<char>, Seq<u8>)>) -> bool {
    connection_mentions(hs, "close"@) || (http10 && !connection_mentions(hs, "keep-alive"@))
}

/// Whether the first `Connection` field mentions the word.
pub fn connection_has(headers: &Vec<HeaderField>, word: &str) -> (r: bool)
    requires
        encode_utf8(word@).len() > 0,
    ensures
        r == connection_mentions(fields(headers@), word@),
{
    match header_value(headers, "connection") {
        Some(value) => ascii_contains(value.as_slice(), word.as_bytes()),
        None => false,
    }
}

/// Whether the sender of a head wants the connection closed.
pub fn request_wants_close(http10: bool, headers: &Vec<HeaderField>) -> (r: bool)
    ensures
        r == wants_close(http10, fields(headers@)),
{
    proof {
        reveal_strlit("close");
        reveal_strlit("keep-alive");
        vstd::utf8::is_ascii_chars_encode_utf8("close"@);
        vstd::utf8::is_ascii_chars_encode_utf8("keep-alive"@);
    }
    connection_has(headers, "close") || (http10 && !connection_has(headers, "keep-alive"))
}

// -------------------------------------------------------------------- framing

/// How the body of a message is delimited.
#[derive(Clone, Copy, Debug, PartialEq, Eq, Structural)]
pub enum BodyKind {
    Empty,
    ContentLength(usize),
    Chunked,
    CloseDelimited,
}

impl BodyKind {
    /// The framing, where none is stated up to the end of the connection.
    pub open spec fn or_close(self) -> BodyKind {
        if self == BodyKind::Empty {
            BodyKind::CloseDelimited
        } else {
            self
        }
    }

    /// The framing, where none is stated up to the end of the connection.
    pub fn or_close_delimited(self) -> (r: BodyKind)
        ensures
            r == self.or_close(),
    {
        if self == BodyKind::Empty {
            BodyKind::CloseDelimited
        } else {
            self
        }
    }
}

/// Whether some field before position `i` has the given name.
pub open spec fn named_before(hs: Seq<(Seq<char>, Seq<u8>)>, i: int, name: Seq<char>) -> bool {
    exists|j: int| 0 <= j < i && named(#[trigger] hs[j], name)
}

/// The complaint about a framing field that stands for the second time.
pub open spec fn repeated_framing(hs: Seq<(Seq<char>, Seq<u8>)>, i: int) -> Option<Seq<char>> {
    if named(hs[i], "transfer-encoding"@) {
        if named_before(hs, i, "transfer-encoding"@) {
            Some("duplicate transfer-encoding"@)
        } else {
            None
        }
    } else if named(hs[i], "content-length"@) && named_before(hs, i, "content-length"@) {
        Some("duplicate content-length"@)
    } else {
        None
    }
}

/// The complaint about the first framing field that stands for the second time.
pub open spec fn first_repeated(hs: Seq<(Seq<char>, Seq<u8>)>) -> Option<Seq<char>> {
    first_some(Seq::new(hs.len(), |i: int| repeated_framing(hs, i)))
}

/// Whether a transfer encoding is `chunked` and nothing else.
pub open spec fn only_chunked(value: Seq<char>) -> bool {
    let codings = pieces(value, ',');
    same_ignoring_case(trimmed(codings[0]), "chunked"@) && forall|k: int|
        1 <= k < codings.len() ==> trimmed(#[trigger] codings[k]).len() == 0
}

/// The number in a `Content-Length` value.
pub open spec fn length_in(value: Seq<u8>) -> Option<nat> {
    if valid_utf8(value) {
        parsed_number(trimmed(decode_utf8(value)), 10, usize::MAX as nat)
    } else {
        None
    }
}

/// The framing that a head states, or the complaint about it. With `limited`, a body longer
/// than the limit is refused.
pub open spec fn framing(hs: Seq<(Seq<char>, Seq<u8>)>, limited: bool) -> Result<
    BodyKind,
    Seq<char>,
> {
    let te = first_value(hs, "transfer-encoding"@);
    let cl = first_value(hs, "content-length"@);
    match first_repeated(hs) {
        Some(m) => Err(m),
        None => match (te, cl) {
            (Some(_), Some(_)) => Err("conflicting transfer-encoding and content-length"@),
            (Some(v), None) => if !valid_utf8(v) {
                Err("invalid transfer-encoding"@)
            } else if only_chunked(decode_utf8(v)) {
                Ok(BodyKind::Chunked)
            } else {
                Err("unsupported transfer-encoding"@)
            },
            (None, Some(v)) => match length_in(v) {
                None => Err("invalid content-length"@),
                Some(n) => if limited && n > MAX_REQUEST_BODY_BYTES {
                    Err("request body too large"@)
                } else {
                    Ok(BodyKind::ContentLength(n as usize))
                },
            },
            (None, None) => Ok(BodyKind::Empty),
        },
    }
}

/// The model of a result whose error is a fixed message.
pub open spec fn outcome<T>(r: Result<T, &'static str>) -> Result<T, Seq<char>> {
    match r {
        Ok(v) => Ok(v),
        Err(m) => Err(m@),
    }
}

/// Finds the first framing field that stands for the second time.
fn check_repeated(headers: &Vec<HeaderField>) -> (r: Option<&'static str>)
    ensures
        crate::uri::opt_str(r) == first_repeated(fields(headers@)),
{
    let ghost hs = fields(headers@);
    let ghost issues = Seq::new(hs.len(), |i: int| repeated_framing(hs, i));
    let mut te = false;
    let mut cl = false;
    let mut i: usize = 0;
    while i < headers.len()
        invariant
            i <= headers.len(),
            hs == fields(headers@),
            issues == Seq::new(hs.len(), |i: int| repeated_framing(hs, i)),
            te == named_before(hs, i as int, "transfer-encoding"@),
            cl ==> named_before(hs, i as int, "content-length"@),
            !cl ==> forall|j: int|
                0 <= j < i && named(#[trigger] hs[j], "content-length"@) ==> named(
                    hs[j],
                    "transfer-encoding"@,
                ),
            forall|k: int| 0 <= k < i ==> (#[trigger] issues[k]).is_none(),
        decreases headers.len() - i,
    {
        proof {
            assert(issues[i as int] == repeated_framing(hs, i as int));
            assert(hs[i as int].0 == headers@[i as int].name@);
            lemma_framing_names_differ(hs[i as int].0);
        }
        if eq_ignore_case(headers[i].name.as_str(), "transfer-encoding") {
            if te {
                proof {
                    lemma_first_some_at(issues, i as int);
                }
                return Some("duplicate transfer-encoding");
            }
            te = true;
        } else if eq_ignore_case(headers[i].name.as_str(), "content-length") {
            if cl {
                proof {
                    lemma_first_some_at(issues, i as int);
                }
                return Some("duplicate content-length");
            }
            proof {
                assert forall|j: int| 0 <= j < i implies !named(#[trigger] hs[j], "content-length"@) by {
                    lemma_framing_names_differ(hs[j].0);
                }
            }
            cl = true;
        }
        i = i + 1;
        proof {
            assert(named(hs[i - 1], "transfer-encoding"@) ==> named_before(
                hs,
                i as int,
                "transfer-encoding"@,
            ));
        }
    }
    proof {
        lemma_first_some_none(issues);
    }
    None
}

/// No name is both of the framing fields' names.
pub(crate) proof fn lemma_framing_names_differ(name: Seq<char>)
    ensures
        !(same_ignoring_case(name, "transfer-encoding"@) && same_ignoring_case(
            name,
            "content-length"@,
        )),
{
    reveal_strlit("transfer-encoding");
    reveal_strlit("content-length");
    assert(lower("transfer-encoding"@).len() != lower("content-length"@).len());
}

fn is_only_chunked(value: &str) -> (r: bool)
    ensures
        r == only_chunked(value@),
{
    let codings = split_at_char(value, ',');
    proof {
        assert(texts(codings@).len() == codings@.len());
        assert(pieces(value@, ',').len() > 0);
        assert(texts(codings@)[0] == codings@[0]@);
    }
    if !eq_ignore_case(trim(codings[0]), "chunked") {
        return false;
    }
    let mut k: usize = 1;
    while k < codings.len()
        invariant
            1 <= k <= codings.len(),
            texts(codings@) == pieces(value@, ','),
            forall|j: int| 1 <= j < k ==> trimmed(#[trigger] pieces(value@, ',')[j]).len() == 0,
        decreases codings.len() - k,
    {
        proof {
            assert(texts(codings@)[k as int] == codings@[k as int]@);
        }
        if !trim(codings[k]).is_empty() {
            return false;
        }
        k = k + 1;
    }
    true
}

/// The number in a `Content-Length` value.
pub fn content_length_value(value: &Vec<u8>) -> (r: Option<usize>)
    ensures
        (match r {
            Some(n) => Some(n as nat),
            None => None::<nat>,
        }) == length_in(value@),
{
    match utf8_text(value.as_slice()) {
        None => None,
        Some(text) => match parse_number(trim(text.as_str()), 10, usize::MAX as u64) {
            Some(n) => Some(n as usize),
            None => None,
        },
    }
}

/// The framing that a head states. With `enforce_limit`, a body longer than the limit is
/// refused.
pub fn body_kind(headers: &Vec<HeaderField>, enforce_limit: bool) -> (r: Result<
    BodyKind,
    &'static str,
>)
    ensures
        outcome(r) == framing(fields(headers@), enforce_limit),
{
    if let Some(m) = check_repeated(headers) {
        return Err(m);
    }
    let transfer_encoding = header_value(headers, "transfer-encoding");
    let content_length = header_value(headers, "content-length");
    if let Some(value) = transfer_encoding {
        if content_length.is_some() {
            return Err("conflicting transfer-encoding and content-length");
        }
        return match utf8_text(value.as_slice()) {
            None => Err("invalid transfer-encoding"),
            Some(text) => if is_only_chunked(text.as_str()) {
                Ok(BodyKind::Chunked)
            } else {
                Err("unsupported transfer-encoding")
            },
        };
    }
    if let Some(value) = content_length {
        return match content_length_value(value) {
            None => Err("invalid content-length"),
            Some(length) => if enforce_limit && length > MAX_REQUEST_BODY_BYTES {
                Err("request body too large")
            } else {
                Ok(BodyKind::ContentLength(length))
            },
        };
    }
    Ok(BodyKind::Empty)
}

// ------------------------------------------------------------------ forwarding

/// Whether a `Connection` field of the head lists the name.
pub open spec fn listed_in_connection(name: Seq<char>, hs: Seq<(Seq<char>, Seq<u8>)>) -> bool {
    exists|i: int| 0 <= i < hs.len() && #[trigger] field_lists(hs[i], name)
}

/// Whether the field is a readable `Connection` field that lists the name.
pub open spec fn field_lists(h: (Seq<char>, Seq<u8>), name: Seq<char>) -> bool {
    named(h, "connection"@) && valid_utf8(h.1) && exists|k: int|
        0 <= k < pieces(decode_utf8(h.1), ',').len() && same_ignoring_case(
            trimmed(#[trigger] pieces(decode_utf8(h.1), ',')[k]),
            name,
        )
}

/// The fields that concern one connection only, or that this side writes itself.
pub open spec fn is_hop_name(name: Seq<char>) -> bool {
    ||| same_ignoring_case(name, "host"@)
    ||| same_ignoring_case(name, "connection"@)
    ||| same_ignoring_case(name, "proxy-connection"@)
    ||| same_ignoring_case(name, "keep-alive"@)
    ||| same_ignoring_case(name, "content-length"@)
    ||| same_ignoring_case(name, "transfer-encoding"@)
    ||| same_ignoring_case(name, "te"@)
    ||| same_ignoring_case(name, "trailer"@)
    ||| same_ignoring_case(name, "upgrade"@)
}

/// Whether a field is not passed on.
pub open spec fn skipped(name: Seq<char>, hs: Seq<(Seq<char>, Seq<u8>)>) -> bool {
    is_hop_name(name) || listed_in_connection(name, hs)
}

/// The line of a field.
pub open spec fn field_line(h: (Seq<char>, Seq<u8>)) -> Seq<u8> {
    encode_utf8(h.0) + encode_utf8(": "@) + h.1 + encode_utf8("\r\n"@)
}

/// The lines of the first `n` fields that are passed on.
pub open spec fn forwarded(hs: Seq<(Seq<char>, Seq<u8>)>, n: int) -> Seq<u8>
    decreases n,
{
    if n <= 0 {
        Seq::empty()
    } else if skipped(hs[n - 1].0, hs) {
        forwarded(hs, n - 1)
    } else {
        forwarded(hs, n - 1) + field_line(hs[n - 1])
    }
}

/// The line that states the framing of a request that is passed on.
pub open spec fn framing_line(body: BodyKind) -> Seq<u8> {
    match body {
        BodyKind::ContentLength(n) => encode_utf8("Content-Length: "@) + encode_utf8(
            decimal(n as nat),
        ) + encode_utf8("\r\n"@),
        BodyKind::Chunked => encode_utf8("Transfer-Encoding: chunked\r\n"@),
        _ => Seq::empty(),
    }
}

fn field_lists_name(header: &HeaderField, name: &str) -> (r: bool)
    ensures
        r == field_lists((header.name@, header.value@), name@),
{
    if !eq_ignore_case(header.name.as_str(), "connection") {
        return false;
    }
    match utf8_text(header.value.as_slice()) {
        None => false,
        Some(text) => {
            let tokens = split_at_char(text.as_str(), ',');
            let mut k: usize = 0;
            while k < tokens.len()
                invariant
                    k <= tokens.len(),
                    texts(tokens@) == pieces(text@, ','),
                    text@ == decode_utf8(header.value@),
                    named((header.name@, header.value@), "connection"@),
                    valid_utf8(header.value@),
                    forall|j: int|
                        0 <= j < k ==> !same_ignoring_case(
                            trimmed(#[trigger] pieces(text@, ',')[j]),
                            name@,
                        ),
                decreases tokens.len() - k,
            {
                proof {
                    assert(texts(tokens@)[k as int] == tokens@[k as int]@);
                }
                if eq_ignore_case(trim(tokens[k]), name) {
                    proof {
                        assert(same_ignoring_case(
                            trimmed(pieces(decode_utf8(header.value@), ',')[k as int]),
                            name@,
                        ));
                    }
                    return true;
                }
                k = k + 1;
            }
            proof {
                assert(texts(tokens@).len() == tokens@.len());
            }
            false
        },
    }
}

/// Whether a field is not passed on.
pub fn should_skip_header(name: &str, headers: &Vec<HeaderField>) -> (r: bool)
    ensures
        r == skipped(name@, fields(headers@)),
{
    if eq_ignore_case(name, "host") || eq_ignore_case(name, "connection") || eq_ignore_case(
        name,
        "proxy-connection",
    ) || eq_ignore_case(name, "keep-alive") || eq_ignore_case(name, "content-length")
        || eq_ignore_case(name, "transfer-encoding") || eq_ignore_case(name, "te")
        || eq_ignore_case(name, "trailer") || eq_ignore_case(name, "upgrade") {
        return true;
    }
    let ghost hs = fields(headers@);
    let mut i: usize = 0;
    while i < headers.len()
        invariant
            i <= headers.len(),
            hs == fields(headers@),
            !is_hop_name(name@),
            forall|k: int| 0 <= k < i ==> !(#[trigger] field_lists(hs[k], name@)),
        decreases headers.len() - i,
    {
        proof {
            assert(hs[i as int] == (headers@[i as int].name@, headers@[i as int].value@));
        }
        if field_lists_name(&headers[i], name) {
            return true;
        }
        i = i + 1;
    }
    false
}

/// Appends the lines of the fields that are passed on, and then the line of the framing.
pub fn append_forward_headers(out: &mut Vec<u8>, headers: &Vec<HeaderField>, body: BodyKind)
    ensures
        final(out)@ == old(out)@ + forwarded(fields(headers@), headers@.len() as int)
            + framing_line(body),
{
    let ghost before = out@;
    let ghost hs = fields(headers@);
    let mut i: usize = 0;
    proof {
        assert(before + forwarded(hs, 0) =~= before);
    }
    while i < headers.len()
        invariant
            i <= headers.len(),
            hs == fields(headers@),
            out@ == before + forwarded(hs, i as int),
        decreases headers.len() - i,
    {
        proof {
            assert(hs[i as int] == (headers@[i as int].name@, headers@[i as int].value@));
        }
        if !should_skip_header(headers[i].name.as_str(), headers) {
            push_text(out, headers[i].name.as_str());
            push_text(out, ": ");
            push_bytes(out, headers[i].value.as_slice());
            push_text(out, "\r\n");
        }
        i = i + 1;
        proof {
            assert(out@ =~= before + forwarded(hs, i as int));
        }
    }
    match body {
        BodyKind::ContentLength(length) => {
            let digits = decimal_text(length as u64);
            push_text(out, "Content-Length: ");
            push_text(out, digits.as_str());
            push_text(out, "\r\n");
        },
        BodyKind::Chunked => {
            push_text(out, "Transfer-Encoding: chunked\r\n");
        },
        _ => {},
    }
    proof {
        assert(out@ =~= before + forwarded(hs, headers@.len() as int) + framing_line(body));
    }
}

// ----------------------------------------------------------------------- laws

proof fn lemma_first_value_some(hs: Seq<(Seq<char>, Seq<u8>)>, name: Seq<char>, i: int)
    requires
        0 <= i < hs.len(),
        named(hs[i], name),
    ensures
        first_value(hs, name).is_some(),
    decreases hs.len(),
{
    if !named(hs[0], name) {
        assert(hs.skip(1)[i - 1] == hs[i]);
        lemma_first_value_some(hs.skip(1), name, i - 1);
    }
}

/// A head that states its framing in more than one way is refused: two lengths, two transfer
/// encodings, or one of each, even where they agree.
pub proof fn ambiguous_framing_is_refused(
    hs: Seq<(Seq<char>, Seq<u8>)>,
    limited: bool,
    i: int,
    j: int,
)
    requires
        0 <= i < j < hs.len(),
        named(hs[i], "content-length"@) || named(hs[i], "transfer-encoding"@),
        named(hs[j], "content-length"@) || named(hs[j], "transfer-encoding"@),
    ensures
        framing(hs, limited).is_err(),
{
    lemma_framing_names_differ(hs[i].0);
    lemma_framing_names_differ(hs[j].0);
    let issues = Seq::new(hs.len(), |k: int| repeated_framing(hs, k));
    lemma_first_some_none(issues);
    assert(issues[j] == repeated_framing(hs, j));
    if named(hs[i], "content-length"@) {
        lemma_first_value_some(hs, "content-length"@, i);
    } else {
        lemma_first_value_some(hs, "transfer-encoding"@, i);
    }
    if named(hs[j], "content-length"@) {
        lemma_first_value_some(hs, "content-length"@, j);
    } else {
        lemma_first_value_some(hs, "transfer-encoding"@, j);
    }
}

/// Nothing of the fields that are for one connection only, and of those that a `Connection`
/// field lists, is passed on: no such field adds anything to what goes upstream.
pub proof fn hop_fields_are_not_forwarded(hs: Seq<(Seq<char>, Seq<u8>)>, i: int)
    requires
        0 <= i < hs.len(),
        skipped(hs[i].0, hs),
    ensures
        forwarded(hs, i + 1) == forwarded(hs, i),
{
}

/// The framing that a request states upstream is the framing it was read with: reading the
/// stated length gives the length back.
pub proof fn stated_length_reads_back(n: usize)
    ensures
        length_in(encode_utf8(decimal(n as nat))) == Some(n as nat),
{
    broadcast use vstd::utf8::group_utf8_lib;

    let d = decimal(n as nat);
    crate::text::numeral_reads_back(n as nat, 10, usize::MAX as nat);
    crate::text::lemma_numeral(n as nat, 10);
    assert(decode_utf8(encode_utf8(d)) == d);
    assert(!crate::text::is_space(d[0])) by {
        assert(crate::text::digit_value(d[0]) < 10);
    }
    assert(!crate::text::is_space(d.last())) by {
        assert(crate::text::digit_value(d[d.len() - 1]) < 10);
    }
    assert(trimmed(d) == d);
}

// ------------------------------------------------------------ what a head says

proof fn lemma_first_value_at(hs: Seq<(Seq<char>, Seq<u8>)>, name: Seq<char>, i: int)
    requires
        0 <= i < hs.len(),
        same_ignoring_case(hs[i].0, name),
        forall|j: int| 0 <= j < i ==> !same_ignoring_case((#[trigger] hs[j]).0, name),
    ensures
        first_value(hs, name) == Some(hs[i].1),
    decreases i,
{
    if i > 0 {
        assert(!same_ignoring_case(hs[0].0, name));
        let t = hs.skip(1);
        assert forall|j: int| 0 <= j < i - 1 implies !same_ignoring_case((#[trigger] t[j]).0, name) by {
            assert(t[j] == hs[j + 1]);
        }
        lemma_first_value_at(t, name, i - 1);
    }
}

proof fn lemma_first_value_none(hs: Seq<(Seq<char>, Seq<u8>)>, name: Seq<char>)
    requires
        forall|j: int| 0 <= j < hs.len() ==> !same_ignoring_case((#[trigger] hs[j]).0, name),
    ensures
        first_value(hs, name).is_none(),
    decreases hs.len(),
{
    if hs.len() > 0 {
        assert(!same_ignoring_case(hs[0].0, name));
        let t = hs.skip(1);
        assert forall|j: int| 0 <= j < t.len() implies !same_ignoring_case((#[trigger] t[j]).0, name) by {
            assert(t[j] == hs[j + 1]);
        }
        lemma_first_value_none(t, name);
    }
}

/// Of several fields with one name the first is read; the name is read in either case.
pub proof fn the_first_of_a_name_is_read(hs: Seq<(Seq<char>, Seq<u8>)>, name: Seq<char>, i: int)
    requires
        0 <= i < hs.len(),
        hs[i].0.len() == name.len(),
        forall|k: int|
            0 <= k < name.len() ==> (#[trigger] hs[i].0[k] == name[k] || ('A' <= hs[i].0[k] <= 'Z'
                && name[k] as u32 == hs[i].0[k] as u32 + 32) || ('A' <= name[k] <= 'Z'
                && hs[i].0[k] as u32 == name[k] as u32 + 32)),
        forall|j: int| 0 <= j < i ==> (#[trigger] hs[j]).0.len() != name.len(),
    ensures
        first_value(hs, name) == Some(hs[i].1),
{
    case_means_letters_only(hs[i].0, name);
    assert forall|j: int| 0 <= j < i implies !same_ignoring_case((#[trigger] hs[j]).0, name) by {
        case_means_letters_only(hs[j].0, name);
    }
    lemma_first_value_at(hs, name, i);
}

/// A field is for one connection only where a `Connection` field lists its name.
pub open spec fn is_listed(hs: Seq<(Seq<char>, Seq<u8>)>, name: Seq<char>) -> bool {
    exists|j: int, k: int|
        0 <= j < hs.len() && same_ignoring_case(hs[j].0, "connection"@) && valid_utf8(hs[j].1) && 0
            <= k < pieces(decode_utf8(hs[j].1), ',').len() && same_ignoring_case(
            trimmed(#[trigger] pieces(decode_utf8(hs[j].1), ',')[k]),
            name,
        )
}

/// A field that is for the other end is passed on as it is, name, colon, blank, value and line
/// end: every field whose name no `Connection` field lists and that is, up to case, none of
/// `host`, `connection`, `proxy-connection`, `keep-alive`, `content-length`,
/// `transfer-encoding`, `te`, `trailer` and `upgrade`.
pub proof fn end_to_end_fields_survive(hs: Seq<(Seq<char>, Seq<u8>)>, i: int)
    requires
        0 <= i < hs.len(),
        !is_listed(hs, hs[i].0),
        !same_ignoring_case(hs[i].0, "host"@),
        !same_ignoring_case(hs[i].0, "connection"@),
        !same_ignoring_case(hs[i].0, "proxy-connection"@),
        !same_ignoring_case(hs[i].0, "keep-alive"@),
        !same_ignoring_case(hs[i].0, "content-length"@),
        !same_ignoring_case(hs[i].0, "transfer-encoding"@),
        !same_ignoring_case(hs[i].0, "te"@),
        !same_ignoring_case(hs[i].0, "trailer"@),
        !same_ignoring_case(hs[i].0, "upgrade"@),
    ensures
        forwarded(hs, i + 1) == forwarded(hs, i) + (encode_utf8(hs[i].0) + seq![58u8, 32u8]
            + hs[i].1 + seq![13u8, 10u8]),
        exists|at: int|
            occurs_at(
                forwarded(hs, hs.len() as int),
                encode_utf8(hs[i].0) + seq![58u8, 32u8] + hs[i].1 + seq![13u8, 10u8],
                at,
            ),
{
    let name = hs[i].0;
    if listed_in_connection(name, hs) {
        let j = choose|j: int| 0 <= j < hs.len() && #[trigger] field_lists(hs[j], name);
        let k = choose|k: int|
            0 <= k < pieces(decode_utf8(hs[j].1), ',').len() && same_ignoring_case(
                trimmed(#[trigger] pieces(decode_utf8(hs[j].1), ',')[k]),
                name,
            );
        assert(is_listed(hs, name));
    }
    lemma_marks();
    let line = encode_utf8(name) + seq![58u8, 32u8] + hs[i].1 + seq![13u8, 10u8];
    assert(field_line(hs[i]) =~= line);
    let after = lemma_forwarded_grows(hs, i + 1, hs.len() as int);
    let all = forwarded(hs, hs.len() as int);
    let at = forwarded(hs, i).len() as int;
    assert(all =~= forwarded(hs, i) + line + after);
    assert(all.subrange(at, at + line.len()) =~= line);
    assert(occurs_at(all, line, at));
}

proof fn lemma_marks()
    ensures
        encode_utf8(": "@) == seq![58u8, 32u8],
        encode_utf8("\r\n"@) == seq![13u8, 10u8],
{
    reveal_strlit(": ");
    reveal_strlit("\r\n");
    is_ascii_chars_encode_utf8(": "@);
    is_ascii_chars_encode_utf8("\r\n"@);
    assert(encode_utf8(": "@) =~= seq![58u8, 32u8]);
    assert(encode_utf8("\r\n"@) =~= seq![13u8, 10u8]);
}

proof fn lemma_forwarded_grows(hs: Seq<(Seq<char>, Seq<u8>)>, n: int, m: int) -> (after: Seq<u8>)
    requires
        0 <= n <= m <= hs.len(),
    ensures
        forwarded(hs, m) == forwarded(hs, n) + after,
    decreases m - n,
{
    if n == m {
        assert(forwarded(hs, m) =~= forwarded(hs, n) + Seq::<u8>::empty());
        Seq::empty()
    } else {
        let rest = lemma_forwarded_grows(hs, n, m - 1);
        if skipped(hs[m - 1].0, hs) {
            rest
        } else {
            assert(forwarded(hs, m) =~= forwarded(hs, n) + (rest + field_line(hs[m - 1])));
            rest + field_line(hs[m - 1])
        }
    }
}

/// A field that is for one connection only is left out: one that a `Connection` field lists,
/// and one whose name is, up to case, any of the nine.
pub proof fn one_connection_fields_are_left_out(hs: Seq<(Seq<char>, Seq<u8>)>, i: int)
    requires
        0 <= i < hs.len(),
        is_listed(hs, hs[i].0) || same_ignoring_case(
            hs[i].0,
            "host"@,
        ) || same_ignoring_case(
            hs[i].0,
            "connection"@,
        ) || same_ignoring_case(
            hs[i].0,
            "proxy-connection"@,
        ) || same_ignoring_case(
            hs[i].0,
            "keep-alive"@,
        ) || same_ignoring_case(
            hs[i].0,
            "content-length"@,
        ) || same_ignoring_case(
            hs[i].0,
            "transfer-encoding"@,
        ) || same_ignoring_case(
            hs[i].0,
            "te"@,
        ) || same_ignoring_case(
            hs[i].0,
            "trailer"@,
        ) || same_ignoring_case(
            hs[i].0,
            "upgrade"@,
        ),
    ensures
        forwarded(hs, i + 1) == forwarded(hs, i),
{
    let name = hs[i].0;
    if is_listed(hs, name) {
        let (j, k) = choose|j: int, k: int|
            0 <= j < hs.len() && same_ignoring_case(hs[j].0, "connection"@) && valid_utf8(hs[j].1)
                && 0 <= k < pieces(decode_utf8(hs[j].1), ',').len() && same_ignoring_case(
                trimmed(#[trigger] pieces(decode_utf8(hs[j].1), ',')[k]),
                name,
            );
        assert(field_lists(hs[j], name));
    }
}

/// A head without framing fields states no body.
pub proof fn heads_without_framing_state_no_body(hs: Seq<(Seq<char>, Seq<u8>)>, limited: bool)
    requires
        forall|j: int|
            0 <= j < hs.len() ==> !same_ignoring_case((#[trigger] hs[j]).0, "content-length"@)
                && !same_ignoring_case(hs[j].0, "transfer-encoding"@),
    ensures
        framing(hs, limited) == Ok::<BodyKind, Seq<char>>(BodyKind::Empty),
{
    lemma_first_value_none(hs, "content-length"@);
    lemma_first_value_none(hs, "transfer-encoding"@);
    let issues = Seq::new(hs.len(), |i: int| repeated_framing(hs, i));
    lemma_first_some_none(issues);
    assert forall|j: int| 0 <= j < issues.len() implies (#[trigger] issues[j]).is_none() by {
        assert(!same_ignoring_case(hs[j].0, "content-length"@));
    }
}

proof fn lemma_one_framing_field(hs: Seq<(Seq<char>, Seq<u8>)>, i: int)
    requires
        0 <= i < hs.len(),
        forall|j: int|
            0 <= j < hs.len() && j != i ==> !same_ignoring_case(
                (#[trigger] hs[j]).0,
                "content-length"@,
            ) && !same_ignoring_case(hs[j].0, "transfer-encoding"@),
    ensures
        first_repeated(hs).is_none(),
{
    let issues = Seq::new(hs.len(), |k: int| repeated_framing(hs, k));
    lemma_first_some_none(issues);
    assert forall|j: int| 0 <= j < issues.len() implies (#[trigger] issues[j]).is_none() by {
        if j != i {
            assert(!same_ignoring_case(hs[j].0, "content-length"@));
        }
    }
}

/// A head whose one framing field is a length states a body of just that length; a request is
/// refused where that is above 64 MiB.
pub proof fn lengths_state_the_body(
    hs: Seq<(Seq<char>, Seq<u8>)>,
    i: int,
    n: usize,
    limited: bool,
)
    requires
        0 <= i < hs.len(),
        same_ignoring_case(hs[i].0, "content-length"@),
        hs[i].1 == encode_utf8(decimal(n as nat)),
        forall|j: int|
            0 <= j < hs.len() && j != i ==> !same_ignoring_case(
                (#[trigger] hs[j]).0,
                "content-length"@,
            ) && !same_ignoring_case(hs[j].0, "transfer-encoding"@),
    ensures
        framing(hs, limited) == if limited && n > 67108864 {
            Err::<BodyKind, Seq<char>>("request body too large"@)
        } else {
            Ok(BodyKind::ContentLength(n))
        },
{
    lemma_one_framing_field(hs, i);
    lemma_framing_names_differ(hs[i].0);
    lemma_first_value_at(hs, "content-length"@, i);
    lemma_first_value_none(hs, "transfer-encoding"@);
    stated_length_reads_back(n);
}

/// A head whose one framing field says `chunked`, in any case, states a chunked body; any other
/// coding is refused.
pub proof fn chunked_states_the_body(
    hs: Seq<(Seq<char>, Seq<u8>)>,
    i: int,
    coding: Seq<char>,
    limited: bool,
)
    requires
        0 <= i < hs.len(),
        same_ignoring_case(hs[i].0, "transfer-encoding"@),
        hs[i].1 == encode_utf8(coding),
        !coding.contains(','),
        coding.len() > 0,
        !is_space(coding[0]),
        !is_space(coding.last()),
        forall|j: int|
            0 <= j < hs.len() && j != i ==> !same_ignoring_case(
                (#[trigger] hs[j]).0,
                "content-length"@,
            ) && !same_ignoring_case(hs[j].0, "transfer-encoding"@),
    ensures
        framing(hs, limited) == if same_ignoring_case(coding, "chunked"@) {
            Ok::<BodyKind, Seq<char>>(BodyKind::Chunked)
        } else {
            Err("unsupported transfer-encoding"@)
        },
{
    broadcast use vstd::utf8::group_utf8_lib;

    lemma_one_framing_field(hs, i);
    lemma_framing_names_differ(hs[i].0);
    lemma_first_value_at(hs, "transfer-encoding"@, i);
    lemma_first_value_none(hs, "content-length"@);
    lemma_pieces_head(coding, ',', coding);
    trimming_takes_off_padding(Seq::empty(), coding, Seq::empty());
    assert(Seq::<char>::empty() + coding + Seq::<char>::empty() =~= coding);
}

/// A stated body is stated to the upstream in the same way: the line that goes out reads back
/// as the body that was read.
pub proof fn framing_lines_state_the_body(n: usize)
    ensures
        framing_line(BodyKind::Empty) == Seq::<u8>::empty(),
        framing_line(BodyKind::CloseDelimited) == Seq::<u8>::empty(),
        framing_line(BodyKind::ContentLength(n)) == field_line(
            ("Content-Length"@, encode_utf8(decimal(n as nat))),
        ),
        framing_line(BodyKind::Chunked) == field_line(
            ("Transfer-Encoding"@, encode_utf8("chunked"@)),
        ),
        framing(seq![("Content-Length"@, encode_utf8(decimal(n as nat)))], false) == Ok::<
            BodyKind,
            Seq<char>,
        >(BodyKind::ContentLength(n)),
        framing(seq![("Transfer-Encoding"@, encode_utf8("chunked"@))], false) == Ok::<
            BodyKind,
            Seq<char>,
        >(BodyKind::Chunked),
{
    lemma_marks();
    reveal_strlit("Content-Length: ");
    reveal_strlit("Content-Length");
    reveal_strlit("Transfer-Encoding: chunked\r\n");
    reveal_strlit("Transfer-Encoding");
    reveal_strlit("chunked");
    reveal_strlit("content-length");
    reveal_strlit("transfer-encoding");
    is_ascii_chars_encode_utf8("Content-Length: "@);
    is_ascii_chars_encode_utf8("Content-Length"@);
    is_ascii_chars_encode_utf8("Transfer-Encoding: chunked\r\n"@);
    is_ascii_chars_encode_utf8("Transfer-Encoding"@);
    is_ascii_chars_encode_utf8("chunked"@);
    assert(framing_line(BodyKind::ContentLength(n)) =~= field_line(
        ("Content-Length"@, encode_utf8(decimal(n as nat))),
    ));
    assert(framing_line(BodyKind::Chunked) =~= field_line(
        ("Transfer-Encoding"@, encode_utf8("chunked"@)),
    ));
    case_means_letters_only("Content-Length"@, "content-length"@);
    case_means_letters_only("Transfer-Encoding"@, "transfer-encoding"@);
    let a = seq![("Content-Length"@, encode_utf8(decimal(n as nat)))];
    lengths_state_the_body(a, 0, n, false);
    let b = seq![("Transfer-Encoding"@, encode_utf8("chunked"@))];
    chunked_states_the_body(b, 0, "chunked"@, false);
}

/// A connection stays open after a message of HTTP/1.1 that has no `Connection` field, and is
/// closed after one of HTTP/1.0.
pub proof fn connections_stay_open_by_version(http10: bool, hs: Seq<(Seq<char>, Seq<u8>)>)
    requires
        forall|j: int| 0 <= j < hs.len() ==> !same_ignoring_case((#[trigger] hs[j]).0, "connection"@),
    ensures
        wants_close(http10, hs) == http10,
{
    lemma_first_value_none(hs, "connection"@);
}

/// A connection is closed after a message whose first `Connection` field holds `close`, in any
/// case and at any place; and one that holds `keep-alive` and no `close` keeps it open.
pub proof fn connection_fields_decide(
    http10: bool,
    hs: Seq<(Seq<char>, Seq<u8>)>,
    i: int,
    at: int,
)
    requires
        0 <= i < hs.len(),
        same_ignoring_case(hs[i].0, "connection"@),
        forall|j: int| 0 <= j < i ==> !same_ignoring_case((#[trigger] hs[j]).0, "connection"@),
    ensures
        0 <= at && at + 5 <= hs[i].1.len() && lower_bytes(hs[i].1).subrange(at, at + 5) == seq![
            99u8,
            108u8,
            111u8,
            115u8,
            101u8,
        ] ==> wants_close(http10, hs),
        (forall|k: int|
            0 <= k && k + 5 <= hs[i].1.len() ==> #[trigger] lower_bytes(hs[i].1).subrange(k, k + 5)
                != seq![99u8, 108u8, 111u8, 115u8, 101u8]) && 0 <= at && at + 10 <= hs[i].1.len()
            && lower_bytes(hs[i].1).subrange(at, at + 10) == seq![
            107u8,
            101u8,
            101u8,
            112u8,
            45u8,
            97u8,
            108u8,
            105u8,
            118u8,
            101u8,
        ] ==> !wants_close(http10, hs),
{
    lemma_first_value_at(hs, "connection"@, i);
    reveal_strlit("close");
    reveal_strlit("keep-alive");
    is_ascii_chars_encode_utf8("close"@);
    is_ascii_chars_encode_utf8("keep-alive"@);
    let v = hs[i].1;
    let close = seq![99u8, 108u8, 111u8, 115u8, 101u8];
    let keep = seq![107u8, 101u8, 101u8, 112u8, 45u8, 97u8, 108u8, 105u8, 118u8, 101u8];
    assert(lower_bytes(encode_utf8("close"@)) =~= close);
    assert(lower_bytes(encode_utf8("keep-alive"@)) =~= keep);
    if 0 <= at && at + 5 <= v.len() && lower_bytes(v).subrange(at, at + 5) == close {
        assert(occurs_at(lower_bytes(v), close, at));
    }
    if 0 <= at && at + 10 <= v.len() && lower_bytes(v).subrange(at, at + 10) == keep {
        assert(occurs_at(lower_bytes(v), keep, at));
    }
    if forall|k: int|
        0 <= k && k + 5 <= v.len() ==> #[trigger] lower_bytes(v).subrange(k, k + 5) != close {
        if contains_ignoring_case(v, encode_utf8("close"@)) {
            let k = choose|k: int| occurs_at(lower_bytes(v), close, k);
            assert(lower_bytes(v).subrange(k, k + 5) == close);
        }
    }
}

/// A length is a decimal number, with white space around it at most.
pub proof fn lengths_hold_only_digits(value: Seq<u8>, i: int)
    requires
        length_in(value) is Some,
        0 <= i < trimmed(decode_utf8(value)).len(),
    ensures
        '0' <= trimmed(decode_utf8(value))[i] <= '9' || trimmed(decode_utf8(value))[i] == '+',
        valid_utf8(value),
{
    crate::text::numbers_hold_only_digits(
        trimmed(decode_utf8(value)),
        10,
        usize::MAX as nat,
        i,
    );
}

/// A list of codings states a chunked body just where `chunked` is its first and nothing but
/// white space follows.
pub proof fn chunked_stands_alone(first: Seq<char>, second: Seq<char>)
    requires
        !first.contains(','),
        !second.contains(','),
    ensures
        only_chunked(first + seq![','] + second) <==> same_ignoring_case(
            trimmed(first),
            "chunked"@,
        ) && trimmed(second).len() == 0,
        only_chunked(first) <==> same_ignoring_case(trimmed(first), "chunked"@),
{
    lemma_pieces_head(first, ',', second);
    lemma_pieces_head(second, ',', second);
    let p = pieces(first + seq![','] + second, ',');
    assert(p =~= seq![first, second]);
    if only_chunked(first + seq![','] + second) {
        assert(trimmed(p[1]).len() == 0);
    }
}

/// What is wrong with a framing, in words.
pub proof fn framing_faults_in_words(
    hs: Seq<(Seq<char>, Seq<u8>)>,
    a: (Seq<char>, Seq<u8>),
    b: (Seq<char>, Seq<u8>),
    limited: bool,
)
    requires
        same_ignoring_case(a.0, "content-length"@),
        same_ignoring_case(b.0, "transfer-encoding"@),
    ensures
        framing(seq![a, a], limited) == Err::<BodyKind, Seq<char>>("duplicate content-length"@),
        framing(seq![b, b], limited) == Err::<BodyKind, Seq<char>>("duplicate transfer-encoding"@),
        framing(seq![a, b], limited) == Err::<BodyKind, Seq<char>>(
            "conflicting transfer-encoding and content-length"@,
        ),
        length_in(a.1) is None ==> framing(seq![a], limited) == Err::<BodyKind, Seq<char>>(
            "invalid content-length"@,
        ),
        !valid_utf8(b.1) ==> framing(seq![b], limited) == Err::<BodyKind, Seq<char>>(
            "invalid transfer-encoding"@,
        ),
{
    lemma_framing_names_differ(a.0);
    lemma_framing_names_differ(b.0);
    let aa = seq![a, a];
    let bb = seq![b, b];
    let ab = seq![a, b];
    let ia = Seq::new(2, |i: int| repeated_framing(aa, i));
    let ib = Seq::new(2, |i: int| repeated_framing(bb, i));
    let iab = Seq::new(2, |i: int| repeated_framing(ab, i));
    assert(aa[0] == a && aa[1] == a && bb[0] == b && bb[1] == b && ab[0] == a && ab[1] == b);
    assert(named(aa[0], "content-length"@));
    assert(named(bb[0], "transfer-encoding"@));
    assert(named_before(aa, 1, "content-length"@));
    assert(named_before(bb, 1, "transfer-encoding"@));
    assert(!named_before(ab, 1, "transfer-encoding"@)) by {
        assert(!named(ab[0], "transfer-encoding"@));
    }
    lemma_first_some_at(ia, 1);
    lemma_first_some_at(ib, 1);
    lemma_first_some_none(iab);
    assert forall|j: int| 0 <= j < 2 implies (#[trigger] iab[j]).is_none() by {}
    lemma_first_value_at(ab, "content-length"@, 0);
    assert(!same_ignoring_case(ab[0].0, "transfer-encoding"@));
    lemma_first_value_at(ab, "transfer-encoding"@, 1);
    let one = seq![a];
    lemma_one_framing_field(one, 0);
    lemma_first_value_at(one, "content-length"@, 0);
    lemma_first_value_none(one, "transfer-encoding"@);
    let two = seq![b];
    lemma_one_framing_field(two, 0);
    lemma_first_value_at(two, "transfer-encoding"@, 0);
    lemma_first_value_none(two, "content-length"@);
}

/// A field is left out just where it speaks of one connection: it is one of nine, or the
/// `Connection` field lists it.
pub proof fn only_fields_of_one_connection_are_skipped(
    name: &str,
    headers: &Vec<HeaderField>,
    r: bool,
)
    requires
        call_ensures(should_skip_header, (name, headers), r),
    ensures
        r <==> is_listed(fields(headers@), name@) || same_ignoring_case(
            name@,
            "host"@,
        ) || same_ignoring_case(name@, "connection"@) || same_ignoring_case(
            name@,
            "proxy-connection"@,
        ) || same_ignoring_case(name@, "keep-alive"@) || same_ignoring_case(
            name@,
            "content-length"@,
        ) || same_ignoring_case(name@, "transfer-encoding"@) || same_ignoring_case(
            name@,
            "te"@,
        ) || same_ignoring_case(name@, "trailer"@) || same_ignoring_case(name@, "upgrade"@),
{
    let hs = fields(headers@);
    if is_listed(hs, name@) {
        let (j, k) = choose|j: int, k: int|
            0 <= j < hs.len() && same_ignoring_case(hs[j].0, "connection"@) && valid_utf8(hs[j].1)
                && 0 <= k < pieces(decode_utf8(hs[j].1), ',').len() && same_ignoring_case(
                trimmed(#[trigger] pieces(decode_utf8(hs[j].1), ',')[k]),
                name@,
            );
        assert(field_lists(hs[j], name@));
    }
}

} // verus!
