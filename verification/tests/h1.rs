use yxorp::addr::{IpAddr, SocketAddr};
use yxorp::config::{
    ConfigSnapshot, PoolMap, ProxyConfig, RateLimitConfig, RouteConfig, UpstreamConfig, UpstreamIds,
    UpstreamPoolConfig, UpstreamProtocol,
};
use yxorp::fault::{IoFailure, IoKind};
use yxorp::proxy::body::{
    forward_body, parse_chunk_size, passed_by, read_limit, scan_header_block, start_body,
    whole_at_eof, CopyState, CopyStatus, HeadScan,
};
use yxorp::proxy::zerocopy::{spliced, Splice};
use yxorp::proxy::exchange::{
    begin_relay, head_at_eof, Exchange, Health, StaticReply, Tally,
};
use yxorp::proxy::h1_fast::{
    build_from_head, build_request, closed_before_response, parse_response, relay_response_head,
    response_from_head, step, Event, FastH1Error, Note, Phase, ResponseHead,
};
use yxorp::proxy::h1_uring;
use yxorp::proxy::h1_uring::{ResponseBody, ResponseMeta};
use yxorp::proxy::head::{
    body_kind, header_value, request_wants_close, should_skip_header, BodyKind, HeaderField, Parsed,
    RequestFields, ResponseFields,
};
use yxorp::proxy::idle::{probe_verdict, Candidate, FastConnectionPool, UringConnectionPool};
use yxorp::time::{Duration, Instant};

fn config_for(url: &str) -> ProxyConfig {
    let mut pools = PoolMap::new();
    pools.insert(
        "web".to_string(),
        UpstreamPoolConfig {
            upstreams: vec![UpstreamConfig {
                name: "web".to_string(),
                url: url.to_string(),
                protocol: UpstreamProtocol::H1,
                weight: 1,
                ..UpstreamConfig::default()
            }],
            ..UpstreamPoolConfig::default()
        },
    );
    ProxyConfig {
        routes: vec![RouteConfig {
            name: "root".to_string(),
            upstream_pool: "web".to_string(),
            ..RouteConfig::default()
        }],
        upstream_pools: pools,
        ..ProxyConfig::default()
    }
}

fn snapshot(url: &str) -> ConfigSnapshot {
    ConfigSnapshot::new(config_for(url), &mut UpstreamIds::new()).unwrap()
}

#[test]
fn rejects_ambiguous_request_framing() {
    let mut snapshot = snapshot("http://127.0.0.1:9000");
    let mut outbound = Vec::new();
    let err = match build_request(
        &mut snapshot,
        b"POST / HTTP/1.1\r\nHost: example.test\r\nTransfer-Encoding: chunked\r\nContent-Length: 5\r\n\r\n",
        &mut outbound,
    ) {
        Ok(_) => panic!("ambiguous TE/CL request was accepted"),
        Err(err) => err,
    };
    assert!(matches!(err, FastH1Error::Parse(_)));

    outbound.clear();
    let err = match build_request(
        &mut snapshot,
        b"POST / HTTP/1.1\r\nHost: example.test\r\nContent-Length: 5\r\nContent-Length: 5\r\n\r\n",
        &mut outbound,
    ) {
        Ok(_) => panic!("duplicate Content-Length request was accepted"),
        Err(err) => err,
    };
    assert!(matches!(err, FastH1Error::Parse(_)));
}

#[test]
fn forwards_canonical_request_framing_and_hop_headers() {
    let mut snapshot = snapshot("http://127.0.0.1:9000");
    let mut outbound = Vec::new();
    build_request(
        &mut snapshot,
        b"POST / HTTP/1.1\r\nHost: example.test\r\nConnection: X-Remove\r\nX-Remove: bad\r\nContent-Length: 5\r\n\r\n",
        &mut outbound,
    )
    .unwrap()
    .unwrap();
    let raw = String::from_utf8(outbound).unwrap();
    assert!(raw.contains("\r\nContent-Length: 5\r\n"));
    assert!(!raw.contains("X-Remove: bad"));
    assert!(!raw.contains("Connection: X-Remove"));
}

fn uring_build(
    snapshot: &mut ConfigSnapshot,
    raw: &[u8],
) -> Result<Option<h1_uring::MatchedRequest>, h1_uring::UringError> {
    match h1_uring::start_request(snapshot, raw)? {
        None => Ok(None),
        Some(started) => {
            let addr = SocketAddr::new(IpAddr::v4(127, 0, 0, 1), 9000);
            h1_uring::build_request(snapshot, started, Ok(addr)).map(Some)
        }
    }
}

#[test]
fn rejects_duplicate_or_transfer_encoded_framing() {
    let mut snapshot = snapshot("http://127.0.0.1:9000");
    assert!(uring_build(
        &mut snapshot,
        b"POST / HTTP/1.1\r\nHost: example.test\r\nTransfer-Encoding: chunked\r\n\r\n",
    )
    .is_err());
    assert!(uring_build(
        &mut snapshot,
        b"POST / HTTP/1.1\r\nHost: example.test\r\nContent-Length: 5\r\nContent-Length: 5\r\n\r\n",
    )
    .is_err());
}

#[test]
fn forwards_canonical_content_length() {
    let mut snapshot = snapshot("http://127.0.0.1:9000");
    let request = uring_build(
        &mut snapshot,
        b"POST / HTTP/1.1\r\nHost: example.test\r\nConnection: X-Remove\r\nX-Remove: bad\r\nContent-Length: 5\r\n\r\n",
    )
    .unwrap()
    .unwrap();
    let raw = String::from_utf8(request.head.outbound).unwrap();
    assert!(raw.contains("\r\nContent-Length: 5\r\n"));
    assert!(!raw.contains("X-Remove: bad"));
    assert!(!raw.contains("Connection: X-Remove"));
}

#[test]
fn requests_go_upstream_in_canonical_form() {
    let mut snapshot = snapshot("http://127.0.0.1:9000/base");
    snapshot.config.telemetry.access_log = true;
    let mut outbound = b"kept:".to_vec();
    let request = build_request(
        &mut snapshot,
        b"HEAD /x?y=1 HTTP/1.0\r\nHost: example.test\r\nTE: trailers\r\nX-A: 1\r\nx-b:  two \r\nTransfer-Encoding: chunked\r\n\r\n",
        &mut outbound,
    )
    .unwrap()
    .unwrap();
    assert_eq!(
        String::from_utf8(outbound).unwrap(),
        "kept:HEAD /base/x?y=1 HTTP/1.1\r\nHost: 127.0.0.1:9000\r\nConnection: keep-alive\r\nX-A: 1\r\nx-b: two\r\nTransfer-Encoding: chunked\r\n\r\n"
    );
    assert!(request.head.head_response);
    assert!(request.head.close_after_response);
    assert_eq!(request.head.body, BodyKind::Chunked);
    assert_eq!(request.upstream.authority, "127.0.0.1:9000");
    assert_eq!(request.upstream.connect_timeout.as_millis(), 2_000);
    assert_eq!(request.upstream.request_timeout.as_millis(), 30_000);
    assert_eq!(request.access_log, Some(("HEAD".to_string(), "/x?y=1".to_string())));
    assert!(!request.limited);
}

fn complaint(raw: &[u8]) -> String {
    let mut out = Vec::new();
    let err = match build_request(&mut snapshot("http://127.0.0.1:9000"), raw, &mut out) {
        Ok(_) => panic!("accepted"),
        Err(e) => e,
    };
    assert!(out.is_empty());
    err.message()
}

#[test]
fn malformed_requests_are_named() {
    assert_eq!(complaint(b"GET / HTTP/1.1\r\nbad header\r\n\r\n"), "invalid request headers");
    assert_eq!(complaint(b"GET / HTTP/1.1\r\nHost: x\r\n"), "incomplete request headers");
    let field = |line: &str| format!("GET / HTTP/1.1\r\n{line}\r\n\r\n");
    assert_eq!(complaint(field("Content-Length: x").as_bytes()), "invalid content-length");
    assert_eq!(complaint(field("Content-Length: 67108865").as_bytes()), "request body too large");
    assert_eq!(complaint(field("Transfer-Encoding: gzip").as_bytes()), "unsupported transfer-encoding");
    assert_eq!(
        complaint(field("Transfer-Encoding: chunked\r\nTransfer-Encoding: chunked").as_bytes()),
        "duplicate transfer-encoding"
    );
    assert_eq!(
        complaint(field("Content-Length: 1\r\nContent-Length: 1").as_bytes()),
        "duplicate content-length"
    );
    assert_eq!(
        complaint(field("Content-Length: 1\r\nTransfer-Encoding: chunked").as_bytes()),
        "conflicting transfer-encoding and content-length"
    );
    let many: String = (0..97).map(|i| format!("x{i}: 1\r\n")).collect();
    assert_eq!(complaint(format!("GET / HTTP/1.1\r\n{many}\r\n").as_bytes()), "invalid request headers");
}

fn fields(list: &[(&str, &[u8])]) -> Vec<HeaderField> {
    list.iter()
        .map(|(n, v)| HeaderField { name: n.to_string(), value: v.to_vec() })
        .collect()
}

#[test]
fn requests_are_built_from_read_heads() {
    let mut snapshot = snapshot("http://127.0.0.1:9000");
    let mut out = Vec::new();
    let head = |method: Option<&str>, path: Option<&str>| {
        Parsed::Complete(RequestFields {
            method: method.map(str::to_string),
            path: path.map(str::to_string),
            version: Some(1),
            headers: fields(&[("Connection", b"Close")]),
        })
    };
    assert_eq!(
        build_from_head(&mut snapshot, head(None, Some("/")), &mut out).unwrap_err().message(),
        "request method missing"
    );
    assert_eq!(
        build_from_head(&mut snapshot, head(Some("GET"), None), &mut out).unwrap_err().message(),
        "request target missing"
    );
    let m = build_from_head(&mut snapshot, head(Some("GET"), Some("/a")), &mut out).unwrap().unwrap();
    assert!(m.head.close_after_response);
    assert_eq!(
        out,
        b"GET /a HTTP/1.1\r\nHost: 127.0.0.1:9000\r\nConnection: keep-alive\r\n\r\n"
    );
}

#[test]
fn requests_without_a_route_have_none() {
    let mut config = config_for("http://127.0.0.1:9000");
    config.routes[0].host = "example.com".to_string();
    let mut snapshot = ConfigSnapshot::new(config, &mut UpstreamIds::new()).unwrap();
    let mut out = Vec::new();
    let raw = b"GET / HTTP/1.1\r\nHost: other.com\r\n\r\n";
    assert!(build_request(&mut snapshot, raw, &mut out).unwrap().is_none());
    let raw = b"GET / HTTP/1.1\r\nhost:  EXAMPLE.com:80 \r\n\r\n";
    assert!(build_request(&mut snapshot, raw, &mut out).unwrap().is_some());
    let raw = b"GET / HTTP/1.1\r\nHost: \xff\r\n\r\n";
    assert!(build_request(&mut snapshot, raw, &mut out).unwrap().is_none());
}

#[test]
fn framing_is_read_from_fields() {
    assert_eq!(body_kind(&fields(&[]), true), Ok(BodyKind::Empty));
    assert_eq!(
        body_kind(&fields(&[("content-LENGTH", b" 12 ")]), true),
        Ok(BodyKind::ContentLength(12))
    );
    assert_eq!(
        body_kind(&fields(&[("Content-Length", b"67108865")]), false),
        Ok(BodyKind::ContentLength(67_108_865))
    );
    assert_eq!(
        body_kind(&fields(&[("Transfer-Encoding", b" Chunked , ,")]), true),
        Ok(BodyKind::Chunked)
    );
    assert_eq!(
        body_kind(&fields(&[("Transfer-Encoding", b"gzip, chunked")]), true),
        Err("unsupported transfer-encoding")
    );
    assert_eq!(
        body_kind(&fields(&[("Transfer-Encoding", b"\xff")]), true),
        Err("invalid transfer-encoding")
    );
    assert_eq!(
        body_kind(&fields(&[("Content-Length", b"\xff")]), true),
        Err("invalid content-length")
    );
}

#[test]
fn hop_headers_are_skipped() {
    let hs = fields(&[("connection", b"a, B ,c"), ("connection", b"\xff, d")]);
    for name in ["Host", "CONNECTION", "proxy-connection", "Keep-Alive", "content-length",
        "transfer-encoding", "TE", "trailer", "Upgrade", "A", "b", "C"] {
        assert!(should_skip_header(name, &hs), "{name}");
    }
    for name in ["d", "accept", "hosts"] {
        assert!(!should_skip_header(name, &hs), "{name}");
    }
    assert_eq!(header_value(&hs, "Connection").unwrap(), b"a, B ,c");
    assert!(header_value(&hs, "x").is_none());
    assert!(request_wants_close(false, &fields(&[("Connection", b"close")])));
    assert!(!request_wants_close(false, &fields(&[])));
    assert!(request_wants_close(true, &fields(&[])));
    assert!(!request_wants_close(true, &fields(&[("Connection", b"Keep-Alive")])));
}

fn response(raw: &[u8], head: bool) -> Result<ResponseHead, String> {
    parse_response(raw, head).map_err(|e| e.message())
}

#[test]
fn responses_are_read() {
    let ok = |status, close, body| Ok(ResponseHead { status, close_after_response: close, body });
    assert_eq!(
        response(b"HTTP/1.1 200 OK\r\nContent-Length: 5\r\n\r\n", false),
        ok(200, false, BodyKind::ContentLength(5))
    );
    assert_eq!(response(b"HTTP/1.1 200 OK\r\n\r\n", false), ok(200, true, BodyKind::CloseDelimited));
    assert_eq!(response(b"HTTP/1.0 204 No\r\n\r\n", false), ok(204, true, BodyKind::Empty));
    assert_eq!(response(b"HTTP/1.0 100 Continue\r\n\r\n", false), ok(100, false, BodyKind::Empty));
    assert_eq!(
        response(b"HTTP/1.1 200 OK\r\nContent-Length: 5\r\n\r\n", true),
        ok(200, false, BodyKind::Empty)
    );
    assert_eq!(
        response(b"HTTP/1.1 304 x\r\nContent-Length: 5\r\n\r\n", false),
        ok(304, false, BodyKind::Empty)
    );
    assert_eq!(response(b"nonsense\r\n\r\n", false), Err("invalid response headers".to_string()));
    assert_eq!(response(b"HTTP/1.1 200", false), Err("incomplete response headers".to_string()));
    assert_eq!(
        response(b"HTTP/1.1 200 OK\r\nContent-Length: 5\r\nTransfer-Encoding: chunked\r\n\r\n", false),
        Err("conflicting transfer-encoding and content-length".to_string())
    );
    let missing = Parsed::Complete(ResponseFields { code: None, version: Some(1), headers: vec![] });
    assert_eq!(response_from_head(missing, false).unwrap_err().message(), "response status missing");
}

#[test]
fn uring_responses_are_read() {
    let read = |raw: &[u8]| h1_uring::parse_response(raw, false).map_err(|e| e.message());
    assert_eq!(
        read(b"HTTP/1.1 200 OK\r\nContent-Length: 5\r\n\r\n"),
        Ok(ResponseMeta {
            status: 200,
            body: ResponseBody::ContentLength(5),
            close_after_response: false
        })
    );
    assert_eq!(
        read(b"HTTP/1.1 200 OK\r\n\r\n"),
        Ok(ResponseMeta {
            status: 200,
            body: ResponseBody::CloseDelimited,
            close_after_response: true
        })
    );
    assert_eq!(
        read(b"HTTP/1.1 200 OK\r\nContent-Length: x\r\nContent-Length: 5\r\n\r\n"),
        Err("invalid content-length".to_string())
    );
    assert_eq!(
        read(b"HTTP/1.1 200 OK\r\nContent-Length: 5\r\nContent-Length: x\r\n\r\n"),
        Err("duplicate content-length".to_string())
    );
    assert_eq!(
        read(b"HTTP/1.1 200 OK\r\nContent-Length: x\r\nTransfer-Encoding: chunked\r\n\r\n"),
        Err("transfer-encoding is not supported by io_uring engine yet".to_string())
    );
    let nameless = Parsed::Complete(ResponseFields { code: None, version: Some(1), headers: vec![] });
    assert_eq!(h1_uring::response_from_head(nameless, false).unwrap().status, 0);
    let invalid: Parsed<ResponseFields> = Parsed::Invalid;
    assert_eq!(
        h1_uring::response_from_head(invalid, false).unwrap_err().message(),
        "invalid response headers"
    );
}

#[test]
fn uring_requests_find_their_address() {
    let mut snapshot = snapshot("http://127.0.0.1:9000");
    let raw = b"POST / HTTP/1.1\r\nContent-Length: 0\r\n\r\n";
    let started = h1_uring::start_request(&mut snapshot, raw).unwrap().unwrap();
    assert_eq!(started.known_addr, None);
    assert_eq!(started.authority, "127.0.0.1:9000");
    let failure = IoFailure { kind: IoKind::Other, message: "no such host".to_string() };
    let err = h1_uring::build_request(&mut snapshot, started, Err(failure)).unwrap_err();
    assert_eq!(err.message(), "no such host");

    let addr = SocketAddr::new(IpAddr::v4(127, 0, 0, 1), 9000);
    let started = h1_uring::start_request(&mut snapshot, raw).unwrap().unwrap();
    let request = h1_uring::build_request(&mut snapshot, started, Ok(addr)).unwrap();
    assert_eq!(request.connect_addr, addr);
    assert_eq!(request.head.body_len, 0);
    assert_eq!(
        request.head.outbound,
        b"POST / HTTP/1.1\r\nHost: 127.0.0.1:9000\r\nConnection: keep-alive\r\n\r\n"
    );
    let started = h1_uring::start_request(&mut snapshot, raw).unwrap().unwrap();
    assert_eq!(started.known_addr, Some(addr));
    let failure = IoFailure { kind: IoKind::Other, message: "no such host".to_string() };
    assert!(h1_uring::build_request(&mut snapshot, started, Err(failure)).is_ok());
}

#[test]
fn heads_end_with_an_empty_line() {
    assert_eq!(scan_header_block(b"GET / HTTP/1.1\r\n\r\nrest"), HeadScan::Complete(18));
    assert_eq!(scan_header_block(b"GET / HTTP/1.1\r\n"), HeadScan::More);
    assert_eq!(scan_header_block(&[b'a'; 65_535]), HeadScan::More);
    assert_eq!(scan_header_block(&[b'a'; 65_536]), HeadScan::TooLarge);
    assert!(head_at_eof(b"").is_none());
    assert_eq!(head_at_eof(b"x").unwrap().kind, IoKind::UnexpectedEof);
    assert_eq!(closed_before_response().message(), "upstream closed before response");
}

// Passes a body on as an engine does, with `input` arriving in pieces of `piece` bytes. Gives
// the bytes written, the bytes left over, and the complaint.
fn pass(body: BodyKind, input: &[u8], piece: usize, max: Option<usize>) -> (Vec<u8>, Vec<u8>, Option<&'static str>) {
    let mut state = start_body(body);
    let mut buf: Vec<u8> = Vec::new();
    let mut out: Vec<u8> = Vec::new();
    let mut rest = input;
    loop {
        let step = forward_body(&mut state, &mut buf, max);
        out.extend_from_slice(&step.bytes);
        match step.status {
            CopyStatus::Finished => break,
            CopyStatus::Broken(why) => {
                buf.extend_from_slice(rest);
                return (out, buf, Some(why));
            }
            CopyStatus::More => {}
        }
        let n = piece.min(rest.len()).min(read_limit(&state));
        if n == 0 {
            return (out, buf, if whole_at_eof(&state) { None } else { Some("eof") });
        }
        buf.extend_from_slice(&rest[..n]);
        rest = &rest[n..];
    }
    buf.extend_from_slice(rest);
    (out, buf, None)
}

#[test]
fn bodies_pass_unchanged_however_they_arrive() {
    let chunked = b"5;x=y\r\nhello\r\n6\r\n world\r\n0\r\nT: 1\r\n\r\nNEXT";
    for piece in 1..60 {
        let (out, left, why) = pass(BodyKind::Chunked, chunked, piece, Some(64));
        assert_eq!(out, &chunked[..chunked.len() - 4]);
        assert_eq!(left, b"NEXT");
        assert_eq!(why, None);
        let (out, left, why) = pass(BodyKind::ContentLength(5), b"helloNEXT", piece, None);
        assert_eq!((out.as_slice(), left.as_slice(), why), (&b"hello"[..], &b"NEXT"[..], None));
        let (out, left, why) = pass(BodyKind::CloseDelimited, b"hello", piece, None);
        assert_eq!((out.as_slice(), left.as_slice(), why), (&b"hello"[..], &b""[..], None));
        let (out, left, why) = pass(BodyKind::Empty, b"NEXT", piece, None);
        assert_eq!((out.as_slice(), left.as_slice(), why), (&b""[..], &b"NEXT"[..], None));
    }
}

#[test]
fn broken_bodies_are_named() {
    assert_eq!(pass(BodyKind::Chunked, b"zz\r\n", 9, None).2, Some("bad chunk size"));
    assert_eq!(pass(BodyKind::Chunked, b"\xff\r\n", 9, None).2, Some("bad chunk"));
    let (out, _, why) = pass(BodyKind::Chunked, b"5\r\nhello\r\n5\r\nhello\r\n0\r\n\r\n", 99, Some(9));
    assert_eq!(why, Some("request body too large"));
    assert_eq!(out, b"5\r\nhello\r\n5\r\n");
    assert_eq!(pass(BodyKind::ContentLength(5), b"hell", 9, None).2, Some("eof"));
    assert_eq!(pass(BodyKind::Chunked, b"5\r\nhel", 9, None).2, Some("eof"));
    assert_eq!(parse_chunk_size(b" 1F ;ext\r\n"), Err("bad chunk size"));
    assert_eq!(parse_chunk_size(b"1F;ext\r\n"), Ok(31));
    assert_eq!(parse_chunk_size(b"ffffffffffffffff\r\n"), Ok(usize::MAX));
    let (_, _, why) = pass(BodyKind::Chunked, b"ffffffffffffffff\r\nx", 99, None);
    assert_eq!(why, Some("eof"));
    assert_eq!(read_limit(&CopyState::Exact { remaining: 5 }), 5);
    assert_eq!(read_limit(&CopyState::Exact { remaining: 99_999 }), 16_384);
}

// Passes a response on as the fast engine does, with `input` arriving in pieces.
fn relay(input: &[u8], piece: usize, head: bool) -> Result<(ResponseHead, Vec<u8>, Vec<u8>), String> {
    let mut buf: Vec<u8> = Vec::new();
    let mut rest = input;
    let mut out: Vec<u8> = Vec::new();
    loop {
        let end = match scan_header_block(&buf) {
            HeadScan::Complete(end) => end,
            HeadScan::TooLarge => return Err("headers too large".to_string()),
            HeadScan::More => {
                let n = piece.min(rest.len());
                if n == 0 {
                    return Err("eof".to_string());
                }
                buf.extend_from_slice(&rest[..n]);
                rest = &rest[n..];
                continue;
            }
        };
        let relayed = relay_response_head(&mut buf, end, head).map_err(|e| e.message())?;
        out.extend_from_slice(&relayed.start.bytes);
        if relayed.interim {
            continue;
        }
        let mut state = relayed.start.state;
        loop {
            let step = forward_body(&mut state, &mut buf, None);
            out.extend_from_slice(&step.bytes);
            match step.status {
                CopyStatus::Finished => break,
                CopyStatus::Broken(why) => return Err(why.to_string()),
                CopyStatus::More => {}
            }
            let n = piece.min(rest.len()).min(read_limit(&state));
            if n == 0 {
                if whole_at_eof(&state) {
                    break;
                }
                return Err("eof".to_string());
            }
            buf.extend_from_slice(&rest[..n]);
            rest = &rest[n..];
        }
        buf.extend_from_slice(rest);
        return Ok((relayed.response, out, buf));
    }
}

#[test]
fn proxies_large_content_length_response_byte_for_byte() {
    let body: Vec<u8> = (0..200_000u32).map(|i| (i % 251) as u8).collect();
    let header = format!(
        "HTTP/1.1 200 OK\r\nContent-Length: {}\r\nConnection: keep-alive\r\n\r\n",
        body.len()
    );
    let mut raw = header.clone().into_bytes();
    raw.extend_from_slice(&body);
    for piece in [1_000, 16_384, 300_000] {
        let (response, out, left) = relay(&raw, piece, false).unwrap();
        assert_eq!(response.status, 200);
        assert_eq!(&out[header.len()..], &body[..]);
        assert!(left.is_empty());
    }
}

#[test]
fn proxies_keepalive_post_and_chunked_response() {
    let mut snapshot = snapshot("http://127.0.0.1:9000");
    let mut outbound = Vec::new();
    let raw = b"POST /post HTTP/1.1\r\nHost: example.test\r\nContent-Length: 5\r\n\r\nhello";
    let end = match scan_header_block(raw) {
        HeadScan::Complete(end) => end,
        _ => panic!("no head"),
    };
    let request = build_request(&mut snapshot, &raw[..end], &mut outbound).unwrap().unwrap();
    let (body, left, why) = pass(request.head.body, &raw[end..], 3, Some(64 * 1024 * 1024));
    assert_eq!((body.as_slice(), left.as_slice(), why), (&b"hello"[..], &b""[..], None));

    let raw = b"POST /chunked-request HTTP/1.1\r\nHost: example.test\r\nTransfer-Encoding: chunked\r\n\r\n5\r\nhello\r\n0\r\n\r\n";
    let end = match scan_header_block(raw) {
        HeadScan::Complete(end) => end,
        _ => panic!("no head"),
    };
    let request = build_request(&mut snapshot, &raw[..end], &mut outbound).unwrap().unwrap();
    let (body, _, why) = pass(request.head.body, &raw[end..], 4, Some(64 * 1024 * 1024));
    assert_eq!((body.as_slice(), why), (&b"5\r\nhello\r\n0\r\n\r\n"[..], None));

    let answer = b"HTTP/1.1 200 OK\r\nTransfer-Encoding: chunked\r\n\r\n5\r\nhello\r\n6\r\n world\r\n0\r\n\r\n";
    for piece in 1..90 {
        let (response, out, left) = relay(answer, piece, false).unwrap();
        assert_eq!(response.body, BodyKind::Chunked);
        assert!(!response.close_after_response);
        assert_eq!(out, answer);
        assert!(left.is_empty());
    }
}

#[test]
fn interim_responses_go_before_the_final_one() {
    let raw = b"HTTP/1.1 100 Continue\r\n\r\nHTTP/1.1 200 OK\r\nContent-Length: 2\r\n\r\nokNEXT";
    for piece in 1..80 {
        let (response, out, left) = relay(raw, piece, false).unwrap();
        assert_eq!(response.status, 200);
        assert_eq!(out, &raw[..raw.len() - 4]);
        assert_eq!(left, b"NEXT");
    }
    // The first write holds the head and what is there of the body.
    let mut buf = b"HEAD\r\n\r\nbodyNEXT".to_vec();
    let start = begin_relay(&mut buf, 8, BodyKind::ContentLength(4));
    assert_eq!(start.bytes, b"HEAD\r\n\r\nbody");
    assert_eq!(start.state, CopyState::Exact { remaining: 0 });
    assert_eq!(buf, b"NEXT");
    let start = begin_relay(&mut buf, 2, BodyKind::Chunked);
    assert_eq!(start.bytes, b"NE");
    assert_eq!(start.state, CopyState::ChunkLine { copied: 0 });
}

#[test]
fn uring_proxies_content_length_response_end_to_end() {
    let body = vec![7u8; 100_000];
    let header = format!(
        "HTTP/1.1 200 OK\r\nContent-Length: {}\r\nConnection: keep-alive\r\n\r\n",
        body.len()
    );
    let mut buf = header.clone().into_bytes();
    buf.extend_from_slice(&body[..10]);
    let end = match scan_header_block(&buf) {
        HeadScan::Complete(end) => end,
        _ => panic!("no head"),
    };
    let relayed = h1_uring::relay_response_head(&mut buf, end, false).unwrap();
    assert!(!relayed.interim);
    let mut got = relayed.bytes;
    let mut state = relayed.state;
    let mut rest = &body[10..];
    loop {
        let step = forward_body(&mut state, &mut buf, None);
        got.extend_from_slice(&step.bytes);
        if matches!(step.status, CopyStatus::Finished) {
            break;
        }
        let n = read_limit(&state).min(rest.len());
        buf.extend_from_slice(&rest[..n]);
        rest = &rest[n..];
    }
    assert_eq!(got.len(), header.len() + body.len());
    assert_eq!(&got[header.len()..], &body[..]);
}

#[test]
fn static_replies_are_whole_responses() {
    assert_eq!(
        StaticReply::NoRoute.bytes(),
        b"HTTP/1.1 404 Not Found\r\nContent-Type: text/plain; charset=utf-8\r\nContent-Length: 18\r\nConnection: close\r\n\r\nno matching route\n"
    );
    assert_eq!(StaticReply::RateLimited.status(), 429);
    assert_eq!(StaticReply::H3NotEnabled.reason(), "Not Implemented");
    assert_eq!(StaticReply::UpstreamFailed.body(), "upstream request failed\n");
    assert_eq!(
        StaticReply::UpstreamFailed.bytes(),
        b"HTTP/1.1 502 Bad Gateway\r\nContent-Type: text/plain; charset=utf-8\r\nContent-Length: 24\r\nConnection: close\r\n\r\nupstream request failed\n"
    );
}

fn exchange(close: bool, limited: bool, protocol: UpstreamProtocol) -> Exchange {
    Exchange { close, limited, protocol }
}

#[test]
fn fast_connections_take_their_course() {
    let x = exchange(false, true, UpstreamProtocol::H1);
    let m = step(Phase::Head, Event::Matched(x));
    assert_eq!(m.next, Phase::Admit(x));
    let m = step(Phase::Admit(x), Event::Verdict(true));
    assert_eq!(m.next, Phase::Connect(x));
    for (from, to) in [
        (Phase::Connect(x), Phase::SendHead(x)),
        (Phase::SendHead(x), Phase::SendBody(x)),
        (Phase::SendBody(x), Phase::Flush(x)),
        (Phase::Flush(x), Phase::Relay(x)),
    ] {
        let m = step(from, Event::Done);
        assert_eq!(m.next, to);
        assert_eq!(m.health, Health::Unchanged);
    }
    let kept = ResponseHead {
        status: 200,
        close_after_response: false,
        body: BodyKind::ContentLength(1),
    };
    let m = step(Phase::Relay(x), Event::Relayed(kept));
    assert_eq!((m.next, m.pool, m.health), (Phase::Head, true, Health::Success));
    assert_eq!((m.tally, m.logged), (Some(Tally::Proxied), Some(200)));
    let closed = ResponseHead { status: 500, close_after_response: true, body: BodyKind::CloseDelimited };
    let m = step(Phase::Relay(x), Event::Relayed(closed));
    assert_eq!((m.next, m.pool, m.health), (Phase::Closed, false, Health::Failure));
}

#[test]
fn fast_connections_end_early() {
    let x = exchange(false, true, UpstreamProtocol::H1);
    let m = step(Phase::Admit(x), Event::Verdict(false));
    assert_eq!(
        (m.next, m.reply),
        (Phase::Reply { close: true, note: None }, Some(StaticReply::RateLimited))
    );
    assert_eq!((m.tally, m.logged), (Some(Tally::RateLimited), Some(429)));
    let h3 = exchange(false, false, UpstreamProtocol::H3);
    let m = step(Phase::Head, Event::Matched(h3));
    let note = Note { tally: Tally::H3NotEnabled, logged: Some(501) };
    let replying = Phase::Reply { close: true, note: Some(note) };
    assert_eq!((m.next, m.reply), (replying, Some(StaticReply::H3NotEnabled)));
    // Nothing is counted or logged before the reply is sent, nor where it cannot be sent.
    assert_eq!((m.tally, m.logged), (None, None));
    let m = step(replying, Event::Done);
    assert_eq!((m.next, m.tally, m.logged), (Phase::Closed, Some(Tally::H3NotEnabled), Some(501)));
    let m = step(replying, Event::ReplyFailed(FastH1Error::Parse("gone")));
    assert_eq!((m.next, m.tally, m.logged), (Phase::Closed, None, None));
    let m = step(Phase::Head, Event::NoRoute);
    assert_eq!((m.reply, m.tally, m.logged), (Some(StaticReply::NoRoute), None, None));
    let m = step(m.next, Event::Done);
    assert_eq!((m.next, m.tally, m.logged), (Phase::Closed, Some(Tally::NoRoute), None));
    let m = step(Phase::Head, Event::HeadTimedOut);
    assert!(matches!(m.error, Some(FastH1Error::Parse("downstream header read timed out"))));
    let m = step(Phase::Head, Event::HeadFailed(FastH1Error::from(IoFailure::unexpected_eof())));
    assert_eq!(m.next, Phase::Closed);
    assert!(m.error.is_none());
    let m = step(Phase::Head, Event::HeadFailed(FastH1Error::Parse("headers too large")));
    assert_eq!(m.error.unwrap().message(), "headers too large");
    let m = step(Phase::Head, Event::Refused(FastH1Error::Upstream("none".to_string())));
    assert_eq!(m.error.unwrap().message(), "none");
    assert!(step(Phase::Head, Event::HeadEnded).error.is_none());
    for phase in [Phase::Connect(x), Phase::SendHead(x)] {
        let m = step(phase, Event::Failed);
        assert_eq!(
            (m.next, m.reply),
            (Phase::Reply { close: true, note: None }, Some(StaticReply::UpstreamFailed))
        );
        assert_eq!((m.health, m.logged), (Health::Failure, Some(502)));
    }
    for phase in [Phase::SendBody(x), Phase::Flush(x)] {
        let m = step(phase, Event::Failed);
        assert_eq!((m.next, m.reply, m.health), (Phase::Head, None, Health::Failure));
    }
    let m = step(Phase::Relay(x), Event::Failed);
    assert_eq!(m.next, Phase::Reply { close: false, note: None });
    assert_eq!(step(Phase::Reply { close: false, note: None }, Event::Done).next, Phase::Head);
    assert_eq!(step(Phase::Reply { close: true, note: None }, Event::Done).next, Phase::Closed);
    let failed = Event::ReplyFailed(FastH1Error::Upstream("gone".to_string()));
    let m = step(Phase::Reply { close: true, note: None }, failed);
    assert!(matches!(m.error, Some(FastH1Error::Upstream(why)) if why == "gone"));
    assert_eq!(Tally::H3NotEnabled.name(), "h3_not_enabled");
}

#[test]
fn uring_connections_take_their_course() {
    let x = exchange(false, false, UpstreamProtocol::H2);
    assert_eq!(h1_uring::step(h1_uring::Phase::Head, h1_uring::Event::Matched(x)).next, h1_uring::Phase::Connect(x));
    assert_eq!(h1_uring::step(h1_uring::Phase::SendBody(x), h1_uring::Event::Done).next, h1_uring::Phase::RelayHead(x));
    let meta = |status| ResponseMeta {
        status,
        body: ResponseBody::ContentLength(1),
        close_after_response: false,
    };
    assert_eq!(h1_uring::step(h1_uring::Phase::RelayHead(x), h1_uring::Event::HeadRelayed(meta(100))).next, h1_uring::Phase::RelayHead(x));
    let body = h1_uring::Phase::RelayBody(x, meta(503));
    assert_eq!(h1_uring::step(h1_uring::Phase::RelayHead(x), h1_uring::Event::HeadRelayed(meta(503))).next, body);
    let m = h1_uring::step(body, h1_uring::Event::Done);
    assert_eq!((m.next, m.pool, m.health), (h1_uring::Phase::Head, true, Health::Failure));
    let m = h1_uring::step(body, h1_uring::Event::Failed);
    assert_eq!((m.next, m.pool, m.health), (h1_uring::Phase::Closed, false, Health::Failure));
    let m = h1_uring::step(h1_uring::Phase::RelayHead(x), h1_uring::Event::Ended);
    assert_eq!(m.health, Health::Failure);
    assert!(matches!(
        m.error,
        Some(h1_uring::UringError::Parse("upstream closed before response"))
    ));
    let m = h1_uring::step(h1_uring::Phase::RelayHead(x), h1_uring::Event::TimedOut);
    assert_eq!(m.health, Health::Unchanged);
    assert_eq!(m.error.unwrap().message(), "upstream response timed out");
    let m = h1_uring::step(h1_uring::Phase::Head, h1_uring::Event::Broken(h1_uring::UringError::Upstream("no available upstream")));
    assert_eq!(m.error.unwrap().message(), "no available upstream");
    assert_eq!(h1_uring::step(h1_uring::Phase::Reply, h1_uring::Event::Done).next, h1_uring::Phase::Closed);
    assert_eq!(h1_uring::step(h1_uring::Phase::Connect(x), h1_uring::Event::Failed).reply, Some(StaticReply::UpstreamFailed));
}

fn at(ms: u128) -> Instant {
    Instant { nanos: ms * 1_000_000 }
}

#[test]
fn pool_checkout_is_idle_gated_and_id_keyed() {
    let mut pool: FastConnectionPool<&str> = FastConnectionPool::new();
    pool.checkin(7, "client", at(0));
    // A fresh checkin is available under its own id and skips the probe; a different id sees
    // nothing.
    assert!(pool.checkout(9, at(1), Duration::from_millis(250)).is_none());
    assert!(matches!(
        pool.checkout(7, at(1), Duration::from_millis(250)),
        Some(Candidate::Fresh("client"))
    ));
    assert!(pool.checkout(7, at(1), Duration::from_millis(250)).is_none());
    pool.checkin(7, "old", at(0));
    pool.checkin(39, "other", at(0));
    pool.checkin(7, "new", at(100));
    assert!(matches!(
        pool.checkout(7, at(300), Duration::from_millis(250)),
        Some(Candidate::Fresh("new"))
    ));
    assert!(matches!(
        pool.checkout(7, at(300), Duration::from_millis(250)),
        Some(Candidate::Probe("old"))
    ));
    assert!(matches!(
        pool.checkout(39, at(250), Duration::from_millis(250)),
        Some(Candidate::Probe("other"))
    ));
    assert!(probe_verdict(-1, true));
    assert!(!probe_verdict(-1, false));
    assert!(!probe_verdict(0, true));
    assert!(!probe_verdict(1, true));
}

#[test]
fn uring_pool_idle_gating_returns_fresh_checkin() {
    let addr = SocketAddr::new(IpAddr::v4(127, 0, 0, 1), 4000);
    let other = SocketAddr::new(IpAddr::v4(127, 0, 0, 1), 1);
    let mut pool: UringConnectionPool<u8> = UringConnectionPool::new();
    pool.checkin(addr, 1, at(0));
    pool.checkin(other, 2, at(0));
    pool.checkin(addr, 3, at(10));
    assert!(matches!(pool.checkout(addr, at(20), Duration::from_millis(250)), Some(Candidate::Fresh(3))));
    assert!(matches!(pool.checkout(addr, at(260), Duration::from_millis(250)), Some(Candidate::Probe(1))));
    assert!(pool.checkout(addr, at(20), Duration::from_millis(250)).is_none());
    assert!(pool.checkout(other, at(20), Duration::from_millis(250)).is_some());
}

#[test]
fn limited_routes_are_marked() {
    let mut config = config_for("http://127.0.0.1:9000");
    config.routes[0].rate_limit =
        RateLimitConfig { enabled: true, capacity: 5, fill_rate_bits: 1.0f32.to_bits() };
    let mut snapshot = ConfigSnapshot::new(config, &mut UpstreamIds::new()).unwrap();
    let mut out = Vec::new();
    let m = build_request(&mut snapshot, b"GET / HTTP/1.1\r\n\r\n", &mut out).unwrap().unwrap();
    assert!(m.limited);
    assert!(m.exchange().limited);
}

#[test]
fn bytes_that_go_by_are_counted_off() {
    let mut state = CopyState::Exact { remaining: 10 };
    passed_by(&mut state, 4);
    assert_eq!(state, CopyState::Exact { remaining: 6 });
    passed_by(&mut state, 6);
    assert_eq!(state, CopyState::Done);
    assert_eq!(
        Splice::for_body(&CopyState::Exact { remaining: 6 }, false, true),
        Some(Splice::exact(6))
    );
    assert_eq!(Splice::for_body(&CopyState::UntilClose, false, true), Some(Splice::stream()));
    assert_eq!(Splice::for_body(&CopyState::UntilClose, true, true), None);
    assert_eq!(Splice::for_body(&CopyState::UntilClose, false, false), None);
    assert_eq!(Splice::for_body(&CopyState::Trailer, false, true), None);
    // The data of a chunk goes by a pipe; the line behind it does not.
    let mut chunk = CopyState::ChunkData { copied: 3, remaining: 5 };
    assert_eq!(Splice::for_body(&chunk, false, true), Some(Splice::exact(5)));
    let mut counted = chunk;
    passed_by(&mut counted, 2);
    assert_eq!(counted, CopyState::ChunkData { copied: 3, remaining: 3 });
    passed_by(&mut counted, 3);
    spliced(&mut chunk);
    assert_eq!(chunk, CopyState::ChunkLine { copied: 3 });
    assert_eq!(counted, chunk);
    assert_eq!(Splice::for_body(&chunk, false, true), None);
}
