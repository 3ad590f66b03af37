use yxorp::addr::{IpAddr, SocketAddr};
use yxorp::config::{
    ConfigSnapshot, Http1Engine, ListenerConfig, ListenerProtocol, PoolMap, ProxyConfig,
    RateLimitConfig, RouteConfig, UpstreamConfig, UpstreamIds, UpstreamPoolConfig,
    UpstreamProtocol, UpstreamRef,
};
use yxorp::control::{
    checked_upstreams, health_request, health_verdict, next_stage, on_event, record_check,
    reload_reply, same_listener_shape, shutdown_steps, CheckOutcome, ControlAction, ControlEvent,
    ReloadStage, ShutdownStep,
};
use yxorp::fault::IoKind;
use yxorp::proxy::exchange::Health;
use yxorp::proxy::gateway::{
    accept_worker_count, admit_request, alpn_protocols, conclude, connection_mode, dispatch,
    dispatch_to, find_route, note_health, plan_listener, ring_worker_count, serve, ConnectionMode,
    ConnectionTracker, Dispatch, GatewayReply, ListenerPlan, Routed, UpstreamOutcome,
};
use yxorp::proxy::h3::{
    admit_h3, build_forward, choose_upstream, find_h3_route, forward_headers, has_body, pick_v4,
    read_request, response_headers, route_target, serve_h3, H3Header, H3Outcome, H3Reply,
    RouteTarget,
};
use yxorp::proxy::head::HeaderField;
use yxorp::proxy::rate_limit::{capped, grants, Level, RateLimiter, Shard};
use yxorp::proxy::zerocopy::{splice_supported, Splice, SpliceAction, PIPE_CAPACITY};
use yxorp::time::{Duration, Instant};

fn snapshot(host: &str, urls: &[&str]) -> ConfigSnapshot {
    let mut pools = PoolMap::new();
    pools.insert(
        "web".to_string(),
        UpstreamPoolConfig {
            upstreams: urls
                .iter()
                .map(|u| UpstreamConfig { url: u.to_string(), ..UpstreamConfig::default() })
                .collect(),
            ..UpstreamPoolConfig::default()
        },
    );
    let config = ProxyConfig {
        routes: vec![RouteConfig {
            host: host.to_string(),
            upstream_pool: "web".to_string(),
            ..RouteConfig::default()
        }],
        upstream_pools: pools,
        ..ProxyConfig::default()
    };
    ConfigSnapshot::new(config, &mut UpstreamIds::new()).unwrap()
}

const FIRST: UpstreamRef = UpstreamRef { pool: 0, index: 0 };

#[test]
fn requests_are_routed_by_printable_hosts() {
    let snap = snapshot("example.com", &["http://127.0.0.1:9000"]);
    assert_eq!(find_route(&snap.routes, Some(b" Example.com "), Some("/")).unwrap_or_else(|_| panic!("no route")).route, 0);
    for host in [Some(&b"other.com"[..]), Some(b"ex\xc3\xa4mple.com"), None, Some(b"a b")] {
        assert!(matches!(find_route(&snap.routes, host, Some("/")), Err(GatewayReply::NoRoute)));
    }
    let any = snapshot("*", &["http://127.0.0.1:9000"]);
    let found = find_route(&any.routes, None, None);
    assert!(matches!(found, Ok(r) if r.route == 0 && !r.limited));
}

#[test]
fn requests_are_dispatched() {
    let mut snap = snapshot("*", &["http://127.0.0.1:9000/base"]);
    match dispatch(&mut snap.routes, 0, Some("/x?y")) {
        Dispatch::Forward(f) => {
            assert_eq!(f.uri.text, "http://127.0.0.1:9000/base/x?y");
            assert_eq!(f.host, "127.0.0.1:9000");
            assert_eq!(f.request_timeout.as_millis(), 30_000);
            assert_eq!(f.at, FIRST);
        }
        Dispatch::Reply(_) => panic!("refused"),
    }
    assert!(matches!(dispatch(&mut snap.routes, 0, None), Dispatch::Forward(_)));
    assert!(matches!(
        dispatch(&mut snap.routes, 0, Some("/a b")),
        Dispatch::Reply(GatewayReply::BadUpstreamUri)
    ));
    assert_eq!(snap.routes.upstream(FIRST).passive_failures(), 1);
    assert!(matches!(
        dispatch_to(&mut snap.routes, FIRST, None),
        Dispatch::Reply(GatewayReply::BadUpstreamUri)
    ));
    assert_eq!(snap.routes.upstream(FIRST).passive_failures(), 2);
    snap.routes.pools[0].upstreams[0].config.protocol = UpstreamProtocol::H3;
    assert!(matches!(
        dispatch(&mut snap.routes, 0, Some("/")),
        Dispatch::Reply(GatewayReply::H3NotEnabled)
    ));
    snap.routes.pools[0].upstreams.clear();
    snap.routes.pools[0].expanded.clear();
    assert!(matches!(
        dispatch(&mut snap.routes, 0, Some("/")),
        Dispatch::Reply(GatewayReply::NoUpstream)
    ));
}

#[test]
fn refused_requests_ask_no_pool() {
    let mut snap = snapshot("*", &["http://127.0.0.1:9000", "http://127.0.0.1:9001"]);
    let routed = Routed { route: 0, limited: true };
    assert_eq!(admit_request(&routed, Some(false)), Err(GatewayReply::RateLimited));
    assert_eq!(admit_request(&routed, Some(true)), Ok(0));
    assert_eq!(admit_request(&Routed { route: 0, limited: false }, Some(false)), Ok(0));
    assert!(matches!(
        serve(&mut snap.routes, &routed, Some(false), Some("/")),
        Dispatch::Reply(GatewayReply::RateLimited)
    ));
    assert_eq!(serve_h3(&mut snap.routes, &routed, Some(false)), Err(H3Reply::RateLimited));
    assert_eq!(snap.routes.pools[0].cursor, 0);
    assert!(matches!(
        serve(&mut snap.routes, &routed, Some(true), Some("/")),
        Dispatch::Forward(_)
    ));
    assert_eq!(admit_h3(&routed, None), Ok(0));
    assert!(serve_h3(&mut snap.routes, &routed, None).is_ok());
    assert_eq!(snap.routes.pools[0].cursor, 2);
    assert_eq!(H3Reply::BodyUnsupported.tally(), None);
    assert_eq!(H3Reply::NoRoute.tally(), Some("no_route"));
    assert_eq!(H3Reply::RateLimited.tally(), Some("rate_limited"));
    assert_eq!(H3Reply::NoUpstream.tally(), Some("no_upstream"));
    assert!(H3Reply::RateLimited.must_arrive() && !H3Reply::NoRoute.must_arrive());
    assert_eq!(H3Outcome::Answered.tally(), Some("proxied"));
    assert_eq!(H3Outcome::Failed.tally(), Some("upstream_error"));
    assert_eq!(H3Outcome::TimedOut.tally(), None);
}

#[test]
fn outcomes_are_noted() {
    let mut snap = snapshot("*", &["http://127.0.0.1:9000"]);
    assert_eq!(conclude(&mut snap.routes, FIRST, UpstreamOutcome::TimedOut), Some(GatewayReply::UpstreamTimedOut));
    assert_eq!(conclude(&mut snap.routes, FIRST, UpstreamOutcome::Failed), Some(GatewayReply::UpstreamFailed));
    assert_eq!(conclude(&mut snap.routes, FIRST, UpstreamOutcome::Response { status: 599 }), None);
    assert_eq!(snap.routes.upstream(FIRST).passive_failures(), 3);
    assert_eq!(conclude(&mut snap.routes, FIRST, UpstreamOutcome::Response { status: 600 }), None);
    assert_eq!(snap.routes.upstream(FIRST).passive_failures(), 0);
    note_health(&mut snap.routes, FIRST, Health::Failure);
    note_health(&mut snap.routes, FIRST, Health::Unchanged);
    assert_eq!(snap.routes.upstream(FIRST).passive_failures(), 1);
    note_health(&mut snap.routes, FIRST, Health::Success);
    assert_eq!(snap.routes.upstream(FIRST).passive_failures(), 0);
}

#[test]
fn gateway_replies() {
    for (reply, status, text, tally) in [
        (GatewayReply::NoRoute, 404, "no matching route\n", Some("no_route")),
        (GatewayReply::RateLimited, 429, "rate limit exceeded\n", Some("rate_limited")),
        (GatewayReply::NoUpstream, 502, "no available upstream\n", Some("no_upstream")),
        (GatewayReply::BadUpstreamUri, 502, "invalid upstream URI\n", None),
        (GatewayReply::UpstreamTimedOut, 504, "upstream request timed out\n", Some("upstream_error")),
        (GatewayReply::UpstreamFailed, 502, "upstream request failed\n", Some("upstream_error")),
    ] {
        assert_eq!((reply.status(), reply.text(), reply.tally()), (status, text, tally));
    }
    assert_eq!(GatewayReply::H3NotEnabled.status(), 501);
}

#[test]
fn listeners_are_planned() {
    let base = || ListenerConfig::default();
    assert_eq!(
        plan_listener(&base(), false, None, false),
        ListenerPlan::Accept { workers: 1, h1_only: false, fast: false }
    );
    let tls = ListenerConfig { tls: true, ..base() };
    assert_eq!(plan_listener(&tls, false, None, false), ListenerPlan::NoCertificate);
    let h3 = ListenerConfig { protocols: vec![ListenerProtocol::H3], ..base() };
    assert_eq!(plan_listener(&h3, true, None, true), ListenerPlan::Http3);
    assert_eq!(plan_listener(&h3, true, None, false), ListenerPlan::Http3Missing);
    let ring = ListenerConfig { http1_engine: Http1Engine::Uring, ..base() };
    assert_eq!(plan_listener(&ring, false, None, false), ListenerPlan::Ring);
    let many = ListenerConfig {
        reuse_port: true,
        accept_workers: 0,
        protocols: vec![ListenerProtocol::H1],
        http1_engine: Http1Engine::Fast,
        ..base()
    };
    assert_eq!(
        plan_listener(&many, false, Some(8), false),
        ListenerPlan::Accept { workers: 8, h1_only: true, fast: true }
    );
    assert_eq!(accept_worker_count(&many, None), 1);
    let four = ListenerConfig { reuse_port: true, accept_workers: 4, ..base() };
    assert_eq!(accept_worker_count(&four, Some(8)), 4);
    let alone = ListenerConfig { accept_workers: 4, ..base() };
    assert_eq!(accept_worker_count(&alone, Some(8)), 1);
    assert_eq!(ring_worker_count(&alone, Some(8)), 4);
    assert_eq!(ring_worker_count(&ListenerConfig { accept_workers: 0, ..base() }, Some(8)), 8);
    assert_eq!(connection_mode(true, true, true), ConnectionMode::Fast);
    assert_eq!(connection_mode(true, false, true), ConnectionMode::Http1 { tls: true });
    assert_eq!(connection_mode(false, false, false), ConnectionMode::Auto { tls: false });
    assert_eq!(
        alpn_protocols(&vec![ListenerProtocol::H1, ListenerProtocol::H2]),
        vec!["h2", "http/1.1"]
    );
    assert!(alpn_protocols(&vec![ListenerProtocol::H3]).is_empty());
}

#[test]
fn connections_are_counted() {
    let mut t = ConnectionTracker::new();
    t.started();
    t.started();
    assert!(!t.finished());
    assert!(!t.is_idle());
    assert!(t.finished());
    assert!(t.is_idle());
}

fn h3(list: &[(&str, &[u8])]) -> Vec<H3Header> {
    list.iter()
        .map(|(n, v)| H3Header { name: n.as_bytes().to_vec(), value: v.to_vec() })
        .collect()
}

#[test]
fn h3_requests_are_read() {
    let r = read_request(&h3(&[
        (":method", b"POST"),
        (":authority", b"a.example"),
        (":path", b"/x"),
        (":authority", b"b.example"),
        (":path", b"\xff"),
    ]));
    assert_eq!(r.host.as_deref(), Some("b.example"));
    assert_eq!(r.path, None);
    assert_eq!(r.method, "POST");
    assert_eq!(read_request(&h3(&[(":method", b"\xff")])).method, "GET");
    assert!(has_body(&h3(&[]), false));
    assert!(!has_body(&h3(&[]), true));
    assert!(has_body(&h3(&[("Content-Length", b" 5 ")]), true));
    assert!(!has_body(&h3(&[("content-length", b"0")]), true));
    assert!(!has_body(&h3(&[("content-length", b"x")]), true));
}

#[test]
fn h3_requests_are_routed() {
    let mut snap = snapshot("example.com", &["http://127.0.0.1:9000/base"]);
    let good = h3(&[(":authority", b"example.com"), (":path", b"/x")]);
    assert!(matches!(find_h3_route(&snap.routes, &good, true), Ok(r) if r.route == 0));
    assert!(matches!(find_h3_route(&snap.routes, &good, false), Err(H3Reply::BodyUnsupported)));
    let other = h3(&[(":authority", b"other.com")]);
    assert!(matches!(find_h3_route(&snap.routes, &other, true), Err(H3Reply::NoRoute)));
    let at = choose_upstream(&mut snap.routes, 0).unwrap_or_else(|_| panic!("no upstream"));
    assert_eq!(at, FIRST);
    match route_target(&snap.routes, at) {
        Some(RouteTarget::Address(a)) => {
            assert_eq!(a, SocketAddr::new(IpAddr::v4(127, 0, 0, 1), 9000));
        }
        _ => panic!("no address"),
    }
    let mut fields = good;
    fields.push(H3Header { name: b"X-A".to_vec(), value: b"1".to_vec() });
    let f = build_forward(&snap.routes, at, &fields).unwrap();
    assert_eq!(f.uri.text, "http://127.0.0.1:9000/base/x");
    assert_eq!(f.method, "GET");
    assert_eq!(f.headers.len(), 1);
    assert_eq!(f.headers[0].name, "x-a");
    yxorp::proxy::h3::conclude(&mut snap.routes, at, H3Outcome::Failed);
    yxorp::proxy::h3::conclude(&mut snap.routes, at, H3Outcome::TimedOut);
    assert_eq!(snap.routes.upstream(at).passive_failures(), 1);
    yxorp::proxy::h3::conclude(&mut snap.routes, at, H3Outcome::Answered);
    assert_eq!(snap.routes.upstream(at).passive_failures(), 0);
    let named = snapshot("*", &["http://backend.internal"]);
    assert!(matches!(
        route_target(&named.routes, FIRST),
        Some(RouteTarget::Name { host, port: 80 }) if host == "backend.internal"
    ));
}

#[test]
fn h3_fields_are_filtered() {
    let hs = h3(&[
        (":path", b"/"),
        ("X-Good", b"1"),
        ("bad name", b"1"),
        ("x-ctl", b"a\x01"),
        ("", b"1"),
        ("x-tab", b"a\tb\xff"),
    ]);
    let names: Vec<String> = forward_headers(&hs).into_iter().map(|f| f.name).collect();
    assert_eq!(names, ["x-good", "x-tab"]);
    let marks = h3(&[("!#$%&'*+-.^_`|~09AZaz", b"1"), ("a:b", b"1"), ("a{", b"1")]);
    let kept = forward_headers(&marks);
    assert_eq!(kept.len(), 1);
    assert_eq!(
        (kept[0].name.as_str(), kept[0].value.as_slice()),
        ("!#$%&'*+-.^_`|~09azaz", &b"1"[..])
    );
    let longest = "a".repeat(65535);
    let too_long = "a".repeat(65536);
    let long = h3(&[(longest.as_str(), b"1"), (too_long.as_str(), b"1")]);
    assert_eq!(forward_headers(&long).len(), 1);
    let back = response_headers(204, &vec![HeaderField { name: "a".to_string(), value: b"b".to_vec() }]);
    assert_eq!((back[0].name.as_slice(), back[0].value.as_slice()), (&b":status"[..], &b"204"[..]));
    assert_eq!((back[1].name.as_slice(), back[1].value.as_slice()), (&b"a"[..], &b"b"[..]));
    let reply = H3Reply::BodyUnsupported.headers();
    assert_eq!(reply[0].value, b"413");
    assert_eq!(reply[1].value, b"text/plain");
    assert_eq!(H3Reply::RateLimited.text(), "rate limit exceeded\n");
    assert_eq!(H3Reply::NoUpstream.status(), "502");
    let v4 = SocketAddr::new(IpAddr::v4(1, 2, 3, 4), 1);
    assert_eq!(pick_v4(&vec![SocketAddr::new(IpAddr::V6(1), 1), v4]), Some(v4));
    assert_eq!(pick_v4(&vec![]), None);
}

fn level(tokens: f32) -> Level {
    Level { bits: tokens.to_bits(), less_one_bits: (tokens - 1.0).to_bits() }
}

fn at(ms: u128) -> Instant {
    Instant { nanos: ms * 1_000_000 }
}

#[test]
fn rate_limiter_settles_by_whole_tokens() {
    let mut l = RateLimiter::new(2, 1.0f32.to_bits());
    assert_eq!(l.shards.len(), 32);
    let ip = IpAddr::v4(1, 2, 3, 4);
    assert_eq!(RateLimiter::shard_idx(7 + 32), 7);
    assert_eq!(l.bucket_of(ip, 39), None);
    let full = 2.0f32.to_bits();
    // A new bucket is full; what was taken from it is gone until it fills up again.
    assert!(l.acquire(ip, 39, at(0), &vec![], level(2.0), level(9.0), level(2.0)));
    assert_eq!(l.bucket_of(ip, 7).map(|b| (b.tokens_bits, b.last_update)), Some((1.0f32.to_bits(), at(0))));
    assert!(l.acquire(ip, 39, at(1), &vec![true], level(2.0), level(1.0), level(2.0)));
    assert!(!l.acquire(ip, 39, at(2), &vec![true], level(2.0), level(0.5), level(2.0)));
    assert_eq!(l.bucket_of(ip, 7).map(|b| (b.tokens_bits, b.last_update)), Some((0.5f32.to_bits(), at(2))));
    // A bucket never holds more than its capacity.
    assert!(l.acquire(ip, 39, at(3), &vec![true], level(2.0), level(9.0), level(2.0)));
    assert_eq!(l.bucket_of(ip, 7).map(|b| b.tokens_bits), Some(1.0f32.to_bits()));
    assert_eq!(l.shards[7].len(), 1);
    assert_eq!(l.shards[8].len(), 0);
    for tokens in [-0.5f32, -2.0, -0.0, f32::NAN, -f32::NAN, f32::NEG_INFINITY] {
        assert!(!grants(tokens.to_bits()));
        assert_eq!(capped(tokens.to_bits(), full), tokens.to_bits());
    }
    assert!(grants(f32::INFINITY.to_bits()));
    assert_eq!(capped(f32::INFINITY.to_bits(), full), full);
    assert!(grants(1.0f32.to_bits()));
    assert!(!grants(0.999f32.to_bits()));
    assert_eq!(f32::from_bits(capped(9.0f32.to_bits(), full)), 2.0);
    assert_eq!(f32::from_bits(capped(0.25f32.to_bits(), full)), 0.25);
}

#[test]
fn rate_limiter_shards_stay_bounded() {
    let mut s = Shard::new();
    for i in 0..3_000u32 {
        let n = s.len();
        s.make_room(&vec![true; n]);
        s.bucket(IpAddr::V4(i), 0, at(i as u128));
        assert!(s.len() <= 2_049);
    }
    let n = s.len();
    assert!(n < 1_024);
    for i in 0..1_100u32 {
        s.bucket(IpAddr::V6(i as u128), 0, at(5));
    }
    let n = s.len();
    let keep: Vec<bool> = (0..n).map(|i| i % 2 == 0).collect();
    let kept_first = s.last_update(2);
    s.make_room(&keep);
    assert_eq!(s.len(), n.div_ceil(2));
    assert_eq!(s.last_update(1), kept_first);
}

// Moves `payload` as the relay does, with steps of at most `step` bytes.
fn splice(payload: &[u8], len: usize, step: usize) -> Result<Vec<u8>, IoKind> {
    let mut s = Splice::exact(len);
    let mut rest = payload;
    let mut pipe: Vec<u8> = Vec::new();
    let mut out: Vec<u8> = Vec::new();
    loop {
        match s.next() {
            SpliceAction::Done => return Ok(out),
            SpliceAction::Fill(want) => {
                let n = want.min(step).min(rest.len());
                pipe.extend_from_slice(&rest[..n]);
                rest = &rest[n..];
                s.filled(n)?;
            }
            SpliceAction::Drain(want) => {
                let n = want.min(step);
                out.extend(pipe.drain(..n));
                s.drained(n)?;
            }
        }
    }
}

#[test]
fn splice_exact_moves_bytes() {
    assert_eq!(splice(b"hello", 5, 2), Ok(b"hello".to_vec()));
    assert_eq!(splice(b"hello world", 5, 99), Ok(b"hello".to_vec()));
    assert_eq!(splice(b"", 0, 1), Ok(vec![]));
    assert_eq!(splice(b"hell", 5, 2), Err(IoKind::UnexpectedEof));
}

#[test]
fn splice_exact_large_payload_is_intact() {
    let payload: Vec<u8> = (0..500_000u32).map(|i| (i % 251) as u8).collect();
    for step in [4_096, 65_536, PIPE_CAPACITY] {
        assert_eq!(splice(&payload, payload.len(), step), Ok(payload.clone()));
    }
}

#[test]
fn splice_stream_ends_with_the_source() {
    let mut s = Splice::stream();
    assert_eq!(s.next(), SpliceAction::Fill(PIPE_CAPACITY));
    assert_eq!(s.filled(10), Ok(()));
    assert_eq!(s.next(), SpliceAction::Drain(10));
    assert_eq!(s.drained(4), Ok(()));
    assert_eq!(s.drained(0), Err(IoKind::WriteZero));
    assert_eq!(s.drained(6), Ok(()));
    assert_eq!(s.filled(0), Ok(()));
    assert_eq!(s.next(), SpliceAction::Done);
    assert_eq!((s.taken, s.sent), (10, 10));
    assert!(splice_supported(0, false));
    assert!(splice_supported(-1, true));
    assert!(!splice_supported(-1, false));
}

#[test]
fn detects_listener_shape_changes() {
    let one = |l: ListenerConfig| vec![l];
    let base = || ListenerConfig::default();
    let changed = ListenerConfig {
        protocols: vec![ListenerProtocol::H1, ListenerProtocol::H2, ListenerProtocol::H3],
        ..base()
    };
    let changed_socket_options = ListenerConfig { reuse_port: true, accept_workers: 2, ..base() };
    let changed_engine = ListenerConfig {
        protocols: vec![ListenerProtocol::H1],
        http1_engine: Http1Engine::Fast,
        ..base()
    };
    let changed_interface = ListenerConfig { interface: Some("eth0".to_string()), ..base() };

    assert!(same_listener_shape(&one(base()), &one(base())));
    assert!(!same_listener_shape(&one(base()), &one(changed)));
    assert!(!same_listener_shape(&one(base()), &one(changed_socket_options)));
    assert!(!same_listener_shape(&one(base()), &one(changed_engine)));
    assert!(!same_listener_shape(&one(base()), &one(changed_interface)));
    assert!(!same_listener_shape(&one(base()), &vec![]));
}

#[test]
fn reloads_go_stage_by_stage() {
    let run = |oks: &[bool], changed| {
        let mut stage = ReloadStage::Load;
        for ok in oks {
            stage = next_stage(stage, *ok, changed);
        }
        stage
    };
    assert_eq!(run(&[true, true, true], true), ReloadStage::Commit);
    assert_eq!(run(&[true, true, true, true], true), ReloadStage::RestartListeners);
    assert_eq!(run(&[true, true, true, true], false), ReloadStage::RestartHealth);
    assert_eq!(run(&[true, true, true, true, true], false), ReloadStage::Done);
    assert_eq!(run(&[true, true, false, true], true), ReloadStage::Failed);
    assert_eq!(run(&[false], true), ReloadStage::Failed);
    assert_eq!(reload_reply(None), Ok("reloaded".to_string()));
    assert_eq!(reload_reply(Some("x".to_string())), Err("x".to_string()));
}

#[test]
fn the_supervisor_shuts_down_in_order() {
    assert_eq!(on_event(ControlEvent::Drain), ControlAction::ShutDown { answer: true });
    assert_eq!(on_event(ControlEvent::Interrupted), ControlAction::ShutDown { answer: false });
    assert_eq!(on_event(ControlEvent::Reload), ControlAction::Reload);
    assert_eq!(on_event(ControlEvent::CommandsClosed), ControlAction::End);
    assert_eq!(on_event(ControlEvent::SignalFailed), ControlAction::Fail);
    let runtime = yxorp::config::RuntimeConfig::default();
    let steps = shutdown_steps(&runtime, true);
    assert_eq!(steps[0], ShutdownStep::Announce);
    assert_eq!(steps[2], ShutdownStep::WaitForDrain(Duration::from_millis(30_000)));
    assert_eq!(steps[5], ShutdownStep::Answer);
    assert_eq!(shutdown_steps(&runtime, false).len(), 5);
}

#[test]
fn health_checks_decide() {
    assert_eq!(
        health_request("/healthz", "a:80"),
        b"GET /healthz HTTP/1.1\r\nHost: a:80\r\nConnection: close\r\n\r\n"
    );
    assert_eq!(health_verdict(b"HTTP/1.1 200 OK\r\n"), CheckOutcome::Passed);
    assert_eq!(health_verdict(b"HTTP/1.1 200"), CheckOutcome::Passed);
    assert_eq!(health_verdict(b"HTTP/1.1 20"), CheckOutcome::Failed);
    assert_eq!(health_verdict(b"HTTP/1.0 200 OK"), CheckOutcome::Failed);

    let mut snap = snapshot("*", &["http://127.0.0.1:1", "http://127.0.0.1:2"]);
    assert!(checked_upstreams(&snap.routes).is_empty());
    snap.routes.pools[0].upstreams[1].config.health_check.enabled = true;
    let second = UpstreamRef { pool: 0, index: 1 };
    assert_eq!(checked_upstreams(&snap.routes), vec![second]);
    snap.routes.mark_failure(second);
    record_check(&mut snap.routes, second, CheckOutcome::TimedOut);
    assert!(!snap.routes.upstream(second).is_active_healthy());
    assert_eq!(snap.routes.upstream(second).passive_failures(), 1);
    record_check(&mut snap.routes, second, CheckOutcome::Disabled);
    assert!(!snap.routes.upstream(second).is_active_healthy());
    record_check(&mut snap.routes, second, CheckOutcome::Passed);
    assert!(snap.routes.upstream(second).is_available(1));
    record_check(&mut snap.routes, second, CheckOutcome::Unresolved);
    assert!(!snap.routes.upstream(second).is_available(1));
}

#[test]
fn limits_are_found_with_the_route() {
    let mut snap = snapshot("*", &["http://127.0.0.1:1"]);
    assert!(snap.routes.limiter_mut(0).is_none());
    snap.routes.routes[0].route.rate_limit =
        RateLimitConfig { enabled: true, capacity: 1, fill_rate_bits: 1 };
    snap.routes.routes[0].rate_limiter = Some(RateLimiter::new(1, 1));
    assert!(matches!(find_route(&snap.routes, None, Some("/")), Ok(r) if r.limited));
    assert_eq!(snap.routes.limiter_mut(0).unwrap().capacity, 1);
}
