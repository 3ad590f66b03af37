use yxorp::addr::{IpAddr, SocketAddr};
use yxorp::config::routes::{path_matches_prefix, HostLookup};
use yxorp::config::upstream::path_for_upstream;
use yxorp::config::{
    AcmeConfig, AdminConfig, CertConfig, ConfigError, ConfigSnapshot, HealthCheckConfig,
    Http1Engine, L4HealthCheckConfig, L4HealthCheckKind, L4Mode, L4Protocol, L4RealServerConfig,
    L4Scheduler, L4ServiceConfig, ListenerConfig, ListenerProtocol, PoolMap, ProxyConfig,
    RateLimitConfig, RouteConfig, RuntimeConfig, TelemetryConfig, TlsConfig, UpstreamConfig,
    UpstreamIds, UpstreamPoolConfig, UpstreamProtocol, UpstreamRef,
};

fn route(name: &str, host: &str, prefix: &str, pool: &str) -> RouteConfig {
    RouteConfig {
        name: name.to_string(),
        host: host.to_string(),
        path_prefix: prefix.to_string(),
        upstream_pool: pool.to_string(),
        ..RouteConfig::default()
    }
}

fn upstream(name: &str, url: &str) -> UpstreamConfig {
    UpstreamConfig { name: name.to_string(), url: url.to_string(), ..UpstreamConfig::default() }
}

fn pool(upstreams: Vec<UpstreamConfig>) -> UpstreamPoolConfig {
    UpstreamPoolConfig { upstreams, ..UpstreamPoolConfig::default() }
}

fn pools(entries: Vec<(&str, UpstreamPoolConfig)>) -> PoolMap {
    let mut map = PoolMap::new();
    for (name, pool) in entries {
        map.insert(name.to_string(), pool);
    }
    map
}

fn config(routes: Vec<RouteConfig>, upstream_pools: PoolMap) -> ProxyConfig {
    ProxyConfig { routes, upstream_pools, ..ProxyConfig::default() }
}

fn snapshot(config: ProxyConfig) -> Result<ConfigSnapshot, ConfigError> {
    ConfigSnapshot::new(config, &mut UpstreamIds::new())
}

fn root_with(u: UpstreamConfig) -> ProxyConfig {
    config(vec![route("root", "*", "/", "web")], pools(vec![("web", pool(vec![u]))]))
}

fn sample() -> ProxyConfig {
    let mut api = upstream("api-a", "http://127.0.0.1:9001");
    api.protocol = UpstreamProtocol::H1;
    api.weight = 2;
    let mut web = upstream("web-a", "http://127.0.0.1:9002");
    web.protocol = UpstreamProtocol::H2;
    web.weight = 1;
    config(
        vec![route("api", "example.com", "/api", "api"), route("root", "*", "/", "web")],
        pools(vec![("api", pool(vec![api])), ("web", pool(vec![web]))]),
    )
}

fn complaint(config: ProxyConfig) -> String {
    match config.validate() {
        Ok(()) => panic!("accepted"),
        Err(ConfigError::Validation(m)) => m,
        Err(_) => panic!("another error"),
    }
}

#[test]
fn upstream_states_have_unique_ids() {
    let c = config(
        vec![route("r", "*", "/", "web")],
        pools(vec![(
            "web",
            pool(vec![upstream("a", "http://127.0.0.1:9000"), upstream("b", "http://127.0.0.1:9001")]),
        )]),
    );
    let snap = snapshot(c).unwrap();
    let ups = snap.routes.all_upstreams();
    assert_eq!(ups.len(), 2);
    assert_ne!(snap.routes.upstream(ups[0]).id(), snap.routes.upstream(ups[1]).id());
}

#[test]
fn runtime_defaults_enable_zero_copy() {
    let cfg = RuntimeConfig::default();
    assert!(cfg.zero_copy);
    assert_eq!(cfg.liveness_probe_idle_ms, 250);
    assert_eq!(cfg.liveness_probe_idle().as_millis(), 250);
}

#[test]
fn runtime_omitted_fields_use_defaults() {
    let c = config(
        vec![route("r", "*", "/", "web")],
        pools(vec![("web", pool(vec![upstream("a", "http://127.0.0.1:9000")]))]),
    );
    let snap = snapshot(c).unwrap();
    assert!(snap.config.runtime.zero_copy);
}

#[test]
fn parses_and_matches_longest_route() {
    let snapshot = snapshot(sample()).unwrap();
    let matched = snapshot.routes.match_route(Some("example.com:443"), "/api/users").unwrap();
    assert_eq!(matched.route.name, "api");
}

#[test]
fn route_prefixes_require_segment_boundaries() {
    let snapshot = snapshot(sample()).unwrap();
    let matched = snapshot.routes.match_route(Some("example.com"), "/apiary").unwrap();
    assert_eq!(matched.route.name, "root");
    let matched = snapshot.routes.match_route(Some("example.com"), "/api?x=1").unwrap();
    assert_eq!(matched.route.name, "api");
}

#[test]
fn rejects_malformed_host_authority() {
    let snapshot = snapshot(sample()).unwrap();
    assert!(snapshot.routes.match_route(Some("example.com:bad"), "/api").is_none());
}

#[test]
fn rejects_unsupported_https_upstream_scheme() {
    let c = root_with(upstream("web-a", "https://127.0.0.1:9002"));
    assert_eq!(
        complaint(c),
        "upstream 'web-a' in pool 'web' url scheme must be http until upstream TLS is implemented"
    );
    assert!(snapshot(root_with(upstream("web-a", "https://127.0.0.1:9002"))).is_err());
}

#[test]
fn rejects_excessive_upstream_weight() {
    let mut u = upstream("web-a", "http://127.0.0.1:9002");
    u.weight = 10001;
    assert!(snapshot(root_with(u)).is_err());
    let mut u = upstream("web-a", "http://127.0.0.1:9002");
    u.weight = 10001;
    assert_eq!(
        complaint(root_with(u)),
        "upstream 'web-a' in pool 'web' weight must be <= 10000"
    );
}

#[test]
fn rejects_h3_without_explicit_opt_in() {
    let mut u = upstream("web-h3", "https://127.0.0.1:9443");
    u.protocol = UpstreamProtocol::H3;
    assert!(snapshot(root_with(u)).is_err());
    let mut u = upstream("web-h3", "http://127.0.0.1:9443");
    u.protocol = UpstreamProtocol::H3;
    assert_eq!(
        complaint(root_with(u)),
        "upstream 'web-h3' uses protocol h3 but opt_in_h3 is not true"
    );
}

#[test]
fn weighted_selection_marks_passive_failures() {
    let mut snapshot = snapshot(sample()).unwrap();
    let index = snapshot.routes.match_route(Some("example.com"), "/api").unwrap().index;
    let pool = snapshot.routes.routes[index].pool;
    let first = snapshot.routes.pool_mut(pool).select().unwrap();
    let at = UpstreamRef { pool, index: first };
    snapshot.routes.mark_failure(at);
    assert_eq!(snapshot.routes.upstream(at).passive_failures(), 1);
    snapshot.routes.mark_success(at);
    assert_eq!(snapshot.routes.upstream(at).passive_failures(), 0);
}

fn one_listener(engine: Http1Engine, protocols: Vec<ListenerProtocol>) -> ProxyConfig {
    let mut c = root_with(upstream("web-a", "http://127.0.0.1:9002"));
    c.listeners = vec![ListenerConfig {
        name: "fast".to_string(),
        bind: SocketAddr::new(IpAddr::v4(127, 0, 0, 1), 8080),
        protocols,
        http1_engine: engine,
        ..ListenerConfig::default()
    }];
    c
}

#[test]
fn validates_fast_http1_engine_shape() {
    let snapshot = snapshot(one_listener(Http1Engine::Fast, vec![ListenerProtocol::H1])).unwrap();
    assert_eq!(snapshot.config.listeners[0].http1_engine, Http1Engine::Fast);
}

#[test]
fn rejects_fast_http1_engine_for_mixed_protocols() {
    let protocols = vec![ListenerProtocol::H1, ListenerProtocol::H2];
    assert!(snapshot(one_listener(Http1Engine::Fast, protocols)).is_err());
    let protocols = vec![ListenerProtocol::H1, ListenerProtocol::H2];
    assert_eq!(
        complaint(one_listener(Http1Engine::Fast, protocols)),
        "listener 'fast' http1_engine = fast requires protocols = [\"h1\"]"
    );
}

#[test]
fn validates_uring_http1_engine_shape() {
    let mut c = one_listener(Http1Engine::Uring, vec![ListenerProtocol::H1]);
    c.listeners[0].name = "uring".to_string();
    let snapshot = snapshot(c).unwrap();
    assert_eq!(snapshot.config.listeners[0].http1_engine, Http1Engine::Uring);
}

fn edge_web() -> L4ServiceConfig {
    L4ServiceConfig {
        name: "edge-web".to_string(),
        domains: vec!["example.com".to_string(), "www.example.com".to_string()],
        vip: IpAddr::v4(192, 0, 2, 10),
        port: 443,
        protocol: L4Protocol::Tcp,
        scheduler: L4Scheduler::Wrr,
        mode: L4Mode::IpvsDsr,
        real_servers: vec![L4RealServerConfig {
            address: IpAddr::v4(10, 0, 0, 11),
            port: 443,
            weight: 2,
        }],
        ..L4ServiceConfig::default()
    }
}

#[test]
fn parses_l4_only_service() {
    let c = ProxyConfig { listeners: vec![], l4_services: vec![edge_web()], ..ProxyConfig::default() };
    let snapshot = snapshot(c).unwrap();
    assert!(snapshot.config.listeners.is_empty());
    assert_eq!(snapshot.config.l4_services[0].domains, ["example.com", "www.example.com"]);
    assert_eq!(snapshot.config.l4_services[0].real_servers[0].weight, 2);
}

#[test]
fn rejects_l4_listener_bind_conflict() {
    let mut c = one_listener(Http1Engine::Hyper, vec![ListenerProtocol::H1]);
    c.listeners[0].name = "public".to_string();
    c.listeners[0].bind = SocketAddr::new(IpAddr::v4(192, 0, 2, 10), 443);
    c.l4_services = vec![L4ServiceConfig {
        name: "edge-web".to_string(),
        domains: vec!["example.com".to_string()],
        vip: IpAddr::v4(192, 0, 2, 10),
        port: 443,
        real_servers: vec![L4RealServerConfig {
            address: IpAddr::v4(10, 0, 0, 11),
            port: 443,
            weight: 1,
        }],
        ..L4ServiceConfig::default()
    }];
    assert!(snapshot(c.clone()).is_err());
    assert_eq!(
        complaint(c),
        "l4_service 'edge-web' conflicts with listener 'public' on 192.0.2.10:443"
    );
}

#[test]
fn complaints_come_in_order() {
    let c = ProxyConfig { listeners: vec![], ..ProxyConfig::default() };
    assert_eq!(complaint(c), "at least one listener or l4_service must be configured");
    assert_eq!(
        complaint(ProxyConfig::default()),
        "at least one route must be configured when listeners are configured"
    );

    let mut c = one_listener(Http1Engine::Hyper, vec![ListenerProtocol::H1]);
    c.listeners.push(ListenerConfig { name: "fast".to_string(), ..ListenerConfig::default() });
    assert_eq!(complaint(c), "duplicate listener name 'fast'");

    assert_eq!(
        complaint(one_listener(Http1Engine::Hyper, vec![])),
        "listener 'fast' must enable at least one protocol"
    );

    let mut c = one_listener(Http1Engine::Uring, vec![ListenerProtocol::H1]);
    c.listeners[0].tls = true;
    assert_eq!(complaint(c), "listener 'fast' http1_engine = uring requires tls = false");

    let mut c = one_listener(Http1Engine::Hyper, vec![ListenerProtocol::H1]);
    c.listeners[0].accept_workers = 2;
    assert_eq!(complaint(c), "listener 'fast' must enable reuse_port when accept_workers > 1");

    let mut c = one_listener(Http1Engine::Hyper, vec![ListenerProtocol::H1]);
    c.listeners[0].backlog = 0;
    assert_eq!(complaint(c), "listener 'fast' backlog must be > 0");
}

fn l4_only(services: Vec<L4ServiceConfig>) -> ProxyConfig {
    ProxyConfig { listeners: vec![], l4_services: services, ..ProxyConfig::default() }
}

#[test]
fn complaints_about_l4_services() {
    assert_eq!(
        complaint(l4_only(vec![edge_web(), edge_web()])),
        "duplicate l4_service name 'edge-web'"
    );
    let mut other = edge_web();
    other.name = "other".to_string();
    assert_eq!(
        complaint(l4_only(vec![edge_web(), other])),
        "duplicate l4_service vip/port/protocol '192.0.2.10:443 tcp'"
    );
    let mut s = edge_web();
    s.domains = vec![];
    assert_eq!(complaint(l4_only(vec![s])), "l4_service 'edge-web' must list at least one domain");
    let mut s = edge_web();
    s.port = 0;
    assert_eq!(complaint(l4_only(vec![s])), "l4_service 'edge-web' port must be > 0");
    let mut s = edge_web();
    s.real_servers = vec![];
    assert_eq!(
        complaint(l4_only(vec![s])),
        "l4_service 'edge-web' must contain at least one real_server"
    );
    let mut s = edge_web();
    s.real_servers[0].port = 0;
    assert_eq!(
        complaint(l4_only(vec![s])),
        "real_server '10.0.0.11:0' in l4_service 'edge-web' port must be > 0"
    );
    let mut s = edge_web();
    s.real_servers[0].weight = 0;
    assert_eq!(
        complaint(l4_only(vec![s])),
        "real_server '10.0.0.11:443' in l4_service 'edge-web' weight must be > 0"
    );
}

#[test]
fn complaints_about_routes() {
    let web = || pools(vec![("web", pool(vec![upstream("a", "http://127.0.0.1:9000")]))]);
    let c = config(vec![route("r", "*", "/", "web"), route("r", "*", "/x", "web")], web());
    assert_eq!(complaint(c), "duplicate route name 'r'");
    let c = config(vec![route("r", "*", "x", "web")], web());
    assert_eq!(complaint(c), "route 'r' path_prefix must start with /");
    let c = config(vec![route("r", "user@host", "/", "web")], web());
    assert_eq!(complaint(c), "route 'r' host 'user@host' must be a valid HTTP authority host");
    let c = config(vec![route("r", "*", "/", "nowhere")], web());
    assert_eq!(complaint(c), "route 'r' references missing upstream_pool 'nowhere'");

    let mut r = route("r", "*", "/", "web");
    r.rate_limit = RateLimitConfig { enabled: true, capacity: 0, fill_rate_bits: 1.0f32.to_bits() };
    assert_eq!(complaint(config(vec![r], web())), "route 'r' rate_limit capacity must be > 0");
    for rate in [0.0f32, -0.0, -1.0, f32::INFINITY, f32::NAN, f32::NEG_INFINITY] {
        let mut r = route("r", "*", "/", "web");
        r.rate_limit = RateLimitConfig { enabled: true, capacity: 1, fill_rate_bits: rate.to_bits() };
        assert_eq!(
            complaint(config(vec![r], web())),
            "route 'r' rate_limit fill_rate must be finite and > 0"
        );
    }
    for rate in [f32::MIN_POSITIVE, f32::MAX, 10.0] {
        let mut r = route("r", "*", "/", "web");
        r.rate_limit = RateLimitConfig { enabled: true, capacity: 1, fill_rate_bits: rate.to_bits() };
        let snap = snapshot(config(vec![r], web())).unwrap();
        assert_eq!(snap.routes.routes[0].rate_limiter.as_ref().unwrap().capacity, 1);
    }
}

#[test]
fn complaints_about_pools() {
    let c = config(vec![route("root", "*", "/", "web")], pools(vec![("web", pool(vec![]))]));
    assert_eq!(complaint(c), "upstream pool 'web' must contain at least one upstream");
    let mut u = upstream("a", "http://127.0.0.1:9000");
    u.weight = 0;
    assert_eq!(complaint(root_with(u)), "upstream 'a' in pool 'web' must have weight > 0");
    assert_eq!(
        complaint(root_with(upstream("a", "http://a b"))),
        "upstream 'a' in pool 'web' has invalid url 'http://a b'"
    );
    assert_eq!(
        complaint(root_with(upstream("a", "/path"))),
        "upstream 'a' in pool 'web' url must include scheme and authority"
    );
    let many: Vec<UpstreamConfig> = (0..11)
        .map(|i| {
            let mut u = upstream(&format!("u{i}"), "http://127.0.0.1:9000");
            u.weight = 10_000;
            u
        })
        .collect();
    let c = config(vec![route("root", "*", "/", "web")], pools(vec![("web", pool(many))]));
    assert_eq!(complaint(c), "upstream pool 'web' total weight must be <= 100000");

    // Pools are looked at in the order of their names.
    let c = config(
        vec![route("root", "*", "/", "a")],
        pools(vec![("b", pool(vec![])), ("a", pool(vec![]))]),
    );
    assert_eq!(complaint(c), "upstream pool 'a' must contain at least one upstream");

    let mut c = root_with(upstream("a", "http://127.0.0.1:9000"));
    c.admin.auth_token = Some(String::new());
    assert_eq!(complaint(c), "admin auth_token must not be empty when configured");
}

#[test]
fn errors_are_shown() {
    let e = ConfigError::Validation("x".to_string());
    assert_eq!(e.message(), "invalid config: x");
    let e = ConfigError::Read { path: "p".to_string(), source: "s".to_string() };
    assert_eq!(e.message(), "failed to read config p: s");
    let e = ConfigError::Parse { path: "p".to_string(), source: "s".to_string() };
    assert_eq!(e.message(), "failed to parse TOML config p: s");
}

#[test]
fn longest_prefix_wins() {
    let web = pools(vec![("web", pool(vec![upstream("a", "http://127.0.0.1:9000")]))]);
    let c = config(
        vec![
            route("short", "*", "/a", "web"),
            route("long", "*", "/a/b", "web"),
            route("host", "Example.COM", "/", "web"),
            route("root", "*", "/", "web"),
        ],
        web,
    );
    let snap = snapshot(c).unwrap();
    let names: Vec<String> = snap.routes.debug_routes().into_iter().map(|r| r.name).collect();
    assert_eq!(names, ["long", "short", "host", "root"]);
    assert!(snap.routes.requires_host_match());
    assert_eq!(snap.routes.match_route(None, "/a/b/c").unwrap().route.name, "long");
    assert_eq!(snap.routes.match_route(None, "/a/c").unwrap().route.name, "short");
    assert_eq!(snap.routes.match_route(None, "/ab").unwrap().route.name, "root");
    // A host's own route goes before every wildcard route.
    assert_eq!(snap.routes.match_route(Some("example.com"), "/a/b").unwrap().route.name, "host");
    assert_eq!(snap.routes.match_route(Some("EXAMPLE.com:80"), "/a/b").unwrap().route.name, "host");
    assert!(snap.routes.match_route(Some("u@example.com"), "/a/b").is_none());
    assert!(snap.routes.match_route(None, "a").is_none());
    assert!(snap.routes.match_lookup(&HostLookup::Malformed, "/a").is_none());
}

#[test]
fn equal_prefixes_keep_their_order() {
    let web = pools(vec![("web", pool(vec![upstream("a", "http://127.0.0.1:9000")]))]);
    let c = config(
        vec![
            route("first", "*", "/a", "web"),
            route("second", "*", "/a", "web"),
            route("longer", "*", "/a/b", "web"),
            route("third", "*", "/c", "web"),
        ],
        web,
    );
    let snap = snapshot(c).unwrap();
    let names: Vec<String> = snap.routes.debug_routes().into_iter().map(|r| r.name).collect();
    assert_eq!(names, ["longer", "first", "second", "third"]);
    assert_eq!(snap.routes.match_route(None, "/a").unwrap().route.name, "first");
}

#[test]
fn single_wildcard_root_takes_all() {
    let snap = snapshot(root_with(upstream("a", "http://127.0.0.1:9000"))).unwrap();
    assert!(!snap.routes.requires_host_match());
    assert_eq!(snap.routes.match_route(Some("::bad::"), "*").unwrap().route.name, "root");
}

#[test]
fn path_rules() {
    assert!(path_matches_prefix("/api", "/api"));
    assert!(path_matches_prefix("/api/x", "/api"));
    assert!(!path_matches_prefix("/apix", "/api"));
    assert!(!path_matches_prefix("/ap", "/api"));
    assert!(path_matches_prefix("/anything", "/"));
    assert!(!path_matches_prefix("anything", "/"));
    assert_eq!(path_for_upstream("", "/x?y"), "/x?y");
    assert_eq!(path_for_upstream("", "x"), "/x");
    assert_eq!(path_for_upstream("/base", "//x"), "/base/x");
    assert_eq!(path_for_upstream("/base", "/"), "/base");
}

#[test]
fn joins_upstream_base_path() {
    let mut snap = snapshot(root_with(upstream("web-a", "http://127.0.0.1:9000/base"))).unwrap();
    let index = snap.routes.match_route(None, "/api?q=1").unwrap().index;
    let pool = snap.routes.routes[index].pool;
    let chosen = snap.routes.pool_mut(pool).select().unwrap();
    let upstream = snap.routes.upstream(UpstreamRef { pool, index: chosen });
    let uri = upstream.build_uri("/api?q=1").unwrap();
    assert_eq!(uri.text, "http://127.0.0.1:9000/base/api?q=1");
    assert_eq!(uri.path, "/base/api");
    assert_eq!(uri.host.as_deref(), Some("127.0.0.1"));
    assert_eq!(uri.port, Some(9000));
    assert_eq!(upstream.authority(), "127.0.0.1:9000");
    assert_eq!(upstream.host_header(), "127.0.0.1:9000");
    assert_eq!(upstream.upstream_path_and_query("/x"), "/base/x");
    assert!(upstream.build_uri("/a b").is_none());
}

#[test]
fn rotation_follows_the_weights() {
    let mut a = upstream("a", "http://127.0.0.1:1");
    a.weight = 2;
    let b = upstream("b", "http://127.0.0.1:2");
    let c = config(
        vec![route("root", "*", "/", "web")],
        pools(vec![("web", pool(vec![a, b]))]),
    );
    let mut snap = snapshot(c).unwrap();
    let pool = snap.routes.pool_mut(0);
    let turns: Vec<Option<usize>> = (0..6).map(|_| pool.select()).collect();
    assert_eq!(turns, [Some(0), Some(0), Some(1), Some(0), Some(0), Some(1)]);
    assert_eq!(pool.upstreams().len(), 2);
    // Three failures in a row take an upstream out of the rotation.
    for _ in 0..3 {
        pool.upstreams[0].mark_failure();
    }
    assert!(!pool.upstreams[0].is_available(3));
    assert_eq!(pool.select(), Some(1));
    assert_eq!(pool.select(), Some(1));
    // Where none is available, the first of the rotation is used.
    pool.upstreams[1].set_active_healthy(false);
    assert!(!pool.upstreams[1].is_active_healthy());
    assert_eq!(pool.select(), Some(0));
    let mut empty = pool;
    empty.upstreams.clear();
    empty.expanded.clear();
    empty = &mut *empty;
    assert_eq!(empty.select(), None);
}

#[test]
fn connect_address_is_found_once() {
    let mut snap = snapshot(root_with(upstream("a", "http://127.0.0.1:9000"))).unwrap();
    let at = UpstreamRef { pool: 0, index: 0 };
    let first = SocketAddr::new(IpAddr::v4(10, 0, 0, 1), 1);
    let second = SocketAddr::new(IpAddr::v4(10, 0, 0, 2), 2);
    assert_eq!(snap.routes.connect_addr(at, first), first);
    assert_eq!(snap.routes.connect_addr(at, second), first);
}

#[test]
fn ids_go_on_from_snapshot_to_snapshot() {
    let mut ids = UpstreamIds::new();
    let a = ConfigSnapshot::new(sample(), &mut ids).unwrap();
    let b = ConfigSnapshot::new(sample(), &mut ids).unwrap();
    let mut all: Vec<usize> = Vec::new();
    for s in [&a, &b] {
        for at in s.routes.all_upstreams() {
            all.push(s.routes.upstream(at).id());
        }
    }
    assert_eq!(all, [0, 1, 2, 3]);
    assert!(ConfigSnapshot::new(ProxyConfig::default(), &mut ids).is_err());
    assert_eq!(ids.next, 4);
}

#[test]
fn unrouted_pools_are_not_listed() {
    let c = config(
        vec![route("x", "*", "/", "b"), route("y", "*", "/y", "b")],
        pools(vec![
            ("a", pool(vec![upstream("a", "http://127.0.0.1:1")])),
            ("b", pool(vec![upstream("b", "http://127.0.0.1:2"), upstream("c", "http://127.0.0.1:3")])),
        ]),
    );
    let snap = snapshot(c).unwrap();
    let all = snap.routes.all_upstreams();
    assert_eq!(
        all,
        [UpstreamRef { pool: 1, index: 0 }, UpstreamRef { pool: 1, index: 1 }]
    );
}

#[test]
fn pool_map_keeps_names_sorted() {
    let mut map = pools(vec![("b", pool(vec![])), ("a", pool(vec![])), ("c", pool(vec![]))]);
    assert_eq!(map.len(), 3);
    assert_eq!([map.name_at(0), map.name_at(1), map.name_at(2)], ["a", "b", "c"]);
    map.insert("b".to_string(), UpstreamPoolConfig { passive_failure_threshold: 7, upstreams: vec![] });
    assert_eq!(map.len(), 3);
    assert_eq!(map.get("b").unwrap().passive_failure_threshold, 7);
    assert_eq!(map.position("c"), Some(2));
    assert!(map.contains_key("a"));
    assert!(map.get("d").is_none());
}

#[test]
fn defaults() {
    let l = ListenerConfig::default();
    assert_eq!(l.name, "public");
    assert_eq!(l.bind.to_text(), "127.0.0.1:8080");
    assert_eq!(l.backlog, 4096);
    let s = L4ServiceConfig::default();
    assert_eq!((s.name.as_str(), s.port), ("l4-service", 80));
    assert_eq!(s.vip.to_text(), "127.0.0.1");
    assert_eq!(L4RealServerConfig::default().weight, 1);
    assert_eq!(L4HealthCheckConfig::default().path, "/healthz");
    assert_eq!(L4HealthCheckKind::default(), L4HealthCheckKind::Tcp);
    assert_eq!(L4Protocol::default().as_str(), "tcp");
    assert_eq!(L4Protocol::Udp.as_str(), "udp");
    assert_eq!(L4Scheduler::default().as_str(), "wrr");
    assert_eq!(L4Scheduler::Rr.as_str(), "rr");
    assert_eq!(L4Scheduler::Sh.as_str(), "sh");
    assert_eq!(L4Mode::default(), L4Mode::IpvsDsr);
    assert_eq!(Http1Engine::default().as_str(), "hyper");
    assert!(!TlsConfig::default().keylog);
    assert_eq!(AcmeConfig::default().renew_before_days, 30);
    assert_eq!(CertConfig::default().cert_path, "");
    assert_eq!(f32::from_bits(RateLimitConfig::default().fill_rate_bits), 10.0);
    assert_eq!(RouteConfig::default().path_prefix, "/");
    assert_eq!(UpstreamPoolConfig::default().passive_failure_threshold, 3);
    assert_eq!(UpstreamConfig::default().url, "http://127.0.0.1:8081");
    assert_eq!(UpstreamProtocol::default(), UpstreamProtocol::H1);
    assert_eq!(HealthCheckConfig::default().interval_ms, 10_000);
    assert_eq!(AdminConfig::default().bind.to_text(), "127.0.0.1:9080");
    assert!(TelemetryConfig::default().prometheus);
    assert_eq!(RuntimeConfig::default().drain_timeout().as_millis(), 30_000);
    assert_eq!(ProxyConfig::default().listeners.len(), 1);
}
