//! The configuration as plain data, and the defaults of every field.

use crate::addr::{IpAddr, SocketAddr};
use crate::config::pools::PoolMap;
use crate::text::cat5;
use crate::time::Duration;
use vstd::prelude::*;
use vstd::string::*;

verus! {

/// Why a configuration was refused.
#[derive(Debug)]
pub enum ConfigError {
    /// The file could not be read.
    Read { path: String, source: String },
    /// The file is not a TOML configuration.
    Parse { path: String, source: String },
    /// The configuration breaks a rule.
    Validation(String),
}

impl ConfigError {
    /// What is shown to the operator.
    pub open spec fn text(&self) -> Seq<char> {
        match self {
            ConfigError::Read { path, source } => "failed to read config "@ + path@ + ": "@
                + source@,
            ConfigError::Parse { path, source } => "failed to parse TOML config "@ + path@ + ": "@
                + source@,
            ConfigError::Validation(issue) => "invalid config: "@ + issue@,
        }
    }

    /// What is shown to the operator.
    pub fn message(&self) -> (s: String)
        ensures
            s@ == self.text(),
    {
        match self {
            ConfigError::Read { path, source } => {
                let s = cat5("failed to read config ", path.as_str(), ": ", source.as_str(), "");
                proof {
                    reveal_strlit("");
                    assert(s@ =~= self.text());
                }
                s
            },
            ConfigError::Parse { path, source } => {
                let s = cat5(
                    "failed to parse TOML config ",
                    path.as_str(),
                    ": ",
                    source.as_str(),
                    "",
                );
                proof {
                    reveal_strlit("");
                    assert(s@ =~= self.text());
                }
                s
            },
            ConfigError::Validation(issue) => crate::text::cat("invalid config: ", issue.as_str()),
        }
    }
}

/// The whole configuration.
#[derive(Clone, Debug)]
pub struct ProxyConfig {
    pub listeners: Vec<ListenerConfig>,
    pub l4_services: Vec<L4ServiceConfig>,
    pub tls: TlsConfig,
    pub routes: Vec<RouteConfig>,
    pub upstream_pools: PoolMap,
    pub admin: AdminConfig,
    pub telemetry: TelemetryConfig,
    pub runtime: RuntimeConfig,
}

/// An address the proxy listens on.
#[derive(Clone, Debug)]
pub struct ListenerConfig {
    pub name: String,
    pub bind: SocketAddr,
    pub protocols: Vec<ListenerProtocol>,
    pub http1_engine: Http1Engine,
    pub tls: bool,
    pub reuse_port: bool,
    pub accept_workers: usize,
    pub backlog: u32,
    pub interface: Option<String>,
}

/// A protocol that a listener speaks.
#[derive(Clone, Copy, Debug, PartialEq, Eq, Structural)]
pub enum ListenerProtocol {
    H1,
    H2,
    H3,
}

/// The engine that serves HTTP/1.1 on a listener.
#[derive(Clone, Copy, Debug, PartialEq, Eq, Structural)]
pub enum Http1Engine {
    Hyper,
    Fast,
    Uring,
}

impl Http1Engine {
    /// The name of the engine in the configuration.
    pub open spec fn text(self) -> Seq<char> {
        match self {
            Http1Engine::Hyper => "hyper"@,
            Http1Engine::Fast => "fast"@,
            Http1Engine::Uring => "uring"@,
        }
    }

    /// The name of the engine in the configuration.
    pub fn as_str(&self) -> (s: &'static str)
        ensures
            s@ == self.text(),
    {
        match self {
            Http1Engine::Hyper => "hyper",
            Http1Engine::Fast => "fast",
            Http1Engine::Uring => "uring",
        }
    }
}

/// A layer-4 virtual service.
#[derive(Debug)]
pub struct L4ServiceConfig {
    pub name: String,
    pub domains: Vec<String>,
    pub vip: IpAddr,
    pub port: u16,
    pub protocol: L4Protocol,
    pub scheduler: L4Scheduler,
    pub mode: L4Mode,
    pub real_servers: Vec<L4RealServerConfig>,
    pub health_check: L4HealthCheckConfig,
}

/// The transport of a layer-4 service.
#[derive(Clone, Copy, Debug, PartialEq, Eq, Hash, Structural)]
pub enum L4Protocol {
    Tcp,
    Udp,
}

impl L4Protocol {
    /// The name of the transport.
    pub open spec fn text(self) -> Seq<char> {
        match self {
            L4Protocol::Tcp => "tcp"@,
            L4Protocol::Udp => "udp"@,
        }
    }

    /// The name of the transport.
    pub fn as_str(&self) -> (s: &'static str)
        ensures
            s@ == self.text(),
    {
        match self {
            L4Protocol::Tcp => "tcp",
            L4Protocol::Udp => "udp",
        }
    }
}

/// How a layer-4 service picks a real server.
#[derive(Clone, Copy, Debug, PartialEq, Eq, Structural)]
pub enum L4Scheduler {
    Rr,
    Wrr,
    Sh,
}

impl L4Scheduler {
    /// The scheduler's name.
    pub open spec fn text(self) -> Seq<char> {
        match self {
            L4Scheduler::Rr => "rr"@,
            L4Scheduler::Wrr => "wrr"@,
            L4Scheduler::Sh => "sh"@,
        }
    }

    /// The scheduler's name.
    pub fn as_str(&self) -> (s: &'static str)
        ensures
            s@ == self.text(),
    {
        match self {
            L4Scheduler::Rr => "rr",
            L4Scheduler::Wrr => "wrr",
            L4Scheduler::Sh => "sh",
        }
    }
}

/// How a layer-4 service forwards packets.
#[derive(Clone, Copy, Debug, PartialEq, Eq, Structural)]
pub enum L4Mode {
    IpvsDsr,
}

/// A real server behind a layer-4 service.
#[derive(Clone, Copy, Debug)]
pub struct L4RealServerConfig {
    pub address: IpAddr,
    pub port: u16,
    pub weight: u32,
}

/// The health check of a layer-4 service.
#[derive(Debug)]
pub struct L4HealthCheckConfig {
    pub enabled: bool,
    pub kind: L4HealthCheckKind,
    pub path: String,
    pub interval_ms: u64,
    pub timeout_ms: u64,
}

impl Clone for L4HealthCheckConfig {
    fn clone(&self) -> (r: Self)
        ensures
            r == *self,
    {
        L4HealthCheckConfig {
            enabled: self.enabled,
            kind: self.kind,
            path: self.path.clone(),
            interval_ms: self.interval_ms,
            timeout_ms: self.timeout_ms,
        }
    }
}

/// What a layer-4 health check speaks.
#[derive(Clone, Copy, Debug, PartialEq, Eq, Structural)]
pub enum L4HealthCheckKind {
    Tcp,
    Http,
}

/// Certificates and their diagnostics.
#[derive(Clone, Debug)]
pub struct TlsConfig {
    pub acme: AcmeConfig,
    pub certs: Vec<CertConfig>,
    pub keylog: bool,
    pub qlog_dir: Option<String>,
}

/// Automatic certificate management.
#[derive(Clone, Debug)]
pub struct AcmeConfig {
    pub enabled: bool,
    pub directory_url: String,
    pub contact: Vec<String>,
    pub storage_dir: String,
    pub renew_before_days: u64,
}

/// A certificate with its key and the domains it covers.
#[derive(Clone, Debug)]
pub struct CertConfig {
    pub domains: Vec<String>,
    pub cert_path: String,
    pub key_path: String,
}

/// A token bucket per client address.
#[derive(Clone, Copy, Debug, PartialEq, Eq, Structural)]
pub struct RateLimitConfig {
    pub enabled: bool,
    pub capacity: u32,
    /// Tokens per second, as the bits of an IEEE 754 single.
    pub fill_rate_bits: u32,
}

/// A route: a host and a path prefix that lead to a pool.
#[derive(Debug)]
pub struct RouteConfig {
    pub name: String,
    pub host: String,
    pub path_prefix: String,
    pub upstream_pool: String,
    pub rate_limit: RateLimitConfig,
}

impl Clone for RouteConfig {
    fn clone(&self) -> (r: Self)
        ensures
            r == *self,
    {
        RouteConfig {
            name: self.name.clone(),
            host: self.host.clone(),
            path_prefix: self.path_prefix.clone(),
            upstream_pool: self.upstream_pool.clone(),
            rate_limit: self.rate_limit,
        }
    }
}

/// A set of upstreams that share traffic by weight.
#[derive(Debug)]
pub struct UpstreamPoolConfig {
    pub upstreams: Vec<UpstreamConfig>,
    pub passive_failure_threshold: u32,
}

impl Clone for UpstreamPoolConfig {
    fn clone(&self) -> (r: Self)
        ensures
            r.upstreams@ == self.upstreams@,
            r.passive_failure_threshold == self.passive_failure_threshold,
    {
        let mut upstreams: Vec<UpstreamConfig> = Vec::new();
        let mut i: usize = 0;
        while i < self.upstreams.len()
            invariant
                i <= self.upstreams.len(),
                upstreams@ == self.upstreams@.take(i as int),
            decreases self.upstreams.len() - i,
        {
            upstreams.push(self.upstreams[i].clone());
            i = i + 1;
            proof {
                assert(self.upstreams@.take(i as int) =~= self.upstreams@.take(i - 1).push(
                    self.upstreams@[i - 1],
                ));
            }
        }
        proof {
            assert(self.upstreams@.take(i as int) =~= self.upstreams@);
        }
        UpstreamPoolConfig {
            upstreams,
            passive_failure_threshold: self.passive_failure_threshold,
        }
    }
}

/// One upstream server.
#[derive(Debug)]
pub struct UpstreamConfig {
    pub name: String,
    pub url: String,
    pub protocol: UpstreamProtocol,
    pub opt_in_h3: bool,
    pub weight: u32,
    pub connect_timeout_ms: u64,
    pub request_timeout_ms: u64,
    pub health_check: HealthCheckConfig,
}

impl Clone for UpstreamConfig {
    fn clone(&self) -> (r: Self)
        ensures
            r == *self,
    {
        UpstreamConfig {
            name: self.name.clone(),
            url: self.url.clone(),
            protocol: self.protocol,
            opt_in_h3: self.opt_in_h3,
            weight: self.weight,
            connect_timeout_ms: self.connect_timeout_ms,
            request_timeout_ms: self.request_timeout_ms,
            health_check: self.health_check.clone(),
        }
    }
}

/// The protocol spoken to an upstream.
#[derive(Clone, Copy, Debug, PartialEq, Eq, Structural)]
pub enum UpstreamProtocol {
    H1,
    H2,
    H3,
}

/// The active health check of an upstream.
#[derive(Debug)]
pub struct HealthCheckConfig {
    pub enabled: bool,
    pub path: String,
    pub interval_ms: u64,
    pub timeout_ms: u64,
}

impl Clone for HealthCheckConfig {
    fn clone(&self) -> (r: Self)
        ensures
            r == *self,
    {
        HealthCheckConfig {
            enabled: self.enabled,
            path: self.path.clone(),
            interval_ms: self.interval_ms,
            timeout_ms: self.timeout_ms,
        }
    }
}

/// The admin API.
#[derive(Clone, Debug)]
pub struct AdminConfig {
    pub bind: SocketAddr,
    pub enabled: bool,
    pub auth_token: Option<String>,
}

/// Logging and metrics.
#[derive(Clone, Copy, Debug)]
pub struct TelemetryConfig {
    pub json_tracing: bool,
    pub prometheus: bool,
    pub access_log: bool,
}

/// Settings of the process.
#[derive(Clone, Copy, Debug)]
pub struct RuntimeConfig {
    pub drain_timeout_ms: u64,
    pub zero_copy: bool,
    pub liveness_probe_idle_ms: u64,
}

impl RuntimeConfig {
    /// How long connections may finish after a shutdown was asked for.
    pub fn drain_timeout(&self) -> (r: Duration)
        ensures
            r.nanos == self.drain_timeout_ms * 1_000_000,
    {
        Duration::from_millis(self.drain_timeout_ms)
    }

    /// How long a pooled connection may be idle before it is probed.
    pub fn liveness_probe_idle(&self) -> (r: Duration)
        ensures
            r.nanos == self.liveness_probe_idle_ms * 1_000_000,
    {
        Duration::from_millis(self.liveness_probe_idle_ms)
    }
}

// ------------------------------------------------------------------- defaults

impl Default for ProxyConfig {
    fn default() -> (r: Self)
        ensures
            r.listeners@.len() == 1,
            r.listeners@[0].is_default(),
            r.l4_services@.len() == 0,
            r.tls.is_default(),
            r.routes@.len() == 0,
            r.upstream_pools@.len() == 0,
            r.admin.is_default(),
            r.telemetry == (TelemetryConfig {
                json_tracing: false,
                prometheus: true,
                access_log: false,
            }),
            r.runtime == (RuntimeConfig {
                drain_timeout_ms: 30_000,
                zero_copy: true,
                liveness_probe_idle_ms: 250,
            }),
    {
        let mut listeners = Vec::new();
        listeners.push(ListenerConfig::default());
        ProxyConfig {
            listeners,
            l4_services: Vec::new(),
            tls: TlsConfig::default(),
            routes: Vec::new(),
            upstream_pools: PoolMap::new(),
            admin: AdminConfig::default(),
            telemetry: TelemetryConfig::default(),
            runtime: RuntimeConfig::default(),
        }
    }
}

impl ListenerConfig {
    /// The listener that a configuration without listeners gets.
    pub open spec fn is_default(&self) -> bool {
        &&& self.name@ == "public"@
        &&& self.bind == SocketAddr::V4 { ip: 0x7f00_0001, port: 8080 }
        &&& self.protocols@ == seq![ListenerProtocol::H1, ListenerProtocol::H2]
        &&& self.http1_engine == Http1Engine::Hyper
        &&& !self.tls
        &&& !self.reuse_port
        &&& self.accept_workers == 1
        &&& self.backlog == 4096
        &&& self.interface is None
    }
}

impl Default for ListenerConfig {
    fn default() -> (r: Self)
        ensures
            r.is_default(),
    {
        let mut protocols = Vec::new();
        protocols.push(ListenerProtocol::H1);
        protocols.push(ListenerProtocol::H2);
        proof {
            assert(protocols@ =~= seq![ListenerProtocol::H1, ListenerProtocol::H2]);
        }
        ListenerConfig {
            name: "public".to_owned(),
            bind: SocketAddr::V4 { ip: 0x7f00_0001, port: 8080 },
            protocols,
            http1_engine: Http1Engine::Hyper,
            tls: false,
            reuse_port: false,
            accept_workers: 1,
            backlog: 4096,
            interface: None,
        }
    }
}

impl Default for Http1Engine {
    fn default() -> (r: Self)
        ensures
            r == Http1Engine::Hyper,
    {
        Http1Engine::Hyper
    }
}

impl Default for L4ServiceConfig {
    fn default() -> (r: Self)
        ensures
            r.name@ == "l4-service"@,
            r.domains@.len() == 0,
            r.vip == IpAddr::V4(0x7f00_0001),
            r.port == 80,
            r.protocol == L4Protocol::Tcp,
            r.scheduler == L4Scheduler::Wrr,
            r.mode == L4Mode::IpvsDsr,
            r.real_servers@.len() == 0,
            r.health_check.is_default(),
    {
        L4ServiceConfig {
            name: "l4-service".to_owned(),
            domains: Vec::new(),
            vip: IpAddr::V4(0x7f00_0001),
            port: 80,
            protocol: L4Protocol::Tcp,
            scheduler: L4Scheduler::Wrr,
            mode: L4Mode::IpvsDsr,
            real_servers: Vec::new(),
            health_check: L4HealthCheckConfig::default(),
        }
    }
}

impl Default for L4Protocol {
    fn default() -> (r: Self)
        ensures
            r == L4Protocol::Tcp,
    {
        L4Protocol::Tcp
    }
}

impl Default for L4Scheduler {
    fn default() -> (r: Self)
        ensures
            r == L4Scheduler::Wrr,
    {
        L4Scheduler::Wrr
    }
}

impl Default for L4Mode {
    fn default() -> (r: Self)
        ensures
            r == L4Mode::IpvsDsr,
    {
        L4Mode::IpvsDsr
    }
}

impl Default for L4RealServerConfig {
    fn default() -> (r: Self)
        ensures
            r.address == IpAddr::V4(0x7f00_0001),
            r.port == 80,
            r.weight == 1,
    {
        L4RealServerConfig { address: IpAddr::V4(0x7f00_0001), port: 80, weight: 1 }
    }
}

impl L4HealthCheckConfig {
    /// No check; over TCP every ten seconds once switched on.
    pub open spec fn is_default(&self) -> bool {
        &&& !self.enabled
        &&& self.kind == L4HealthCheckKind::Tcp
        &&& self.path@ == "/healthz"@
        &&& self.interval_ms == 10_000
        &&& self.timeout_ms == 2_000
    }
}

impl Default for L4HealthCheckConfig {
    fn default() -> (r: Self)
        ensures
            r.is_default(),
    {
        L4HealthCheckConfig {
            enabled: false,
            kind: L4HealthCheckKind::Tcp,
            path: "/healthz".to_owned(),
            interval_ms: 10_000,
            timeout_ms: 2_000,
        }
    }
}

impl Default for L4HealthCheckKind {
    fn default() -> (r: Self)
        ensures
            r == L4HealthCheckKind::Tcp,
    {
        L4HealthCheckKind::Tcp
    }
}

impl TlsConfig {
    /// No certificates and no diagnostics.
    pub open spec fn is_default(&self) -> bool {
        self.acme.is_default() && self.certs@.len() == 0 && !self.keylog && self.qlog_dir is None
    }
}

impl Default for TlsConfig {
    fn default() -> (r: Self)
        ensures
            r.is_default(),
    {
        TlsConfig { acme: AcmeConfig::default(), certs: Vec::new(), keylog: false, qlog_dir: None }
    }
}

impl AcmeConfig {
    /// Switched off; the staging directory once switched on.
    pub open spec fn is_default(&self) -> bool {
        &&& !self.enabled
        &&& self.directory_url@ == "https://acme-staging-v02.api.letsencrypt.org/directory"@
        &&& self.contact@.len() == 0
        &&& self.storage_dir@ == "/var/lib/yxorp/acme"@
        &&& self.renew_before_days == 30
    }
}

impl Default for AcmeConfig {
    fn default() -> (r: Self)
        ensures
            r.is_default(),
    {
        AcmeConfig {
            enabled: false,
            directory_url: "https://acme-staging-v02.api.letsencrypt.org/directory".to_owned(),
            contact: Vec::new(),
            storage_dir: "/var/lib/yxorp/acme".to_owned(),
            renew_before_days: 30,
        }
    }
}

impl Default for CertConfig {
    fn default() -> (r: Self)
        ensures
            r.domains@.len() == 0,
            r.cert_path@.len() == 0,
            r.key_path@.len() == 0,
    {
        CertConfig { domains: Vec::new(), cert_path: String::new(), key_path: String::new() }
    }
}

impl Default for RateLimitConfig {
    fn default() -> (r: Self)
        ensures
            !r.enabled,
            r.capacity == 100,
            r.fill_rate_bits == 0x4120_0000,
    {
        RateLimitConfig { enabled: false, capacity: 100, fill_rate_bits: 0x4120_0000 }
    }
}

impl Default for RouteConfig {
    fn default() -> (r: Self)
        ensures
            r.name@ == "default"@,
            r.host@ == "*"@,
            r.path_prefix@ == "/"@,
            r.upstream_pool@ == "default"@,
            r.rate_limit == (RateLimitConfig {
                enabled: false,
                capacity: 100,
                fill_rate_bits: 0x4120_0000,
            }),
    {
        RouteConfig {
            name: "default".to_owned(),
            host: "*".to_owned(),
            path_prefix: "/".to_owned(),
            upstream_pool: "default".to_owned(),
            rate_limit: RateLimitConfig::default(),
        }
    }
}

impl Default for UpstreamPoolConfig {
    fn default() -> (r: Self)
        ensures
            r.upstreams@.len() == 0,
            r.passive_failure_threshold == 3,
    {
        UpstreamPoolConfig { upstreams: Vec::new(), passive_failure_threshold: 3 }
    }
}

impl Default for UpstreamConfig {
    fn default() -> (r: Self)
        ensures
            r.name@ == "upstream"@,
            r.url@ == "http://127.0.0.1:8081"@,
            r.protocol == UpstreamProtocol::H1,
            !r.opt_in_h3,
            r.weight == 1,
            r.connect_timeout_ms == 2_000,
            r.request_timeout_ms == 30_000,
            r.health_check.is_default(),
    {
        UpstreamConfig {
            name: "upstream".to_owned(),
            url: "http://127.0.0.1:8081".to_owned(),
            protocol: UpstreamProtocol::H1,
            opt_in_h3: false,
            weight: 1,
            connect_timeout_ms: 2_000,
            request_timeout_ms: 30_000,
            health_check: HealthCheckConfig::default(),
        }
    }
}

impl Default for UpstreamProtocol {
    fn default() -> (r: Self)
        ensures
            r == UpstreamProtocol::H1,
    {
        UpstreamProtocol::H1
    }
}

impl HealthCheckConfig {
    /// No check; every ten seconds once switched on.
    pub open spec fn is_default(&self) -> bool {
        &&& !self.enabled
        &&& self.path@ == "/healthz"@
        &&& self.interval_ms == 10_000
        &&& self.timeout_ms == 2_000
    }
}

impl Default for HealthCheckConfig {
    fn default() -> (r: Self)
        ensures
            r.is_default(),
    {
        HealthCheckConfig {
            enabled: false,
            path: "/healthz".to_owned(),
            interval_ms: 10_000,
            timeout_ms: 2_000,
        }
    }
}

impl AdminConfig {
    /// On the loopback interface, without a token.
    pub open spec fn is_default(&self) -> bool {
        &&& self.bind == SocketAddr::V4 { ip: 0x7f00_0001, port: 9080 }
        &&& self.enabled
        &&& self.auth_token is None
    }
}

impl Default for AdminConfig {
    fn default() -> (r: Self)
        ensures
            r.is_default(),
    {
        AdminConfig {
            bind: SocketAddr::V4 { ip: 0x7f00_0001, port: 9080 },
            enabled: true,
            auth_token: None,
        }
    }
}

impl Default for TelemetryConfig {
    fn default() -> (r: Self)
        ensures
            !r.json_tracing,
            r.prometheus,
            !r.access_log,
    {
        TelemetryConfig { json_tracing: false, prometheus: true, access_log: false }
    }
}

impl Default for RuntimeConfig {
    fn default() -> (r: Self)
        ensures
            r.drain_timeout_ms == 30_000,
            r.zero_copy,
            r.liveness_probe_idle_ms == 250,
    {
        RuntimeConfig { drain_timeout_ms: 30_000, zero_copy: true, liveness_probe_idle_ms: 250 }
    }
}

// ----------------------------------------------------------------------- laws

/// What a listener is without being told: open to this machine on 8080, for HTTP/1.1 and
/// HTTP/2, by the general engine, in the clear.
pub proof fn listeners_by_default(l: ListenerConfig)
    requires
        call_ensures(<ListenerConfig as Default>::default, (), l),
    ensures
        l.name@ == "public"@,
        l.bind == (SocketAddr::V4 { ip: 2130706433, port: 8080 }),
        l.protocols@ == seq![ListenerProtocol::H1, ListenerProtocol::H2],
        l.http1_engine == Http1Engine::Hyper,
        !l.tls,
        !l.reuse_port,
        l.accept_workers == 1,
        l.backlog == 4096,
        l.interface is None,
{
}

/// What a pool and an upstream are without being told: three failures in a row, weight one, two
/// seconds to connect and thirty to answer, and no checks.
pub proof fn upstreams_by_default(
    p: UpstreamPoolConfig,
    u: UpstreamConfig,
    h: HealthCheckConfig,
    l: RateLimitConfig,
)
    requires
        call_ensures(<UpstreamPoolConfig as Default>::default, (), p),
        call_ensures(<UpstreamConfig as Default>::default, (), u),
        call_ensures(<HealthCheckConfig as Default>::default, (), h),
        call_ensures(<RateLimitConfig as Default>::default, (), l),
    ensures
        p.upstreams@.len() == 0,
        p.passive_failure_threshold == 3,
        u.name@ == "upstream"@,
        u.url@ == "http://127.0.0.1:8081"@,
        u.protocol == UpstreamProtocol::H1,
        !u.opt_in_h3,
        u.weight == 1,
        u.connect_timeout_ms == 2000,
        u.request_timeout_ms == 30000,
        !h.enabled,
        h.path@ == "/healthz"@,
        h.interval_ms == 10000,
        h.timeout_ms == 2000,
        !u.health_check.enabled,
        u.health_check.path@ == h.path@,
        u.health_check.interval_ms == h.interval_ms,
        u.health_check.timeout_ms == h.timeout_ms,
        !l.enabled,
        l.capacity == 100,
        l.fill_rate_bits == 0x4120_0000,
{
}

/// What a route and a service are without being told.
pub proof fn routes_and_services_by_default(
    r: RouteConfig,
    s: L4ServiceConfig,
    b: L4RealServerConfig,
    h: L4HealthCheckConfig,
)
    requires
        call_ensures(<RouteConfig as Default>::default, (), r),
        call_ensures(<L4ServiceConfig as Default>::default, (), s),
        call_ensures(<L4RealServerConfig as Default>::default, (), b),
        call_ensures(<L4HealthCheckConfig as Default>::default, (), h),
    ensures
        r.host@ == "*"@,
        r.path_prefix@ == "/"@,
        r.upstream_pool@ == "default"@,
        !r.rate_limit.enabled,
        s.name@ == "l4-service"@,
        s.domains@.len() == 0,
        s.vip == IpAddr::V4(2130706433),
        s.port == 80,
        s.protocol == L4Protocol::Tcp,
        s.scheduler == L4Scheduler::Wrr,
        s.mode == L4Mode::IpvsDsr,
        s.real_servers@.len() == 0,
        b.address == IpAddr::V4(2130706433),
        b.port == 80,
        b.weight == 1,
        !h.enabled,
        h.kind == L4HealthCheckKind::Tcp,
        h.path@ == "/healthz"@,
        h.interval_ms == 10000,
        h.timeout_ms == 2000,
{
}

/// What the process is without being told: an admin API on this machine that nobody has a token
/// for, metrics but no access log, half a minute to drain, zero copy, and a probe after a
/// quarter of a second.
pub proof fn processes_by_default(
    a: AdminConfig,
    t: TelemetryConfig,
    r: RuntimeConfig,
    c: AcmeConfig,
    s: TlsConfig,
)
    requires
        call_ensures(<AdminConfig as Default>::default, (), a),
        call_ensures(<TelemetryConfig as Default>::default, (), t),
        call_ensures(<RuntimeConfig as Default>::default, (), r),
        call_ensures(<AcmeConfig as Default>::default, (), c),
        call_ensures(<TlsConfig as Default>::default, (), s),
    ensures
        a.bind == (SocketAddr::V4 { ip: 2130706433, port: 9080 }),
        a.enabled,
        a.auth_token is None,
        !t.json_tracing,
        t.prometheus,
        !t.access_log,
        r.drain_timeout_ms == 30000,
        r.zero_copy,
        r.liveness_probe_idle_ms == 250,
        !c.enabled,
        c.storage_dir@ == "/var/lib/yxorp/acme"@,
        c.renew_before_days == 30,
        c.directory_url@ == "https://acme-staging-v02.api.letsencrypt.org/directory"@,
        s.certs@.len() == 0,
        !s.keylog,
        s.qlog_dir is None,
{
}

/// Times are configured in milliseconds.
pub proof fn times_are_in_milliseconds(r: RuntimeConfig, drain: Duration, idle: Duration)
    requires
        call_ensures(RuntimeConfig::drain_timeout, (&r,), drain),
        call_ensures(RuntimeConfig::liveness_probe_idle, (&r,), idle),
    ensures
        drain.nanos == r.drain_timeout_ms * 1_000_000,
        idle.nanos == r.liveness_probe_idle_ms * 1_000_000,
{
}

/// The names that stand in a configuration.
pub proof fn names_in_a_configuration()
    ensures
        Http1Engine::Hyper.text() == "hyper"@,
        Http1Engine::Fast.text() == "fast"@,
        Http1Engine::Uring.text() == "uring"@,
        L4Protocol::Tcp.text() == "tcp"@,
        L4Protocol::Udp.text() == "udp"@,
        L4Scheduler::Rr.text() == "rr"@,
        L4Scheduler::Wrr.text() == "wrr"@,
        L4Scheduler::Sh.text() == "sh"@,
{
}

/// What is shown of an error names the file, or says that the configuration is at fault.
pub proof fn errors_are_shown(path: String, source: String, issue: String)
    ensures
        (ConfigError::Read { path, source }).text() == "failed to read config "@ + path@ + ": "@
            + source@,
        (ConfigError::Parse { path, source }).text() == "failed to parse TOML config "@ + path@
            + ": "@ + source@,
        ConfigError::Validation(issue).text() == "invalid config: "@ + issue@,
{
}

} // verus!
