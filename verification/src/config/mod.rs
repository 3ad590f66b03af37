//! The configuration model, its defaults, its validation and the route table.

pub mod pools;
pub mod routes;
pub mod snapshot;
pub mod types;
pub mod upstream;
pub mod validate;

pub use pools::PoolMap;
pub use routes::{CompiledRoute, RouteMatch, RouteTable, UpstreamRef};
pub use snapshot::ConfigSnapshot;
pub use types::{
    AcmeConfig, AdminConfig, CertConfig, ConfigError, HealthCheckConfig, Http1Engine,
    L4HealthCheckConfig, L4HealthCheckKind, L4Mode, L4Protocol, L4RealServerConfig, L4Scheduler,
    L4ServiceConfig, ListenerConfig, ListenerProtocol, ProxyConfig, RateLimitConfig, RouteConfig,
    RuntimeConfig, TelemetryConfig, TlsConfig, UpstreamConfig, UpstreamPoolConfig,
    UpstreamProtocol,
};
pub use upstream::{UpstreamIds, UpstreamPool, UpstreamState};
