//! The proxy engines: admission, HTTP/1.1 framing, connection handling and zero-copy relay.

pub mod body;
pub mod ebpf;
pub mod exchange;
pub mod gateway;
pub mod h1_fast;
pub mod h1_uring;
pub mod h3;
pub mod head;
pub mod idle;
pub mod rate_limit;
pub mod select;
pub mod zerocopy;
