//! A Linux-first edge reverse proxy: its configuration, routing, HTTP/1.1
//! framing, layer-4 planning and completion runtime, each with its contract.

pub mod acme;
pub mod addr;
pub mod admin;
pub mod config;
pub mod control;
pub mod fault;
pub mod l4;
pub mod octets;
pub mod proxy;
pub mod runtime;
pub mod text;
pub mod time;
pub mod uri;
