//! A completion-driven, single-thread runtime: operations and their keys, the ring's
//! bookkeeping, timers, task scheduling and sharding.

pub mod buf;
pub mod bufring;
pub mod caps;
pub mod executor;
pub mod fut;
pub mod net;
pub mod op;
pub mod ring;
pub mod shard;
pub mod slab;
pub mod timer;
