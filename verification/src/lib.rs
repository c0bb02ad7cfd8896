//! Client-side controller core for inspecting a remote key-value store: the
//! command/outcome protocol between callers and the one worker that owns the
//! store connection, the worker's state machine, and the normalization of flat
//! key lists into hierarchical namespaces. All blocking store I/O sits outside
//! this crate, behind plain command, reply and outcome values.

pub mod channel;
pub mod model;
pub mod namespace;
pub mod worker;
