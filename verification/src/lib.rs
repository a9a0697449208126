//! Core of a single-threaded, readiness-driven key-value service.
//!
//! The library holds everything with design content: the line protocol
//! (`protocol`), the in-memory store (`store`), and the per-connection
//! bookkeeping plus dispatch (`server`). Socket I/O and the OS readiness
//! facility live outside; they hand the library plain bytes and connection
//! identifiers and write back the byte responses it returns.

pub mod protocol;
pub mod server;
pub mod store;
