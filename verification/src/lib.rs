//! Health-check reconciliation engine for a reverse-proxy upstream
//! configuration.
//!
//! The library owns the data model (services, instances, probe state), the
//! two health-check state machines (a stateless HTTP-200 probe and a
//! stateful blockchain-node probe whose three facades share one connection),
//! the epoch-based single-flight mechanism, the change-signal aggregation,
//! and the deterministic output renderer.  Network I/O, configuration file
//! loading and the proxy reload action are collaborators that feed plain
//! values in and carry rendered text out.

pub mod configuration;
pub mod generic_200_ok;
pub mod instance;
pub mod json;
pub mod node;
pub mod service;
pub mod state;
pub mod status_response;
pub mod text;
pub mod writer;
