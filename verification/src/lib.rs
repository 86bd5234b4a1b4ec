//! Core of a local process supervisor.
//!
//! Projects are long-running commands described by a catalog. Each running
//! project is remembered on disk as one state-store entry named
//! `{name}-{session_id}`; liveness of the session decides whether the entry
//! is current or stale. This crate holds the verified logic: the state-store
//! key codec, catalog lookup, the reconciliation and partition rules, and the
//! stop/restart orchestration decisions. The unverified edges (forking,
//! file reading and writing, the command line) live outside and hand this
//! crate plain values.

pub mod config;
pub mod decimal;
pub mod error;
pub mod lifecycle;
pub mod state;
pub mod sys;
pub mod worker;
