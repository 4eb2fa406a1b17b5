//! Coordination core for a per-application VPN launcher.
//!
//! Several independent launcher processes each create an isolated network
//! namespace with a dedicated private /24 subnet.  This crate holds the
//! decision logic that keeps those resources consistent: picking the first
//! free subnet block, reading the lock-file liveness registry, and planning
//! the reconciliation sweeps that delete stale lock records and orphaned
//! namespaces.  All operating-system inspection (running `ip` and `ps`,
//! walking the registry directory, re-executing under `sudo`) happens in the
//! surrounding application, which hands this crate the raw command output
//! and directory listings as plain values.

pub mod digits;
pub mod error;
pub mod lines;
pub mod namespaces;
pub mod net;
pub mod procs;
pub mod registry;
pub mod subnet;
pub mod userenv;
