//! A user-space process supervisor library.
//!
//! The library holds the verified core of the supervisor: the framed
//! request/reply transport encoding, the process registry and its
//! invariants, the monitor's scheduling and restart decisions, health-probe
//! classification, file-watch diffing, log rotation planning, and the
//! configuration model. All I/O (spawning children, signals, sockets,
//! files, the shared-memory transport) is performed by the surrounding
//! binary, which hands the results to these functions as plain values.

#![verifier::loop_isolation(false)]

pub mod communication;
pub mod config;
pub mod logging;
pub mod process_manager;
pub mod strutil;
