//! The supervision engine: the process registry, health probes, the system
//! process table, file watching, and the monitor's decisions.

pub mod error;
pub mod health;
pub mod monitor;
pub mod process;
pub mod registry;
pub mod spawner;
pub mod watch;
