//! The configuration model: application descriptors and the enable/disable
//! state file.

pub mod error;
pub mod read_config;
pub mod state;
