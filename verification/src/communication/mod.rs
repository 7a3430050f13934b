//! Request/reply surface of the daemon: command values, payload encoding,
//! and the fixed-capacity chunk framing of replies.

pub mod common;
pub mod error;
pub mod server;
