//! The message model: inbound notifications and outbound frames, pure data
//! with a stable per-variant identifier.

pub mod input;
pub mod output;
