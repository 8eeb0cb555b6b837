//! Messaging channels.

pub mod traits;
