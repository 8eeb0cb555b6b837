//! The rules of the Mentat agent: which tool calls need approval, where replies
//! go, what is asked of a model and what its replies mean, and what the runtime
//! trace keeps.
//!
//! Everything here computes; reading, writing and waiting is left to the caller.

pub mod agent;
pub mod approval;
pub mod channels;
pub mod clock;
pub mod config;
pub mod json;
pub mod json_scan;
pub mod multimodal;
pub mod observability;
pub mod providers;
pub mod security;
pub mod slots;
pub mod text;
pub mod tickets;
