//! The agent.

pub mod pending_response;
