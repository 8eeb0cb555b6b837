//! Observing the agent at work.

pub mod runtime_trace;
