//! Model providers.

pub mod history;
pub mod messages;
pub mod ollama;
pub mod stream;
pub mod thinking;
