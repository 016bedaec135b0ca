//! Commit-message generation: prompt presets, diff substitution, the
//! configuration schema, the chat request body and the parser of the
//! streamed chat-completion reply.

pub mod text;
pub mod prompt;
pub mod json;
pub mod stream;
pub mod config;
pub mod request;
pub mod diff;
