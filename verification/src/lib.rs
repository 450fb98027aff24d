//! Streaming chat gateway core: provider/configuration resolution, message
//! normalization, request assembly, SSE stream decoding and tool-call
//! accumulation, with machine-checked contracts.

pub mod text;
pub mod provider;
pub mod config;
pub mod access;
pub mod json;
pub mod message;
pub mod prompt;
pub mod request;
pub mod sse;
pub mod stream;
pub mod gateway;
