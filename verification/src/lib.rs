//! A small HTTP and WebSocket file server library: request parsing, routing,
//! response building and WebSocket framing, with their contracts.
pub mod buffer;
pub mod config;
pub mod http;
pub mod text;
