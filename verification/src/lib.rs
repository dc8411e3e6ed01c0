//! A cache for the responses of MCP servers: what may be cached, under which key, for how long,
//! and what is answered from the cache.

pub mod annotations;
pub mod config;
pub mod flow;
pub mod guarantees;
pub mod json;
pub mod key;
pub mod mcp;
pub mod meaning;
pub mod policy;
pub mod sse;
pub mod store;
pub mod text;
pub mod wire;
