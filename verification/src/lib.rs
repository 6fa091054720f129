//! MCPlex gateway core: tool routing helpers, security policy, metrics and
//! upstream indexing, with their contracts checked by Verus.

pub mod text;
pub mod json;
pub mod time;
pub mod config;
pub mod security;
pub mod protocol;
pub mod observe;
pub mod router;
