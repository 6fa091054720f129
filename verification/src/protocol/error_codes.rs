//! JSON-RPC error codes.

use vstd::prelude::*;

verus! {

pub const PARSE_ERROR: i64 = -32700;
pub const INVALID_REQUEST: i64 = -32600;
pub const METHOD_NOT_FOUND: i64 = -32601;
pub const INVALID_PARAMS: i64 = -32602;
pub const INTERNAL_ERROR: i64 = -32603;
/// A tool call refused by the security policy.
pub const TOOL_BLOCKED: i64 = -32001;

} // verus!
