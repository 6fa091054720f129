//! The texts the gateway forwards to AgentLens for its timeline.

use vstd::prelude::*;
use crate::text::{decimal, push_decimal, StringExecFns};

verus! {

/// The agent a tool call is shown under: `MCPlex/<server>`.
pub fn agent_name_for(server_name: &str) -> (r: String)
    ensures
        r@ == "MCPlex/"@ + server_name@,
{
    let mut r = String::from_str("MCPlex/");
    r.append(server_name);
    r
}

/// The status of a call: `success` or `error`.
pub fn call_status(success: bool) -> (r: &'static str)
    ensures
        r@ == if success { "success"@ } else { "error"@ },
{
    if success { "success" } else { "error" }
}

/// The message of a security event: `<event>: <tool> (<reason>)`.
pub fn security_event_text(event_type: &str, tool_name: &str, reason: &str) -> (r: String)
    ensures
        r@ == event_type@ + ": "@ + tool_name@ + " ("@ + reason@ + ")"@,
{
    let mut r = String::from_str(event_type);
    r.append(": ");
    r.append(tool_name);
    r.append(" (");
    r.append(reason);
    r.append(")");
    r
}

/// The reason given for a routing decision, with how many tool
/// definitions it saved.
pub fn routing_decision_text(query: &str, total_tools: usize, selected_tools: usize) -> (r: String)
    requires
        selected_tools <= total_tools,
    ensures
        r@ == "Routing query '"@ + query@ + "': "@ + decimal(total_tools as nat) + " → "@ + decimal(
            selected_tools as nat,
        ) + " tools (saved "@ + decimal((total_tools - selected_tools) as nat)
            + " tool definitions)"@,
{
    let mut r = String::from_str("Routing query '");
    r.append(query);
    r.append("': ");
    push_decimal(&mut r, total_tools as u64);
    r.append(" → ");
    push_decimal(&mut r, selected_tools as u64);
    r.append(" tools (saved ");
    push_decimal(&mut r, (total_tools - selected_tools) as u64);
    r.append(" tool definitions)");
    r
}

} // verus!
