//! The gateway's decisions on a client request: which handler answers a
//! method, which tools a client sees, and where a tool call goes.

use vstd::prelude::*;
use crate::protocol::multiplexer::{server_pos, Multiplexer, UpstreamServer};
use crate::protocol::RegisteredTool;
use crate::security::{tool_permitted, SecurityEngine};
use crate::security::allowlist::RuleSpec;
use crate::config::RoleSpec;
use crate::json::{json_string_member, string_member, string_view};
use crate::observe::metrics::EventType;
use crate::text::StringExecFns;

verus! {

/// The MCP methods the gateway answers.
#[derive(PartialEq, Eq, Structural, Clone, Copy)]
pub enum McpMethod {
    Initialize,
    Initialized,
    ToolsList,
    ToolsCall,
    ResourcesList,
    ResourcesRead,
    PromptsList,
    PromptsGet,
    Ping,
    Unknown,
}

/// The method a JSON-RPC method name stands for.
pub open spec fn method_of(name: Seq<char>) -> McpMethod {
    if name == "initialize"@ {
        McpMethod::Initialize
    } else if name == "initialized"@ {
        McpMethod::Initialized
    } else if name == "tools/list"@ {
        McpMethod::ToolsList
    } else if name == "tools/call"@ {
        McpMethod::ToolsCall
    } else if name == "resources/list"@ {
        McpMethod::ResourcesList
    } else if name == "resources/read"@ {
        McpMethod::ResourcesRead
    } else if name == "prompts/list"@ {
        McpMethod::PromptsList
    } else if name == "prompts/get"@ {
        McpMethod::PromptsGet
    } else if name == "ping"@ {
        McpMethod::Ping
    } else {
        McpMethod::Unknown
    }
}

fn same_text(a: &str, b: &str) -> (r: bool)
    ensures
        r == (a@ == b@),
{
    let x = crate::text::str_chars(a);
    let y = crate::text::str_chars(b);
    crate::text::chars_eq(&x, &y)
}

/// Tells which handler answers a JSON-RPC method.
pub fn classify_method(method: &str) -> (r: McpMethod)
    ensures
        r == method_of(method@),
{
    if same_text(method, "initialize") {
        McpMethod::Initialize
    } else if same_text(method, "initialized") {
        McpMethod::Initialized
    } else if same_text(method, "tools/list") {
        McpMethod::ToolsList
    } else if same_text(method, "tools/call") {
        McpMethod::ToolsCall
    } else if same_text(method, "resources/list") {
        McpMethod::ResourcesList
    } else if same_text(method, "resources/read") {
        McpMethod::ResourcesRead
    } else if same_text(method, "prompts/list") {
        McpMethod::PromptsList
    } else if same_text(method, "prompts/get") {
        McpMethod::PromptsGet
    } else if same_text(method, "ping") {
        McpMethod::Ping
    } else {
        McpMethod::Unknown
    }
}

/// The tools a client may see, in order: those the security policy lets
/// through when no role is given.
pub open spec fn visible(
    rules: Seq<RuleSpec>,
    roles: Seq<(Seq<char>, RoleSpec)>,
    rbac_on: bool,
    tools: Seq<RegisteredTool>,
) -> Seq<RegisteredTool>
    decreases tools.len(),
{
    if tools.len() == 0 {
        Seq::empty()
    } else if tool_permitted(rules, roles, rbac_on, tools.last().fqn@, None) {
        visible(rules, roles, rbac_on, tools.drop_last()).push(tools.last())
    } else {
        visible(rules, roles, rbac_on, tools.drop_last())
    }
}

/// The tools a client sees are exactly those of the input whose
/// fully-qualified name the policy permits (with no role), in their order:
/// none is dropped for any other reason, and none is added.
pub proof fn law_visible_is_the_permitted_tools(
    rules: Seq<RuleSpec>,
    roles: Seq<(Seq<char>, RoleSpec)>,
    rbac_on: bool,
    tools: Seq<RegisteredTool>,
)
    ensures
        visible(rules, roles, rbac_on, tools) == tools.filter(
            |t: RegisteredTool| tool_permitted(rules, roles, rbac_on, t.fqn@, None),
        ),
    decreases tools.len(),
{
    reveal(Seq::filter);
    if tools.len() > 0 {
        law_visible_is_the_permitted_tools(rules, roles, rbac_on, tools.drop_last());
    }
}

/// Every permitted tool of the input is shown, and every shown tool is a
/// permitted tool of the input.
pub proof fn law_visible_keeps_every_permitted_tool(
    rules: Seq<RuleSpec>,
    roles: Seq<(Seq<char>, RoleSpec)>,
    rbac_on: bool,
    tools: Seq<RegisteredTool>,
    i: int,
)
    requires
        0 <= i < tools.len(),
    ensures
        tool_permitted(rules, roles, rbac_on, tools[i].fqn@, None) ==> visible(rules, roles, rbac_on, tools).contains(tools[i]),
        visible(rules, roles, rbac_on, tools).len() <= tools.len(),
    decreases tools.len(),
{
    let v = visible(rules, roles, rbac_on, tools);
    let prev = tools.drop_last();
    if i < tools.len() - 1 {
        law_visible_keeps_every_permitted_tool(rules, roles, rbac_on, prev, i);
        assert(prev[i] == tools[i]);
        if tool_permitted(rules, roles, rbac_on, tools[i].fqn@, None) {
            let vp = visible(rules, roles, rbac_on, prev);
            let k = choose|k: int| 0 <= k < vp.len() && vp[k] == tools[i];
            if tool_permitted(rules, roles, rbac_on, tools.last().fqn@, None) {
                assert(v[k] == tools[i]);
            }
        }
    } else {
        if tools.len() > 1 {
            law_visible_keeps_every_permitted_tool(rules, roles, rbac_on, prev, 0);
        }
        if tool_permitted(rules, roles, rbac_on, tools[i].fqn@, None) {
            assert(v[v.len() - 1] == tools[i]);
        }
    }
    if tools.len() > 1 {
        law_visible_keeps_every_permitted_tool(rules, roles, rbac_on, prev, 0);
    }
}

/// Keeps the tools the security policy lets a client see.
pub fn visible_tools(security: &SecurityEngine, tools: &Vec<RegisteredTool>) -> (r: Vec<RegisteredTool>)
    ensures
        r@ == visible(security.rules(), security.roles(), security.rbac_on(), tools@),
{
    let ghost rules = security.rules();
    let ghost roles = security.roles();
    let ghost on = security.rbac_on();
    let mut r: Vec<RegisteredTool> = Vec::new();
    let mut i: usize = 0;
    while i < tools.len()
        invariant
            i <= tools.len(),
            rules == security.rules(),
            roles == security.roles(),
            on == security.rbac_on(),
            r@ == visible(rules, roles, on, tools@.take(i as int)),
        decreases tools.len() - i,
    {
        proof {
            assert(tools@.take(i + 1).drop_last() =~= tools@.take(i as int));
            assert(tools@.take(i + 1).last() == tools@[i as int]);
        }
        if security.is_tool_allowed(tools[i].fqn.as_str(), None) {
            r.push(tools[i].clone());
        }
        i = i + 1;
    }
    proof {
        assert(tools@.take(i as int) =~= tools@);
    }
    r
}

/// What becomes of a tool call.
pub enum ToolCallPlan {
    /// The security policy refuses the tool.
    Blocked,
    /// No connected server offers a tool of that name.
    NotFound,
    /// The call goes to the named server.
    Dispatch { server: String },
}

/// Whether a server lets a caller with the given role reach it: with RBAC
/// on and a role named, a server that lists allowed roles admits only
/// those roles; otherwise every caller.
pub open spec fn server_admits(
    servers: Seq<UpstreamServer>,
    server: Seq<char>,
    rbac_on: bool,
    role: Option<Seq<char>>,
) -> bool {
    match role {
        Some(x) if rbac_on => match server_pos(servers, server) {
            Some(p) => servers[p].config.allowed_roles.len() == 0
                || servers[p].config.allowed_roles.deep_view().contains(x),
            None => true,
        },
        _ => true,
    }
}

fn admits_role(allowed: &Vec<String>, role: &str) -> (r: bool)
    ensures
        r == (allowed.len() == 0 || allowed.deep_view().contains(role@)),
{
    if allowed.len() == 0 {
        return true;
    }
    let want = String::from_str(role);
    let mut i: usize = 0;
    while i < allowed.len()
        invariant
            i <= allowed.len(),
            want@ == role@,
            forall|j: int| 0 <= j < i ==> allowed.deep_view()[j] != role@,
        decreases allowed.len() - i,
    {
        if allowed[i] == want {
            proof {
                assert(allowed.deep_view()[i as int] == role@);
            }
            return true;
        }
        i = i + 1;
    }
    false
}

/// Whether the named server lets a caller with the role reach it.
pub fn server_admits_role(mux: &Multiplexer, server: &str, rbac_on: bool, role: Option<&str>) -> (r: bool)
    requires
        mux.wf(),
    ensures
        r == server_admits(
            mux.servers_view(),
            server@,
            rbac_on,
            match role {
                Some(x) => Some(x@),
                None => None,
            },
        ),
{
    match role {
        Some(x) => {
            if !rbac_on {
                return true;
            }
            match mux.get_server_config(server) {
                Some(config) => admits_role(&config.allowed_roles, x),
                None => true,
            }
        },
        None => true,
    }
}

/// Decides a tool call made by a caller with the given role (if any): the
/// security policy first (the allowlist, then, when RBAC is on, the role's
/// patterns), then the routing index, then the routed server's allowed
/// roles.
pub fn plan_tool_call(
    security: &SecurityEngine,
    mux: &Multiplexer,
    tool_name: &str,
    role: Option<&str>,
) -> (r: ToolCallPlan)
    requires
        mux.wf(),
    ensures
        !tool_permitted(
            security.rules(),
            security.roles(),
            security.rbac_on(),
            tool_name@,
            match role {
                Some(x) => Some(x@),
                None => None,
            },
        ) ==> r is Blocked,
        tool_permitted(
            security.rules(),
            security.roles(),
            security.rbac_on(),
            tool_name@,
            match role {
                Some(x) => Some(x@),
                None => None,
            },
        ) ==> match r {
            ToolCallPlan::Dispatch { server } => mux.tool_routes().contains_key(tool_name@)
                && server@ == mux.tool_routes()[tool_name@] && server_admits(
                mux.servers_view(),
                server@,
                security.rbac_on(),
                match role {
                    Some(x) => Some(x@),
                    None => None,
                },
            ),
            ToolCallPlan::NotFound => !mux.tool_routes().contains_key(tool_name@),
            ToolCallPlan::Blocked => mux.tool_routes().contains_key(tool_name@) && !server_admits(
                mux.servers_view(),
                mux.tool_routes()[tool_name@],
                security.rbac_on(),
                match role {
                    Some(x) => Some(x@),
                    None => None,
                },
            ),
        },
{
    if !security.is_tool_allowed(tool_name, role) {
        return ToolCallPlan::Blocked;
    }
    match mux.find_tool_server(tool_name) {
        Some(server) => {
            if server_admits_role(mux, server.as_str(), security.rbac_enabled(), role) {
                ToolCallPlan::Dispatch { server }
            } else {
                ToolCallPlan::Blocked
            }
        },
        None => ToolCallPlan::NotFound,
    }
}

/// The message for a method the gateway does not answer.
pub fn method_not_found_message(method: &str) -> (r: String)
    ensures
        r@ == "Method '"@ + method@ + "' not found"@,
{
    let mut r = String::from_str("Method '");
    r.append(method);
    r.append("' not found");
    r
}

/// The message for a tool call the security policy refuses.
pub fn blocked_message(tool_name: &str) -> (r: String)
    ensures
        r@ == "Tool '"@ + tool_name@ + "' is not allowed by security policy"@,
{
    let mut r = String::from_str("Tool '");
    r.append(tool_name);
    r.append("' is not allowed by security policy");
    r
}

/// The message for a tool no connected server offers.
pub fn tool_not_found_message(tool_name: &str) -> (r: String)
    ensures
        r@ == "Tool '"@ + tool_name@ + "' not found in any connected server"@,
{
    let mut r = String::from_str("Tool '");
    r.append(tool_name);
    r.append("' not found in any connected server");
    r
}

/// The message for a tool call that failed upstream.
pub fn tool_failed_message(detail: &str) -> (r: String)
    ensures
        r@ == "Tool execution failed: "@ + detail@,
{
    let mut r = String::from_str("Tool execution failed: ");
    r.append(detail);
    r
}

} // verus!

verus! {

/// No client sees a tool the security policy refuses: every visible tool
/// is one of the tools and is permitted, and no more tools are visible
/// than there are.
pub proof fn law_visible_tools_are_permitted(
    rules: Seq<RuleSpec>,
    roles: Seq<(Seq<char>, RoleSpec)>,
    rbac_on: bool,
    tools: Seq<RegisteredTool>,
)
    ensures
        visible(rules, roles, rbac_on, tools).len() <= tools.len(),
        forall|i: int|
            0 <= i < visible(rules, roles, rbac_on, tools).len() ==> tool_permitted(
                rules,
                roles,
                rbac_on,
                (#[trigger] visible(rules, roles, rbac_on, tools)[i]).fqn@,
                None,
            ) && tools.contains(visible(rules, roles, rbac_on, tools)[i]),
    decreases tools.len(),
{
    if tools.len() > 0 {
        let d = tools.drop_last();
        law_visible_tools_are_permitted(rules, roles, rbac_on, d);
        let v = visible(rules, roles, rbac_on, tools);
        let vd = visible(rules, roles, rbac_on, d);
        assert forall|i: int| 0 <= i < v.len() implies tool_permitted(
            rules,
            roles,
            rbac_on,
            (#[trigger] v[i]).fqn@,
            None,
        ) && tools.contains(v[i]) by {
            if i < vd.len() {
                assert(v[i] == vd[i]);
                let j = choose|j: int| 0 <= j < d.len() && d[j] == vd[i];
                assert(tools[j] == v[i]);
            } else {
                assert(v[i] == tools[tools.len() - 1]);
            }
        }
    }
}

/// The text under `key` of a request's parameters, if there is one.
pub open spec fn param_text(params: Option<serde_json::Value>, key: Seq<char>) -> Option<Seq<char>> {
    match params {
        Some(p) => json_string_member(p, key),
        None => None,
    }
}

fn param_string(params: &Option<serde_json::Value>, key: &str) -> (r: Option<String>)
    ensures
        string_view(r) == param_text(*params, key@),
{
    match params {
        Some(p) => string_member(p, key),
        None => None,
    }
}

/// The routing hint of a `tools/list` request: the text under its
/// `_mcplex_query` parameter. Only a request with a hint is routed.
pub fn tools_list_query(params: &Option<serde_json::Value>) -> (r: Option<String>)
    ensures
        string_view(r) == param_text(*params, "_mcplex_query"@),
{
    param_string(params, "_mcplex_query")
}

/// The URI a `resources/read` request asks for: the text under its `uri`
/// parameter.
pub fn resource_uri(params: &Option<serde_json::Value>) -> (r: Option<String>)
    ensures
        string_view(r) == param_text(*params, "uri"@),
{
    param_string(params, "uri")
}

/// What a `tools/list` answer shows and what it records.
pub struct ToolsListOutcome {
    /// The tools shown to the client.
    pub tools: Vec<RegisteredTool>,
    /// The routing event, when the request was routed.
    pub routing: Option<EventType>,
    /// The listing event.
    pub listing: EventType,
}

/// Settles a `tools/list` answer from all the tools and, for a routed
/// request, its hint and the tools the router picked: the client sees
/// those of the picked tools (or, unrouted, of all tools) that the policy
/// lets through; a routing event counts the picked tools against all of
/// them, and the listing event counts the shown tools against all.
pub fn tools_list_outcome(
    security: &SecurityEngine,
    all: &Vec<RegisteredTool>,
    routing: Option<(String, Vec<RegisteredTool>)>,
) -> (r: ToolsListOutcome)
    ensures
        r.tools@ == visible(
            security.rules(),
            security.roles(),
            security.rbac_on(),
            match routing {
                Some(x) => x.1@,
                None => all@,
            },
        ),
        r.listing == (EventType::ToolsList { total: all.len(), visible: r.tools.len() }),
        match routing {
            Some(x) => r.routing matches Some(EventType::Routing { query, total_tools, selected_tools })
                && query@ == x.0@ && total_tools == all.len() && selected_tools == x.1.len(),
            None => r.routing is None,
        },
{
    match routing {
        Some((query, picked)) => {
            let tools = visible_tools(security, &picked);
            let n = tools.len();
            ToolsListOutcome {
                tools,
                routing: Some(EventType::Routing { query, total_tools: all.len(), selected_tools: picked.len() }),
                listing: EventType::ToolsList { total: all.len(), visible: n },
            }
        },
        None => {
            let tools = visible_tools(security, all);
            let n = tools.len();
            ToolsListOutcome { tools, routing: None, listing: EventType::ToolsList { total: all.len(), visible: n } }
        },
    }
}

} // verus!
