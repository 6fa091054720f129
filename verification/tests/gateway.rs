use mcplex::config::{
    AppConfig, GatewayConfig, RoleConfig, RouterConfig, RouterStrategy, SecurityConfig, ServerConfig,
    TransportType,
};
use mcplex::protocol::gateway::{
    blocked_message, classify_method, method_not_found_message, plan_tool_call, resource_uri,
    tool_failed_message, tool_not_found_message, tools_list_outcome, tools_list_query, visible_tools,
    McpMethod, ToolCallPlan,
};
use mcplex::protocol::multiplexer::{discovery_for, CallTarget, Discovery, MuxError, Multiplexer};
use mcplex::protocol::respawn::{should_respawn, RespawnSchedule};
use mcplex::protocol::{make_fqn, PromptDefinition, ResourceDefinition, ToolDefinition};
use mcplex::observe::metrics::EventType;
use mcplex::security::SecurityEngine;
use std::collections::HashMap;

fn server(name: &str, url: Option<&str>, command: Option<&str>, blocked: &[&str]) -> ServerConfig {
    ServerConfig {
        name: name.to_string(),
        command: command.map(|c| c.to_string()),
        args: vec![],
        url: url.map(|u| u.to_string()),
        transport: TransportType::Auto,
        env: HashMap::new(),
        allowed_roles: vec![],
        blocked_tools: blocked.iter().map(|s| s.to_string()).collect(),
        allowed_tools: vec![],
        enabled: true,
    }
}

fn tool(name: &str) -> ToolDefinition {
    ToolDefinition { name: name.to_string(), description: None, input_schema: None }
}

fn resource(uri: &str) -> ResourceDefinition {
    ResourceDefinition { uri: uri.to_string(), name: uri.to_string(), description: None, mime_type: None }
}

fn prompt(name: &str) -> PromptDefinition {
    PromptDefinition { name: name.to_string(), description: None, arguments: None }
}

fn config(servers: Vec<ServerConfig>) -> AppConfig {
    AppConfig {
        gateway: GatewayConfig {
            listen: "127.0.0.1:3100".to_string(),
            dashboard: None,
            hot_reload: false,
            name: "mcplex".to_string(),
        },
        router: RouterConfig { strategy: RouterStrategy::Passthrough, top_k: 5, cache_embeddings: false },
        security: SecurityConfig {
            enable_rbac: false,
            enable_audit_log: false,
            audit_log_path: "./logs/audit.jsonl".to_string(),
            max_log_size_mb: 100,
        },
        servers,
        roles: vec![],
    }
}

fn two_servers() -> Multiplexer {
    let mut mux = Multiplexer::empty();
    mux.register_server(
        server("github", Some("http://gh"), None, &[]),
        vec![tool("create_issue"), tool("search")],
        vec![resource("repo://x")],
        vec![prompt("summarize")],
        true,
    );
    mux.register_server(
        server("code", None, Some("code-server"), &[]),
        vec![tool("search"), tool("index")],
        vec![],
        vec![],
        true,
    );
    mux
}

#[test]
fn fqn_is_server_slash_name() {
    assert_eq!(make_fqn("github", "create_issue"), "github/create_issue");
}

#[test]
fn overlapping_bare_names_are_withdrawn() {
    let mux = two_servers();
    assert_eq!(mux.find_tool_server("create_issue").as_deref(), Some("github"));
    assert_eq!(mux.find_tool_server("index").as_deref(), Some("code"));
    assert_eq!(mux.find_tool_server("search"), None);
    assert_eq!(mux.find_tool_server("github/search").as_deref(), Some("github"));
    assert_eq!(mux.find_tool_server("code/search").as_deref(), Some("code"));
    assert_eq!(mux.get_all_tools().len(), 4);
    assert_eq!(mux.find_resource_server("repo://x").as_deref(), Some("github"));
    assert_eq!(mux.find_resource_server("github/repo://x").as_deref(), Some("github"));
    assert_eq!(mux.find_prompt_server("summarize").as_deref(), Some("github"));
    assert_eq!(mux.find_prompt_server("github/summarize").as_deref(), Some("github"));
}

#[test]
fn disconnect_and_restore() {
    let mut mux = two_servers();
    assert_eq!(mux.mark_server_disconnected("github"), 2);
    assert_eq!(mux.mark_server_disconnected("github"), 0);
    assert_eq!(mux.mark_server_disconnected("nobody"), 0);
    assert_eq!(mux.find_tool_server("create_issue"), None);
    assert_eq!(mux.find_tool_server("github/search"), None);
    assert_eq!(mux.find_tool_server("code/search").as_deref(), Some("code"));
    assert_eq!(mux.find_resource_server("repo://x"), None);
    assert_eq!(mux.get_all_tools().len(), 2);
    match mux.call_target("github") {
        Err(e @ MuxError::NotConnected { .. }) => assert_eq!(e.message(), "Server 'github' is not connected"),
        _ => panic!("github should be disconnected"),
    }
    let statuses = mux.get_server_statuses();
    assert_eq!(statuses.len(), 2);
    assert!(!statuses[0].connected);
    assert_eq!(statuses[0].tools, 0);

    let restored = mux.restore_server("github", vec![tool("create_issue")], vec![], vec![]);
    assert_eq!(restored, 1);
    assert_eq!(mux.find_tool_server("create_issue").as_deref(), Some("github"));
    assert!(matches!(mux.call_target("github"), Ok(CallTarget::Http { .. })));
}

#[test]
fn call_targets() {
    let mux = two_servers();
    match mux.call_target("github") {
        Ok(CallTarget::Http { url }) => assert_eq!(url, "http://gh"),
        _ => panic!("http expected"),
    }
    assert!(matches!(mux.call_target("code"), Ok(CallTarget::Stdio)));
    match mux.call_target("nobody") {
        Err(e @ MuxError::ServerNotFound { .. }) => assert_eq!(e.message(), "Server 'nobody' not found"),
        _ => panic!("unknown server expected"),
    }
    match mux.resource_target("missing://y") {
        Err(e) => assert_eq!(e.message(), "Resource 'missing://y' not found in any server"),
        Ok(_) => panic!("missing resource"),
    }
    match mux.prompt_target("missing") {
        Err(e) => assert_eq!(e.message(), "Prompt 'missing' not found in any server"),
        Ok(_) => panic!("missing prompt"),
    }
    assert_eq!(
        MuxError::NoActiveConnection { server: "code".to_string() }.message(),
        "No active connection for server 'code'"
    );
}

#[test]
fn methods_are_classified() {
    assert!(classify_method("initialize") == McpMethod::Initialize);
    assert!(classify_method("initialized") == McpMethod::Initialized);
    assert!(classify_method("tools/list") == McpMethod::ToolsList);
    assert!(classify_method("tools/call") == McpMethod::ToolsCall);
    assert!(classify_method("resources/list") == McpMethod::ResourcesList);
    assert!(classify_method("resources/read") == McpMethod::ResourcesRead);
    assert!(classify_method("prompts/list") == McpMethod::PromptsList);
    assert!(classify_method("prompts/get") == McpMethod::PromptsGet);
    assert!(classify_method("ping") == McpMethod::Ping);
    assert!(classify_method("tools/lis") == McpMethod::Unknown);
    assert_eq!(method_not_found_message("x/y"), "Method 'x/y' not found");
}

#[test]
fn tool_calls_are_planned() {
    let cfg = config(vec![server("github", Some("http://gh"), None, &["delete_*"])]);
    let security = SecurityEngine::new(&cfg);
    let mut mux = Multiplexer::empty();
    mux.register_server(
        server("github", Some("http://gh"), None, &["delete_*"]),
        vec![tool("create_issue"), tool("delete_repo")],
        vec![],
        vec![],
        true,
    );
    assert!(matches!(plan_tool_call(&security, &mux, "github/delete_repo", None), ToolCallPlan::Blocked));
    match plan_tool_call(&security, &mux, "github/create_issue", None) {
        ToolCallPlan::Dispatch { server } => assert_eq!(server, "github"),
        _ => panic!("dispatch expected"),
    }
    assert!(matches!(plan_tool_call(&security, &mux, "nope", None), ToolCallPlan::NotFound));
    assert_eq!(blocked_message("x"), "Tool 'x' is not allowed by security policy");
    assert_eq!(tool_not_found_message("x"), "Tool 'x' not found in any connected server");
    assert_eq!(tool_failed_message("boom"), "Tool execution failed: boom");

    let visible = visible_tools(&security, &mux.get_all_tools());
    assert_eq!(visible.len(), 1);
    assert_eq!(visible[0].fqn, "github/create_issue");
}

#[test]
fn respawn_backoff_doubles_to_ceiling() {
    let mut s = RespawnSchedule::new();
    let mut delays = vec![s.delay_secs()];
    while s.after_failure() {
        delays.push(s.delay_secs());
    }
    assert_eq!(delays, vec![1, 2, 4, 8, 16]);
    assert_eq!(s.attempt_number(), 5);
    assert!(should_respawn(&server("x", None, Some("cmd"), &[])));
    assert!(!should_respawn(&server("x", Some("http://x"), None, &[])));
}

#[test]
fn ambiguous_names_are_reported_once() {
    let mut mux = two_servers();
    assert_eq!(mux.ambiguous_tool_names(), vec!["search".to_string()]);
    mux.register_server(
        server("third", Some("http://t"), None, &[]),
        vec![tool("search"), tool("index"), tool("fresh")],
        vec![],
        vec![],
        true,
    );
    // A bare name withdrawn earlier stays withdrawn: no server wins it.
    assert_eq!(mux.find_tool_server("search"), None);
    assert_eq!(mux.find_tool_server("third/search").as_deref(), Some("third"));
    assert_eq!(mux.find_tool_server("fresh").as_deref(), Some("third"));
    assert_eq!(
        mux.ambiguous_tool_names(),
        vec!["search".to_string(), "index".to_string()]
    );
}

#[test]
fn discovery_depends_on_endpoint() {
    let mut disabled = server("d", Some("http://d"), None, &[]);
    disabled.enabled = false;
    assert!(matches!(discovery_for(&disabled), Discovery::Skip));
    match discovery_for(&server("h", Some("http://h"), Some("cmd"), &[])) {
        Discovery::Http { url } => assert_eq!(url, "http://h"),
        _ => panic!("http expected"),
    }
    assert!(matches!(discovery_for(&server("s", None, Some("cmd"), &[])), Discovery::Stdio));
    assert!(matches!(discovery_for(&server("n", None, None, &[])), Discovery::Unconfigured));
}

#[test]
fn shared_name_returns_when_one_server_comes_back_alone() {
    let mut mux = two_servers();
    assert_eq!(mux.find_tool_server("search"), None);
    assert_eq!(mux.mark_server_disconnected("github"), 2);
    // The other server still declares it: the name stays out.
    assert_eq!(mux.find_tool_server("search"), None);
    assert_eq!(mux.mark_server_disconnected("code"), 2);
    assert_eq!(mux.restore_server("github", vec![tool("create_issue"), tool("search")], vec![], vec![]), 2);
    assert_eq!(mux.find_tool_server("search").as_deref(), Some("github"));
    assert_eq!(mux.find_tool_server("github/search").as_deref(), Some("github"));
    assert!(mux.ambiguous_tool_names().is_empty());
}

#[test]
fn shared_name_stays_out_while_the_other_server_is_connected() {
    let mut mux = two_servers();
    assert_eq!(mux.mark_server_disconnected("github"), 2);
    assert_eq!(mux.restore_server("github", vec![tool("create_issue"), tool("search")], vec![], vec![]), 2);
    assert_eq!(mux.find_tool_server("search"), None);
    assert_eq!(mux.find_tool_server("code/search").as_deref(), Some("code"));
}

#[test]
fn tool_calls_are_checked_against_the_callers_role() {
    let mut cfg = config(vec![server("github", Some("http://gh"), None, &[])]);
    cfg.security.enable_rbac = true;
    cfg.roles = vec![
        (
            "readonly".to_string(),
            RoleConfig { allowed_tools: vec!["*/list_*".to_string()], blocked_tools: vec![] },
        ),
        ("admin".to_string(), RoleConfig { allowed_tools: vec!["*".to_string()], blocked_tools: vec![] }),
    ];
    let security = SecurityEngine::new(&cfg);
    let mut mux = Multiplexer::empty();
    mux.register_server(
        server("github", Some("http://gh"), None, &[]),
        vec![tool("create_issue"), tool("list_issues")],
        vec![],
        vec![],
        true,
    );
    assert!(matches!(
        plan_tool_call(&security, &mux, "github/create_issue", Some("readonly")),
        ToolCallPlan::Blocked
    ));
    assert!(matches!(
        plan_tool_call(&security, &mux, "github/list_issues", Some("readonly")),
        ToolCallPlan::Dispatch { .. }
    ));
    assert!(matches!(
        plan_tool_call(&security, &mux, "github/create_issue", Some("admin")),
        ToolCallPlan::Dispatch { .. }
    ));
    assert!(matches!(
        plan_tool_call(&security, &mux, "github/create_issue", Some("stranger")),
        ToolCallPlan::Blocked
    ));
    // A caller that names no role is checked against the allowlist alone.
    assert!(matches!(
        plan_tool_call(&security, &mux, "github/create_issue", None),
        ToolCallPlan::Dispatch { .. }
    ));
}

fn params(text: &str) -> Option<serde_json::Value> {
    Some(serde_json::from_str(text).unwrap())
}

#[test]
fn request_parameters_are_read() {
    assert_eq!(tools_list_query(&params("{\"_mcplex_query\":\"open an issue\"}")).as_deref(), Some("open an issue"));
    assert_eq!(tools_list_query(&params("{\"_mcplex_query\":5}")), None);
    assert_eq!(tools_list_query(&params("{}")), None);
    assert_eq!(tools_list_query(&None), None);
    assert_eq!(resource_uri(&params("{\"uri\":\"repo://x\"}")).as_deref(), Some("repo://x"));
    assert_eq!(resource_uri(&params("{\"name\":\"x\"}")), None);
}

#[test]
fn tools_list_outcome_counts_what_is_shown() {
    let cfg = config(vec![server("github", Some("http://gh"), None, &["delete_*"])]);
    let security = SecurityEngine::new(&cfg);
    let mut mux = Multiplexer::empty();
    mux.register_server(
        server("github", Some("http://gh"), None, &["delete_*"]),
        vec![tool("create_issue"), tool("delete_repo"), tool("list_issues")],
        vec![],
        vec![],
        true,
    );
    let all = mux.get_all_tools();
    let plain = tools_list_outcome(&security, &all, None);
    assert_eq!(plain.tools.len(), 2);
    assert!(plain.routing.is_none());
    assert!(matches!(plain.listing, EventType::ToolsList { total: 3, visible: 2 }));

    let picked = vec![all[1].clone(), all[2].clone()];
    let routed = tools_list_outcome(&security, &all, Some(("issues".to_string(), picked)));
    assert_eq!(routed.tools.len(), 1);
    assert_eq!(routed.tools[0].fqn, "github/list_issues");
    match routed.routing {
        Some(EventType::Routing { query, total_tools, selected_tools }) => {
            assert_eq!(query, "issues");
            assert_eq!((total_tools, selected_tools), (3, 2));
        }
        _ => panic!("a routing event was expected"),
    }
    assert!(matches!(routed.listing, EventType::ToolsList { total: 3, visible: 1 }));
}

#[test]
fn servers_admit_only_their_allowed_roles() {
    let restricted = || {
        let mut s = server("prod", Some("http://prod"), None, &[]);
        s.allowed_roles = vec!["admin".to_string()];
        s
    };
    let mut cfg = config(vec![restricted(), server("dev", Some("http://dev"), None, &[])]);
    cfg.security.enable_rbac = true;
    cfg.roles = vec![
        ("admin".to_string(), RoleConfig { allowed_tools: vec!["*".to_string()], blocked_tools: vec![] }),
        ("developer".to_string(), RoleConfig { allowed_tools: vec!["*".to_string()], blocked_tools: vec![] }),
    ];
    let security = SecurityEngine::new(&cfg);
    let mut mux = Multiplexer::empty();
    mux.register_server(restricted(), vec![tool("deploy")], vec![], vec![], true);
    mux.register_server(server("dev", Some("http://dev"), None, &[]), vec![tool("build")], vec![], vec![], true);
    assert!(matches!(plan_tool_call(&security, &mux, "prod/deploy", Some("developer")), ToolCallPlan::Blocked));
    assert!(matches!(plan_tool_call(&security, &mux, "prod/deploy", Some("admin")), ToolCallPlan::Dispatch { .. }));
    assert!(matches!(plan_tool_call(&security, &mux, "dev/build", Some("developer")), ToolCallPlan::Dispatch { .. }));
    assert!(matches!(plan_tool_call(&security, &mux, "deploy", None), ToolCallPlan::Dispatch { .. }));
}
