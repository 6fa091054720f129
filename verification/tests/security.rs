use mcplex::config::{
    AppConfig, GatewayConfig, RoleConfig, RouterConfig, RouterStrategy, SecurityConfig,
    ServerConfig, TransportType,
};
use mcplex::protocol::ToolCallParams;
use mcplex::security::allowlist::AllowlistEngine;
use mcplex::security::audit::{AuditLogState, RotationStep};
use mcplex::security::rbac::{glob_match, RbacEngine};
use mcplex::security::SecurityEngine;
use std::collections::HashMap;

fn server(name: &str, url: &str, blocked: &[&str], allowed: &[&str]) -> ServerConfig {
    ServerConfig {
        name: name.to_string(),
        command: None,
        args: vec![],
        url: Some(url.to_string()),
        transport: TransportType::Auto,
        env: HashMap::new(),
        allowed_roles: vec![],
        blocked_tools: blocked.iter().map(|s| s.to_string()).collect(),
        allowed_tools: allowed.iter().map(|s| s.to_string()).collect(),
        enabled: true,
    }
}

fn role(allowed: &[&str], blocked: &[&str]) -> RoleConfig {
    RoleConfig {
        allowed_tools: allowed.iter().map(|s| s.to_string()).collect(),
        blocked_tools: blocked.iter().map(|s| s.to_string()).collect(),
    }
}

fn app_config(servers: Vec<ServerConfig>, roles: Vec<(String, RoleConfig)>, rbac: bool, audit: bool) -> AppConfig {
    AppConfig {
        gateway: GatewayConfig {
            listen: "127.0.0.1:3100".to_string(),
            dashboard: None,
            hot_reload: true,
            name: "mcplex".to_string(),
        },
        router: RouterConfig { strategy: RouterStrategy::Keyword, top_k: 5, cache_embeddings: true },
        security: SecurityConfig {
            enable_rbac: rbac,
            enable_audit_log: audit,
            audit_log_path: "./logs/audit.jsonl".to_string(),
            max_log_size_mb: 100,
        },
        servers,
        roles,
    }
}

#[test]
fn test_allowlist_blocks_dangerous_tools() {
    let servers = vec![server("database", "http://localhost:8080", &["drop_*", "delete_*"], &[])];

    let engine = AllowlistEngine::new(&servers);

    assert!(engine.is_allowed("database/query_users"));
    assert!(engine.is_allowed("database/insert_record"));
    assert!(!engine.is_allowed("database/drop_table"));
    assert!(!engine.is_allowed("database/delete_all"));
}

#[test]
fn test_allowlist_only_permits_listed() {
    let servers = vec![server("github", "http://localhost:8081", &[], &["list_*", "get_*"])];

    let engine = AllowlistEngine::new(&servers);

    assert!(engine.is_allowed("github/list_repos"));
    assert!(engine.is_allowed("github/get_issue"));
    assert!(!engine.is_allowed("github/delete_repo"));
    assert!(!engine.is_allowed("github/create_issue"));
}

#[test]
fn test_glob_match() {
    assert!(glob_match("*", "anything"));
    assert!(glob_match("github/*", "github/create_issue"));
    assert!(glob_match("github/*", "github/list_repos"));
    assert!(!glob_match("github/*", "slack/send_message"));
    assert!(glob_match("*/query_*", "database/query_users"));
    assert!(glob_match("?ello", "hello"));
    assert!(!glob_match("?ello", "jello_world"));
    assert!(glob_match("delete_*", "delete_users"));
    assert!(glob_match("delete_*", "delete_everything"));
}

#[test]
fn test_rbac() {
    let roles = vec![
        ("developer".to_string(), role(&["github/*", "database/query_*"], &[])),
        ("admin".to_string(), role(&["*"], &[])),
        ("readonly".to_string(), role(&["*/list_*", "*/get_*"], &["*/delete_*"])),
    ];

    let engine = RbacEngine::new(&roles);

    // Developer role
    assert!(engine.is_allowed("developer", "github/create_issue"));
    assert!(engine.is_allowed("developer", "database/query_users"));
    assert!(!engine.is_allowed("developer", "slack/send_message"));

    // Admin role
    assert!(engine.is_allowed("admin", "anything/at_all"));

    // Readonly role
    assert!(engine.is_allowed("readonly", "github/list_repos"));
    assert!(engine.is_allowed("readonly", "database/get_user"));
    assert!(!engine.is_allowed("readonly", "database/delete_user"));

    // Unknown role
    assert!(!engine.is_allowed("unknown", "anything"));
}

#[test]
fn glob_edge_cases() {
    assert!(glob_match("", ""));
    assert!(!glob_match("", "a"));
    assert!(glob_match("*", ""));
    assert!(glob_match("**", "abc"));
    assert!(glob_match("a*b*c", "aXXbYYc"));
    assert!(!glob_match("a*b*c", "aXXbYY"));
    assert!(glob_match("exact", "exact"));
    assert!(!glob_match("exact", "exact_not"));
    assert!(!glob_match("?", ""));
}

#[test]
fn rbac_blocked_pattern_wins_over_allowed() {
    let roles = vec![("ops".to_string(), role(&["*"], &["*/drop_*"]))];
    let engine = RbacEngine::new(&roles);
    assert!(engine.is_allowed("ops", "db/query"));
    assert!(!engine.is_allowed("ops", "db/drop_table"));
}

#[test]
fn rbac_role_with_empty_allow_list_allows_unblocked() {
    let roles = vec![("open".to_string(), role(&[], &["*/secret_*"]))];
    let engine = RbacEngine::new(&roles);
    assert!(engine.is_allowed("open", "x/anything"));
    assert!(!engine.is_allowed("open", "x/secret_key"));
}

#[test]
fn rbac_first_role_of_a_name_is_used() {
    let roles = vec![
        ("dup".to_string(), role(&["a/*"], &[])),
        ("dup".to_string(), role(&["b/*"], &[])),
    ];
    let engine = RbacEngine::new(&roles);
    assert!(engine.is_allowed("dup", "a/x"));
    assert!(!engine.is_allowed("dup", "b/x"));
}

#[test]
fn rbac_lists_roles_in_order() {
    let roles = vec![
        ("developer".to_string(), role(&["github/*"], &[])),
        ("admin".to_string(), role(&["*"], &[])),
    ];
    let engine = RbacEngine::new(&roles);
    assert_eq!(engine.list_roles(), vec!["developer".to_string(), "admin".to_string()]);
}

#[test]
fn allowlist_checks_bare_names_against_every_server() {
    let servers = vec![server("database", "http://localhost:8080", &["drop_*"], &[])];
    let engine = AllowlistEngine::new(&servers);
    assert!(engine.is_allowed("other/drop_table"));
    assert!(!engine.is_allowed("drop_table"));
    assert!(engine.is_allowed("query_users"));
}

#[test]
fn allowlist_block_beats_allow() {
    let servers = vec![server("db", "http://localhost:1", &["query_secret"], &["query_*"])];
    let engine = AllowlistEngine::new(&servers);
    assert!(engine.is_allowed("db/query_users"));
    assert!(!engine.is_allowed("db/query_secret"));
    assert!(!engine.is_allowed("db/insert"));
}

#[test]
fn security_engine_checks_lists_then_roles() {
    let config = app_config(
        vec![server("db", "http://localhost:1", &["drop_*"], &[])],
        vec![("reader".to_string(), role(&["*/query_*"], &[]))],
        true,
        false,
    );
    let engine = SecurityEngine::new(&config);
    assert!(!engine.is_tool_allowed("db/drop_table", Some("reader")));
    assert!(!engine.is_tool_allowed("db/drop_table", None));
    assert!(engine.is_tool_allowed("db/query_users", Some("reader")));
    assert!(!engine.is_tool_allowed("db/insert_row", Some("reader")));
    assert!(engine.is_tool_allowed("db/insert_row", None));
    assert!(!engine.is_tool_allowed("db/query_users", Some("stranger")));
}

#[test]
fn security_engine_without_rbac_ignores_roles() {
    let config = app_config(
        vec![server("db", "http://localhost:1", &[], &[])],
        vec![("reader".to_string(), role(&["*/query_*"], &[]))],
        false,
        false,
    );
    let engine = SecurityEngine::new(&config);
    assert!(engine.is_tool_allowed("db/insert_row", Some("reader")));
    assert!(engine.is_tool_allowed("db/insert_row", Some("stranger")));
}

#[test]
fn audit_entries_only_when_enabled() {
    let params = ToolCallParams { name: "db/query".to_string(), arguments: None };
    let off = SecurityEngine::new(&app_config(vec![], vec![], false, false));
    assert!(off.audit_tool_call("db/query", "db", &params, 5).is_none());
    assert!(off.audit_blocked_call("db/drop", "security_policy").is_none());

    let on = SecurityEngine::new(&app_config(vec![], vec![], false, true));
    let entry = on.audit_tool_call("db/query", "db", &params, 5).unwrap();
    assert_eq!(entry.event, "tool_call");
    assert_eq!(entry.tool_name, "db/query");
    assert_eq!(entry.server_name.as_deref(), Some("db"));
    assert_eq!(entry.duration_ms, Some(5));
    assert!(entry.reason.is_none());
    assert_eq!(entry.trace_id.as_ref().map(|t| t.len()), Some(36));
    assert_eq!(entry.timestamp.len(), 20);
    assert!(entry.timestamp.ends_with('Z'));

    let blocked = on.audit_blocked_call("db/drop", "security_policy").unwrap();
    assert_eq!(blocked.event, "tool_blocked");
    assert_eq!(blocked.reason.as_deref(), Some("security_policy"));
    assert!(blocked.server_name.is_none());
    assert!(blocked.duration_ms.is_none());
}

#[test]
fn each_audit_entry_gets_its_own_trace_id() {
    let params = ToolCallParams { name: "db/query".to_string(), arguments: None };
    let on = SecurityEngine::new(&app_config(vec![], vec![], false, true));
    let a = on.audit_tool_call("db/query", "db", &params, 1).unwrap().trace_id.unwrap();
    let b = on.audit_tool_call("db/query", "db", &params, 1).unwrap().trace_id.unwrap();
    assert_eq!(a.len(), 36);
    assert_eq!(a.matches('-').count(), 4);
    assert_ne!(a, b);
}

#[test]
fn audit_rotation_keeps_five_files() {
    let state = AuditLogState::with_max_size("logs/audit.jsonl", Some(0), 1);
    let plan = state.rotation_plan();
    let expected = vec![
        RotationStep::Remove { path: "logs/audit.jsonl.5".to_string() },
        RotationStep::Rename { from: "logs/audit.jsonl.4".to_string(), to: "logs/audit.jsonl.5".to_string() },
        RotationStep::Rename { from: "logs/audit.jsonl.3".to_string(), to: "logs/audit.jsonl.4".to_string() },
        RotationStep::Rename { from: "logs/audit.jsonl.2".to_string(), to: "logs/audit.jsonl.3".to_string() },
        RotationStep::Rename { from: "logs/audit.jsonl.1".to_string(), to: "logs/audit.jsonl.2".to_string() },
        RotationStep::Rename { from: "logs/audit.jsonl".to_string(), to: "logs/audit.jsonl.1".to_string() },
    ];
    assert_eq!(plan.len(), expected.len());
    for (got, want) in plan.iter().zip(expected.iter()) {
        match (got, want) {
            (RotationStep::Remove { path: a }, RotationStep::Remove { path: b }) => assert_eq!(a, b),
            (RotationStep::Rename { from: a, to: b }, RotationStep::Rename { from: c, to: d }) => {
                assert_eq!(a, c);
                assert_eq!(b, d);
            }
            _ => panic!("unexpected rotation step"),
        }
    }
}

#[test]
fn audit_rotation_due_at_limit() {
    let mut state = AuditLogState::with_max_size("a.jsonl", Some(1048570), 1);
    assert!(!state.needs_rotation());
    state.record_write(6);
    assert!(state.needs_rotation());
    state.rotated_to(true);
    assert!(!state.needs_rotation());
    let closed = AuditLogState::with_max_size("a.jsonl", None, 1);
    assert!(!closed.needs_rotation());
}
