use mcplex::config::{
    default_audit_path, default_listen, default_max_log_size, default_server_name, default_strategy,
    default_top_k, default_true, find_env_reference, reference_name, substitute_reference,
    validate_config, AppConfig, ConfigError, GatewayConfig, RouterConfig, RouterStrategy,
    SecurityConfig, ServerConfig, TransportType,
};
use std::collections::HashMap;

fn server(name: &str, url: Option<&str>, command: Option<&str>) -> ServerConfig {
    ServerConfig {
        name: name.to_string(),
        command: command.map(|c| c.to_string()),
        args: vec![],
        url: url.map(|u| u.to_string()),
        transport: TransportType::Auto,
        env: HashMap::new(),
        allowed_roles: vec![],
        blocked_tools: vec![],
        allowed_tools: vec![],
        enabled: true,
    }
}

fn config(servers: Vec<ServerConfig>, top_k: usize) -> AppConfig {
    AppConfig {
        gateway: GatewayConfig { listen: default_listen(), dashboard: None, hot_reload: default_true(), name: default_server_name() },
        router: RouterConfig { strategy: default_strategy(), top_k, cache_embeddings: true },
        security: SecurityConfig::default(),
        servers,
        roles: vec![],
    }
}

fn expand(text: &str, env: &[(&str, &str)]) -> String {
    let mut chars: Vec<char> = text.chars().collect();
    while let Some(r) = find_env_reference(&chars) {
        let name = reference_name(&chars, &r);
        let value = env.iter().find(|(k, _)| *k == name).map(|(_, v)| *v).unwrap_or("");
        chars = substitute_reference(&chars, &r, value);
    }
    chars.into_iter().collect()
}

#[test]
fn defaults() {
    assert_eq!(default_listen(), "127.0.0.1:3100");
    assert_eq!(default_server_name(), "mcplex");
    assert!(default_true());
    assert!(default_strategy() == RouterStrategy::Keyword);
    assert_eq!(default_top_k(), 5);
    assert_eq!(default_audit_path(), "./logs/audit.jsonl");
    assert_eq!(default_max_log_size(), 100);
    let s = SecurityConfig::default();
    assert!(!s.enable_rbac && !s.enable_audit_log);
    assert_eq!(s.max_log_size_mb, 100);
    assert!(TransportType::default() == TransportType::Auto);
}

#[test]
fn validation_errors() {
    assert!(validate_config(&config(vec![server("a", Some("http://a"), None)], 5)).is_ok());
    assert!(validate_config(&config(vec![], 5)).is_ok());
    match validate_config(&config(vec![server("a", Some("u"), None), server("b", None, None), server("c", None, None)], 5)) {
        Err(e @ ConfigError::MissingEndpoint { .. }) => assert_eq!(
            e.message(),
            "Server 'b' must have either 'command' (for stdio) or 'url' (for HTTP) configured"
        ),
        _ => panic!("missing endpoint expected"),
    }
    match validate_config(&config(vec![server("a", None, Some("cmd"))], 0)) {
        Err(e @ ConfigError::ZeroTopK) => assert_eq!(e.message(), "router.top_k must be at least 1"),
        _ => panic!("zero top_k expected"),
    }
    assert_eq!(
        ConfigError::ThresholdOutOfRange.message(),
        "router.similarity_threshold must be between 0.0 and 1.0"
    );
}

#[test]
fn env_references_are_expanded() {
    assert_eq!(expand("token = \"${GITHUB_TOKEN}\"", &[("GITHUB_TOKEN", "abc")]), "token = \"abc\"");
    assert_eq!(expand("${A}-${B}", &[("A", "1"), ("B", "2")]), "1-2");
    assert_eq!(expand("${MISSING}x", &[]), "x");
    assert_eq!(expand("no references", &[]), "no references");
    assert_eq!(expand("${UNCLOSED", &[]), "${UNCLOSED");
    assert_eq!(expand("$ {x}", &[]), "$ {x}");
}

#[test]
fn first_reference_positions() {
    let chars: Vec<char> = "a${B}c".chars().collect();
    let r = find_env_reference(&chars).unwrap();
    assert_eq!((r.start, r.close), (1, 4));
    assert_eq!(reference_name(&chars, &r), "B");
    let empty: Vec<char> = "${}".chars().collect();
    let r = find_env_reference(&empty).unwrap();
    assert_eq!(reference_name(&empty, &r), "");
    assert!(find_env_reference(&"}${".chars().collect()).is_none());
}
