//! Gateway configuration as the library reads it: server list, security
//! switches, roles and routing limits, with defaults and validation.

use vstd::prelude::*;
use crate::text::{str_chars, string_from_chars};

verus! {

/// Listening and identification settings of the gateway.
pub struct GatewayConfig {
    /// Address to listen for MCP client connections.
    pub listen: String,
    /// Address for the observability dashboard.
    pub dashboard: Option<String>,
    /// Whether configuration changes are applied without restart.
    pub hot_reload: bool,
    /// Server name used for identification.
    pub name: String,
}

/// The routing settings that the library reads (the similarity threshold,
/// a real number, is handled by the routers outside the library).
pub struct RouterConfig {
    /// Routing strategy.
    pub strategy: RouterStrategy,
    /// Number of top tools to return per query.
    pub top_k: usize,
    /// Whether tool embeddings are cached.
    pub cache_embeddings: bool,
}

/// Security switches of the gateway.
pub struct SecurityConfig {
    /// Enable role-based access control.
    pub enable_rbac: bool,
    /// Enable structured audit logging.
    pub enable_audit_log: bool,
    /// Path of the audit log file.
    pub audit_log_path: String,
    /// Maximum audit log size in MB before rotation.
    pub max_log_size_mb: u64,
}

/// One upstream MCP server.
pub struct ServerConfig {
    /// Unique name of this server.
    pub name: String,
    /// Command that starts the server (stdio transport).
    pub command: Option<String>,
    /// Arguments of the command.
    pub args: Vec<String>,
    /// URL of a remote server (streamable HTTP transport).
    pub url: Option<String>,
    /// Transport type override.
    pub transport: TransportType,
    /// Environment variables for the server process.
    pub env: std::collections::HashMap<String, String>,
    /// Roles allowed to access this server.
    pub allowed_roles: Vec<String>,
    /// Tool patterns blocked on this server.
    pub blocked_tools: Vec<String>,
    /// Tool patterns allowed on this server (if any is set, only these).
    pub allowed_tools: Vec<String>,
    /// Whether this server is enabled.
    pub enabled: bool,
}

/// Tool patterns of one role.
pub struct RoleConfig {
    /// Tool patterns this role can access (glob syntax).
    pub allowed_tools: Vec<String>,
    /// Tool patterns this role cannot access.
    pub blocked_tools: Vec<String>,
}

/// The model of a role: its allowed and blocked patterns.
pub struct RoleSpec {
    pub allowed: Seq<Seq<char>>,
    pub blocked: Seq<Seq<char>>,
}

impl View for RoleConfig {
    type V = RoleSpec;

    open spec fn view(&self) -> RoleSpec {
        RoleSpec { allowed: self.allowed_tools.deep_view(), blocked: self.blocked_tools.deep_view() }
    }
}

/// Copies a list of strings.
pub fn clone_strings(v: &Vec<String>) -> (r: Vec<String>)
    ensures
        r.deep_view() == v.deep_view(),
{
    let mut r: Vec<String> = Vec::new();
    let mut i: usize = 0;
    while i < v.len()
        invariant
            i <= v.len(),
            r.deep_view() == v.deep_view().take(i as int),
        decreases v.len() - i,
    {
        r.push(v[i].clone());
        proof {
            assert(v.deep_view().take(i + 1) =~= v.deep_view().take(i as int).push(v[i as int]@));
        }
        i = i + 1;
    }
    proof {
        assert(v.deep_view().take(v.len() as int) =~= v.deep_view());
    }
    r
}

impl RoleConfig {
    /// Copies the role.
    pub fn duplicate(&self) -> (r: RoleConfig)
        ensures
            r@ == self@,
    {
        RoleConfig {
            allowed_tools: clone_strings(&self.allowed_tools),
            blocked_tools: clone_strings(&self.blocked_tools),
        }
    }
}

/// Routing strategy.
#[derive(PartialEq, Eq, Structural, Clone, Copy, Debug)]
pub enum RouterStrategy {
    Semantic,
    Keyword,
    Passthrough,
}

/// Transport of an upstream server.
#[derive(PartialEq, Eq, Structural, Clone, Copy, Debug)]
pub enum TransportType {
    Stdio,
    StreamableHttp,
    Auto,
}

/// Root configuration as the library reads it.
pub struct AppConfig {
    pub gateway: GatewayConfig,
    pub router: RouterConfig,
    pub security: SecurityConfig,
    pub servers: Vec<ServerConfig>,
    /// Roles by name.
    pub roles: Vec<(String, RoleConfig)>,
}

/// Default gateway listen address.
pub fn default_listen() -> (r: String)
    ensures
        r@ == "127.0.0.1:3100"@,
{
    String::from_str("127.0.0.1:3100")
}

/// Default gateway name.
pub fn default_server_name() -> (r: String)
    ensures
        r@ == "mcplex"@,
{
    String::from_str("mcplex")
}

/// Default for switches that are on unless set.
pub fn default_true() -> (r: bool)
    ensures
        r,
{
    true
}

/// Default routing strategy.
pub fn default_strategy() -> (r: RouterStrategy)
    ensures
        r == RouterStrategy::Keyword,
{
    RouterStrategy::Keyword
}

/// Default number of tools returned per query.
pub fn default_top_k() -> (r: usize)
    ensures
        r == 5,
{
    5
}

/// Default audit log path.
pub fn default_audit_path() -> (r: String)
    ensures
        r@ == "./logs/audit.jsonl"@,
{
    String::from_str("./logs/audit.jsonl")
}

/// Default maximum audit log size in MB.
pub fn default_max_log_size() -> (r: u64)
    ensures
        r == 100,
{
    100
}

impl Default for TransportType {
    fn default() -> (r: Self)
        ensures
            r == TransportType::Auto,
    {
        TransportType::Auto
    }
}

impl Default for SecurityConfig {
    fn default() -> (r: Self)
        ensures
            !r.enable_rbac,
            !r.enable_audit_log,
            r.audit_log_path@ == "./logs/audit.jsonl"@,
            r.max_log_size_mb == 100,
    {
        SecurityConfig {
            enable_rbac: false,
            enable_audit_log: false,
            audit_log_path: default_audit_path(),
            max_log_size_mb: default_max_log_size(),
        }
    }
}

/// A logical error in a configuration.
pub enum ConfigError {
    /// The named server has neither a command nor a URL.
    MissingEndpoint { server: String },
    /// `router.top_k` is zero.
    ZeroTopK,
    /// `router.similarity_threshold` lies outside [0, 1].
    ThresholdOutOfRange,
}

/// Index of the first server that has neither a command nor a URL.
pub open spec fn first_server_without_endpoint(servers: Seq<ServerConfig>) -> Option<int> {
    if exists|i: int|
        0 <= i < servers.len() && servers[i].command is None && servers[i].url is None {
        Some(
            choose|i: int|
                0 <= i < servers.len() && servers[i].command is None && servers[i].url is None
                    && forall|j: int|
                    0 <= j < i ==> !(servers[j].command is None && servers[j].url is None),
        )
    } else {
        None
    }
}

/// Checks a configuration for logical errors, in this order: every server
/// needs a command or a URL, and `top_k` must be at least 1.
pub fn validate_config(config: &AppConfig) -> (r: Result<(), ConfigError>)
    ensures
        match first_server_without_endpoint(config.servers@) {
            Some(i) => r matches Err(ConfigError::MissingEndpoint { server }) && server@
                == config.servers@[i].name@,
            None => if config.router.top_k == 0 {
                r matches Err(ConfigError::ZeroTopK)
            } else {
                r is Ok
            },
        },
{
    let mut i: usize = 0;
    while i < config.servers.len()
        invariant
            i <= config.servers.len(),
            forall|j: int|
                0 <= j < i ==> !(config.servers@[j].command is None && config.servers@[j].url
                    is None),
        decreases config.servers.len() - i,
    {
        let server = &config.servers[i];
        if server.command.is_none() && server.url.is_none() {
            proof {
                let ghost s = config.servers@;
                assert(0 <= i < s.len() && s[i as int].command is None && s[i as int].url is None);
                let k = first_server_without_endpoint(s)->0;
                assert(k == i) by {
                    if k < i {
                    } else if k > i {
                    }
                }
            }
            return Err(ConfigError::MissingEndpoint { server: server.name.clone() });
        }
        i = i + 1;
    }
    if config.router.top_k == 0 {
        return Err(ConfigError::ZeroTopK);
    }
    Ok(())
}

impl ConfigError {
    /// The human-readable message of the error.
    pub fn message(&self) -> (r: String)
        ensures
            match self {
                ConfigError::MissingEndpoint { server } => r@ == "Server '"@ + server@
                    + "' must have either 'command' (for stdio) or 'url' (for HTTP) configured"@,
                ConfigError::ZeroTopK => r@ == "router.top_k must be at least 1"@,
                ConfigError::ThresholdOutOfRange => r@
                    == "router.similarity_threshold must be between 0.0 and 1.0"@,
            },
    {
        match self {
            ConfigError::MissingEndpoint { server } => {
                let mut r = String::from_str("Server '");
                r.append(server.as_str());
                r.append("' must have either 'command' (for stdio) or 'url' (for HTTP) configured");
                r
            },
            ConfigError::ZeroTopK => String::from_str("router.top_k must be at least 1"),
            ConfigError::ThresholdOutOfRange => String::from_str(
                "router.similarity_threshold must be between 0.0 and 1.0",
            ),
        }
    }
}

} // verus!

verus! {

/// Whether `${` begins at `i`.
pub open spec fn opens_at(s: Seq<char>, i: int) -> bool {
    0 <= i < s.len() - 1 && s[i] == '$' && s[i + 1] == '{'
}

/// Index of the first `${` at or after `i`.
pub open spec fn first_open_from(s: Seq<char>, i: int) -> Option<int>
    decreases s.len() - i,
{
    if i < 0 || i >= s.len() - 1 {
        None
    } else if opens_at(s, i) {
        Some(i)
    } else {
        first_open_from(s, i + 1)
    }
}

/// Index of the first `}` at or after `i`.
pub open spec fn first_close_from(s: Seq<char>, i: int) -> Option<int>
    decreases s.len() - i,
{
    if i < 0 || i >= s.len() {
        None
    } else if s[i] == '}' {
        Some(i)
    } else {
        first_close_from(s, i + 1)
    }
}

/// A `${NAME}` reference in a text: where it starts, and where its `}` is.
pub struct EnvReference {
    pub start: usize,
    pub close: usize,
}

/// The first environment reference of a text: the first `${`, up to the
/// first `}` after it; none if there is no `${`, or no `}` after it.
pub open spec fn first_reference(s: Seq<char>) -> Option<(int, int)> {
    match first_open_from(s, 0) {
        Some(start) => match first_close_from(s, start) {
            Some(close) => Some((start, close)),
            None => None,
        },
        None => None,
    }
}

/// Finds the first `${NAME}` reference of a text.
pub fn find_env_reference(s: &Vec<char>) -> (r: Option<EnvReference>)
    ensures
        match first_reference(s@) {
            Some((start, close)) => r matches Some(e) && e.start == start && e.close == close,
            None => r is None,
        },
{
    let mut i: usize = 0;
    while i < s.len() && s.len() - i > 1
        invariant
            i <= s.len(),
            first_open_from(s@, 0) == first_open_from(s@, i as int),
        decreases s.len() - i,
    {
        if s[i] == '$' && s[i + 1] == '{' {
            let mut j: usize = i;
            while j < s.len()
                invariant
                    i <= j <= s.len(),
                    first_open_from(s@, 0) == Some(i as int),
                    first_close_from(s@, i as int) == first_close_from(s@, j as int),
                decreases s.len() - j,
            {
                if s[j] == '}' {
                    return Some(EnvReference { start: i, close: j });
                }
                j = j + 1;
            }
            return None;
        }
        i = i + 1;
    }
    None
}

proof fn lemma_first_open_from(s: Seq<char>, i: int)
    ensures
        first_open_from(s, i) matches Some(k) ==> i <= k && opens_at(s, k),
    decreases s.len() - i,
{
    if !(i < 0 || i >= s.len() - 1) && !opens_at(s, i) {
        lemma_first_open_from(s, i + 1);
    }
}

proof fn lemma_first_close_from(s: Seq<char>, i: int)
    ensures
        first_close_from(s, i) matches Some(k) ==> i <= k < s.len() && s[k] == '}',
    decreases s.len() - i,
{
    if !(i < 0 || i >= s.len()) && s[i] != '}' {
        lemma_first_close_from(s, i + 1);
    }
}

/// The name inside a reference, between `${` and `}`.
pub fn reference_name(s: &Vec<char>, e: &EnvReference) -> (r: String)
    requires
        e.start + 2 <= e.close < s.len(),
    ensures
        r@ == s@.subrange(e.start + 2, e.close as int),
{
    let name = crate::text::slice_chars(s, e.start + 2, e.close);
    string_from_chars(&name)
}

/// The text with a reference replaced by a value.
pub fn substitute_reference(s: &Vec<char>, e: &EnvReference, value: &str) -> (r: Vec<char>)
    requires
        e.start < e.close < s.len(),
    ensures
        r@ == s@.subrange(0, e.start as int) + value@ + s@.subrange(e.close + 1, s.len() as int),
{
    let mut r = crate::text::slice_chars(s, 0, e.start);
    let v = str_chars(value);
    let mut i: usize = 0;
    let ghost head = r@;
    while i < v.len()
        invariant
            i <= v.len(),
            r@ == head + v@.take(i as int),
        decreases v.len() - i,
    {
        r.push(v[i]);
        proof {
            assert(v@.take(i + 1) =~= v@.take(i as int).push(v@[i as int]));
        }
        i = i + 1;
    }
    let tail = crate::text::slice_chars(s, e.close + 1, s.len());
    let mut k: usize = 0;
    let ghost mid = r@;
    while k < tail.len()
        invariant
            k <= tail.len(),
            r@ == mid + tail@.take(k as int),
        decreases tail.len() - k,
    {
        r.push(tail[k]);
        proof {
            assert(tail@.take(k + 1) =~= tail@.take(k as int).push(tail@[k as int]));
        }
        k = k + 1;
    }
    proof {
        assert(v@.take(v.len() as int) =~= v@);
        assert(tail@.take(tail.len() as int) =~= tail@);
        assert(r@ =~= s@.subrange(0, e.start as int) + value@ + s@.subrange(e.close + 1, s.len() as int));
    }
    r
}

/// A reference found by `find_env_reference` spans at least `${}`.
pub proof fn law_reference_spans_its_braces(s: Seq<char>)
    ensures
        first_reference(s) matches Some((start, close)) ==> 0 <= start && start + 2 <= close < s.len()
            && s[start] == '$' && s[start + 1] == '{' && s[close] == '}',
{
    lemma_first_open_from(s, 0);
    if let Some(st) = first_open_from(s, 0) {
        lemma_first_close_from(s, st);
    }
}

} // verus!
