//! Security policy: glob patterns, role-based access, per-server allow and
//! block lists, and the audit trail of tool calls.

pub mod glob;
pub mod rbac;
pub mod allowlist;
pub mod audit;

use vstd::prelude::*;
use crate::config::{AppConfig, RoleConfig, RoleSpec, ServerConfig};
use crate::protocol::ToolCallParams;
use crate::security::allowlist::{allowlist_permits, server_rule, AllowlistEngine, RuleSpec};
use crate::security::audit::{blocked_call_entry, tool_call_entry, AuditEntry};
use crate::security::rbac::{rbac_permits, role_models, role_names_unique, RbacEngine};
use crate::time::is_timestamp_of;

verus! {

/// Combined security engine: allow/block lists first, then roles.
pub struct SecurityEngine {
    rbac: RbacEngine,
    allowlist: AllowlistEngine,
    rbac_enabled: bool,
    audit_enabled: bool,
}

/// Whether a tool may be called: it must pass the allow/block lists and,
/// with RBAC on and a role given, that role's patterns. With RBAC on but no
/// role given the call is let through.
pub open spec fn tool_permitted(
    rules: Seq<RuleSpec>,
    roles: Seq<(Seq<char>, RoleSpec)>,
    rbac_enabled: bool,
    tool: Seq<char>,
    role: Option<Seq<char>>,
) -> bool {
    allowlist_permits(rules, tool) && (!rbac_enabled || match role {
        Some(r) => rbac_permits(roles, r, tool),
        None => true,
    })
}

impl SecurityEngine {
    /// The allow/block rules, one per server.
    pub closed spec fn rules(&self) -> Seq<RuleSpec> {
        self.allowlist@
    }

    /// The roles.
    pub closed spec fn roles(&self) -> Seq<(Seq<char>, RoleSpec)> {
        self.rbac@
    }

    /// Whether role-based access control is on.
    pub closed spec fn rbac_on(&self) -> bool {
        self.rbac_enabled
    }

    /// Whether audit logging is on.
    pub closed spec fn audit_on(&self) -> bool {
        self.audit_enabled
    }

    /// Whether role-based access control is on.
    pub fn rbac_enabled(&self) -> (r: bool)
        ensures
            r == self.rbac_on(),
    {
        self.rbac_enabled
    }

    /// Builds the engine from the configuration, whose roles are each
    /// named once.
    pub fn new(config: &AppConfig) -> (r: Self)
        requires
            role_names_unique(role_models(config.roles@)),
        ensures
            r.rules() == config.servers@.map_values(|s: ServerConfig| server_rule(s)),
            r.roles() == config.roles@.map_values(|p: (String, RoleConfig)| (p.0@, p.1@)),
            r.rbac_on() == config.security.enable_rbac,
            r.audit_on() == config.security.enable_audit_log,
    {
        SecurityEngine {
            rbac: RbacEngine::new(&config.roles),
            allowlist: AllowlistEngine::new(config.servers.as_slice()),
            rbac_enabled: config.security.enable_rbac,
            audit_enabled: config.security.enable_audit_log,
        }
    }

    /// Checks whether a tool may be called, by the given role if any.
    pub fn is_tool_allowed(&self, tool_fqn: &str, role: Option<&str>) -> (r: bool)
        ensures
            r == tool_permitted(self.rules(), self.roles(), self.rbac_on(), tool_fqn@, match role {
                Some(x) => Some(x@),
                None => None,
            }),
    {
        if !self.allowlist.is_allowed(tool_fqn) {
            return false;
        }
        if self.rbac_enabled {
            if let Some(role) = role {
                return self.rbac.is_allowed(role, tool_fqn);
            }
            return true;
        }
        true
    }

    /// The audit entry to write for a completed tool call, if auditing is on.
    pub fn audit_tool_call(
        &self,
        tool_name: &str,
        server_name: &str,
        params: &ToolCallParams,
        duration_ms: u64,
    ) -> (r: Option<AuditEntry>)
        ensures
            r is Some <==> self.audit_on(),
            r matches Some(e) ==> {
                &&& exists|secs: nat| #[trigger] is_timestamp_of(e.timestamp@, secs)
                &&& e.event@ == "tool_call"@
                &&& e.tool_name@ == tool_name@
                &&& e.server_name matches Some(s) && s@ == server_name@
                &&& e.arguments == params.arguments
                &&& e.duration_ms == Some(duration_ms)
                &&& e.reason is None
                &&& e.trace_id matches Some(t) && t@.len() == 36
            },
    {
        if self.audit_enabled {
            Some(tool_call_entry(tool_name, server_name, params, duration_ms))
        } else {
            None
        }
    }

    /// The audit entry to write for a refused tool call, if auditing is on.
    pub fn audit_blocked_call(&self, tool_name: &str, reason: &str) -> (r: Option<AuditEntry>)
        ensures
            r is Some <==> self.audit_on(),
            r matches Some(e) ==> {
                &&& exists|secs: nat| #[trigger] is_timestamp_of(e.timestamp@, secs)
                &&& e.event@ == "tool_blocked"@
                &&& e.tool_name@ == tool_name@
                &&& e.server_name is None
                &&& e.arguments is None
                &&& e.duration_ms is None
                &&& e.reason matches Some(s) && s@ == reason@
                &&& e.trace_id matches Some(t) && t@.len() == 36
            },
    {
        if self.audit_enabled {
            Some(blocked_call_entry(tool_name, reason))
        } else {
            None
        }
    }
}

} // verus!

verus! {

/// The allow and block lists come first: a tool they refuse is refused
/// whatever role asks for it.
pub proof fn law_lists_before_roles(
    rules: Seq<RuleSpec>,
    roles: Seq<(Seq<char>, RoleSpec)>,
    rbac_enabled: bool,
    tool: Seq<char>,
    role: Option<Seq<char>>,
)
    requires
        !allowlist_permits(rules, tool),
    ensures
        !tool_permitted(rules, roles, rbac_enabled, tool, role),
{
}

} // verus!
