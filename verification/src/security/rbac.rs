//! Role-based access control: each role names the tool patterns it may and
//! may not use.

use vstd::prelude::*;
use crate::config::{RoleConfig, RoleSpec};
use crate::security::glob::{any_matches, any_pattern_matches};
use crate::text::str_chars;
pub use crate::security::glob::glob_match;

verus! {

/// Whether a role's patterns let it use a tool: no blocked pattern matches,
/// and either the allowed list is empty or one of its patterns matches.
pub open spec fn role_permits(role: RoleSpec, tool: Seq<char>) -> bool {
    !any_matches(role.blocked, tool) && (role.allowed.len() == 0 || any_matches(role.allowed, tool))
}

/// Index of the first role with the given name.
pub open spec fn role_index(roles: Seq<(Seq<char>, RoleSpec)>, name: Seq<char>) -> Option<int> {
    if exists|i: int| 0 <= i < roles.len() && roles[i].0 == name {
        Some(
            choose|i: int|
                0 <= i < roles.len() && roles[i].0 == name && forall|j: int|
                    0 <= j < i ==> roles[j].0 != name,
        )
    } else {
        None
    }
}

/// Whether the role of that name may use the tool; unknown roles may use nothing.
pub open spec fn rbac_permits(roles: Seq<(Seq<char>, RoleSpec)>, role: Seq<char>, tool: Seq<char>) -> bool {
    match role_index(roles, role) {
        Some(i) => role_permits(roles[i].1, tool),
        None => false,
    }
}

/// No two roles share a name: roles are configured by name.
pub open spec fn role_names_unique(roles: Seq<(Seq<char>, RoleSpec)>) -> bool {
    forall|i: int, j: int|
        0 <= i < roles.len() && 0 <= j < roles.len() && i != j ==> #[trigger] roles[i].0
            != #[trigger] roles[j].0
}

/// The models of configured roles, by name.
pub open spec fn role_models(roles: Seq<(String, RoleConfig)>) -> Seq<(Seq<char>, RoleSpec)> {
    roles.map_values(|p: (String, RoleConfig)| (p.0@, p.1@))
}

/// RBAC engine for tool access control.
pub struct RbacEngine {
    roles: Vec<(String, RoleConfig)>,
}

impl View for RbacEngine {
    type V = Seq<(Seq<char>, RoleSpec)>;

    closed spec fn view(&self) -> Seq<(Seq<char>, RoleSpec)> {
        self.roles@.map_values(|p: (String, RoleConfig)| (p.0@, p.1@))
    }
}

impl RbacEngine {
    /// The engine's invariant: each role name once.
    pub open spec fn wf(&self) -> bool {
        role_names_unique(self@)
    }

    /// Builds the engine from the configured roles, each named once.
    pub fn new(roles: &Vec<(String, RoleConfig)>) -> (r: Self)
        requires
            role_names_unique(role_models(roles@)),
        ensures
            r@ == role_models(roles@),
            r.wf(),
    {
        let mut v: Vec<(String, RoleConfig)> = Vec::new();
        let mut i: usize = 0;
        while i < roles.len()
            invariant
                i <= roles.len(),
                v.len() == i,
                forall|j: int|
                    0 <= j < i ==> #[trigger] v@[j].0@ == roles@[j].0@ && v@[j].1@ == roles@[j].1@,
            decreases roles.len() - i,
        {
            let name = roles[i].0.clone();
            let role = roles[i].1.duplicate();
            let ghost old_v = v@;
            proof {
                assert(name@ == roles@[i as int].0@);
                assert(role@ == roles@[i as int].1@);
            }
            v.push((name, role));
            proof {
                assert forall|j: int| 0 <= j < i + 1 implies #[trigger] v@[j].0@ == roles@[j].0@
                    && v@[j].1@ == roles@[j].1@ by {
                    if j < i {
                        assert(v@[j] == old_v[j]);
                    }
                }
            }
            i = i + 1;
        }
        proof {
            assert(v@.map_values(|p: (String, RoleConfig)| (p.0@, p.1@)) =~= roles@.map_values(
                |p: (String, RoleConfig)| (p.0@, p.1@),
            ));
        }
        RbacEngine { roles: v }
    }

    /// Checks whether a role may use a tool: blocked patterns take
    /// precedence, an empty allowed list allows everything, and unknown
    /// roles are denied.
    pub fn is_allowed(&self, role: &str, tool_fqn: &str) -> (r: bool)
        ensures
            r == rbac_permits(self@, role@, tool_fqn@),
    {
        let role_s = String::from_str(role);
        let tool = str_chars(tool_fqn);
        let ghost roles = self@;
        let mut i: usize = 0;
        while i < self.roles.len()
            invariant
                i <= self.roles.len(),
                roles == self@,
                roles.len() == self.roles.len(),
                role_s@ == role@,
                tool@ == tool_fqn@,
                forall|j: int| 0 <= j < i ==> roles[j].0 != role@,
            decreases self.roles.len() - i,
        {
            if self.roles[i].0 == role_s {
                proof {
                    assert(roles[i as int].0 == role@);
                    let k = role_index(roles, role@)->0;
                    assert(k == i) by {
                        if k < i {
                        } else if k > i {
                        }
                    }
                }
                let role_config = &self.roles[i].1;
                if any_pattern_matches(&role_config.blocked_tools, &tool) {
                    return false;
                }
                if role_config.allowed_tools.len() == 0 {
                    return true;
                }
                return any_pattern_matches(&role_config.allowed_tools, &tool);
            }
            i = i + 1;
        }
        false
    }

    /// Lists the names of all roles.
    pub fn list_roles(&self) -> (r: Vec<String>)
        ensures
            r.deep_view() == self@.map_values(|p: (Seq<char>, RoleSpec)| p.0),
    {
        let mut r: Vec<String> = Vec::new();
        let mut i: usize = 0;
        while i < self.roles.len()
            invariant
                i <= self.roles.len(),
                self@.len() == self.roles.len(),
                r.len() == i,
                forall|j: int| 0 <= j < i ==> #[trigger] r@[j]@ == self@[j].0,
            decreases self.roles.len() - i,
        {
            r.push(self.roles[i].0.clone());
            i = i + 1;
        }
        proof {
            assert(r.deep_view() =~= self@.map_values(|p: (Seq<char>, RoleSpec)| p.0));
        }
        r
    }
}

} // verus!

verus! {

/// A role that is not configured may use nothing.
pub proof fn law_unknown_role_is_refused(roles: Seq<(Seq<char>, RoleSpec)>, role: Seq<char>, tool: Seq<char>)
    requires
        forall|i: int| 0 <= i < roles.len() ==> roles[i].0 != role,
    ensures
        !rbac_permits(roles, role, tool),
{
}

/// A blocked pattern of a role wins over its allowed patterns.
pub proof fn law_role_block_wins(roles: Seq<(Seq<char>, RoleSpec)>, role: Seq<char>, tool: Seq<char>, k: int)
    requires
        role_index(roles, role) == Some(k),
        any_matches(roles[k].1.blocked, tool),
    ensures
        !rbac_permits(roles, role, tool),
{
}

/// A role allowed `*` may use every tool none of its blocked patterns
/// matches.
pub proof fn law_wildcard_role_allows_unblocked(
    roles: Seq<(Seq<char>, RoleSpec)>,
    role: Seq<char>,
    tool: Seq<char>,
    k: int,
)
    requires
        role_index(roles, role) == Some(k),
        roles[k].1.allowed.contains(seq!['*']),
        !any_matches(roles[k].1.blocked, tool),
    ensures
        rbac_permits(roles, role, tool),
{
    crate::security::glob::law_star_matches_everything(tool);
    let j = choose|j: int| 0 <= j < roles[k].1.allowed.len() && roles[k].1.allowed[j] == seq!['*'];
    assert(crate::security::glob::glob_matches(roles[k].1.allowed[j], tool));
}

} // verus!
