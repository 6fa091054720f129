//! Per-server tool allow and block lists.

use vstd::prelude::*;
use crate::config::{ServerConfig, clone_strings};
use crate::security::glob::{glob_matches, glob_match_recursive};
use crate::text::{str_chars, find_char, first_index_of, slice_chars, chars_eq};

verus! {

/// The model of one server's rule: its name and its pattern lists.
pub struct RuleSpec {
    pub server: Seq<char>,
    pub allowed: Seq<Seq<char>>,
    pub blocked: Seq<Seq<char>>,
}

/// Splits a fully-qualified tool name at its first `/` into server and
/// tool; a name without `/` has an empty server part.
pub open spec fn split_fqn(fqn: Seq<char>) -> (Seq<char>, Seq<char>) {
    match first_index_of(fqn, '/') {
        Some(p) => (fqn.take(p), fqn.skip(p + 1)),
        None => (Seq::empty(), fqn),
    }
}

/// Whether a pattern matches the bare tool name or the full name.
pub open spec fn pattern_hits(pattern: Seq<char>, tool: Seq<char>, fqn: Seq<char>) -> bool {
    glob_matches(pattern, tool) || glob_matches(pattern, fqn)
}

/// Whether some pattern matches either the bare tool name or the full name.
pub open spec fn any_matches_either(patterns: Seq<Seq<char>>, tool: Seq<char>, fqn: Seq<char>) -> bool {
    exists|i: int| 0 <= i < patterns.len() && #[trigger] pattern_hits(patterns[i], tool, fqn)
}

/// Whether one rule lets the tool through: nothing blocked matches, and an
/// allowed list, if present, has a match.
pub open spec fn rule_permits(rule: RuleSpec, tool: Seq<char>, fqn: Seq<char>) -> bool {
    !any_matches_either(rule.blocked, tool, fqn) && (rule.allowed.len() == 0 || any_matches_either(
        rule.allowed,
        tool,
        fqn,
    ))
}

/// Whether a rule applies to the name: names without a server part are
/// checked against every rule, others only against their server's rules.
pub open spec fn rule_applies(rule: RuleSpec, fqn: Seq<char>) -> bool {
    split_fqn(fqn).0.len() == 0 || rule.server == split_fqn(fqn).0
}

/// Whether a tool name passes every rule that applies to it.
pub open spec fn allowlist_permits(rules: Seq<RuleSpec>, fqn: Seq<char>) -> bool {
    forall|i: int|
        0 <= i < rules.len() && #[trigger] rule_applies(rules[i], fqn) ==> rule_permits(
            rules[i],
            split_fqn(fqn).1,
            fqn,
        )
}

struct ServerToolRule {
    server_name: String,
    allowed_tools: Vec<String>,
    blocked_tools: Vec<String>,
}

impl View for ServerToolRule {
    type V = RuleSpec;

    closed spec fn view(&self) -> RuleSpec {
        RuleSpec {
            server: self.server_name@,
            allowed: self.allowed_tools.deep_view(),
            blocked: self.blocked_tools.deep_view(),
        }
    }
}

/// The rule that a server configuration gives.
pub open spec fn server_rule(s: ServerConfig) -> RuleSpec {
    RuleSpec {
        server: s.name@,
        allowed: s.allowed_tools.deep_view(),
        blocked: s.blocked_tools.deep_view(),
    }
}

/// Engine for enforcing tool allow/block lists per server.
pub struct AllowlistEngine {
    rules: Vec<ServerToolRule>,
}

impl View for AllowlistEngine {
    type V = Seq<RuleSpec>;

    closed spec fn view(&self) -> Seq<RuleSpec> {
        self.rules@.map_values(|r: ServerToolRule| r@)
    }
}

/// Checks one pattern list against the bare tool name and the full name.
fn any_pattern_matches_either(patterns: &Vec<String>, tool: &Vec<char>, fqn: &Vec<char>) -> (r: bool)
    ensures
        r == any_matches_either(patterns.deep_view(), tool@, fqn@),
{
    let mut i: usize = 0;
    while i < patterns.len()
        invariant
            i <= patterns.len(),
            forall|j: int| 0 <= j < i ==> !#[trigger] pattern_hits(patterns.deep_view()[j], tool@, fqn@),
        decreases patterns.len() - i,
    {
        let p = str_chars(patterns[i].as_str());
        if glob_match_recursive(&p, tool, 0, 0) || glob_match_recursive(&p, fqn, 0, 0) {
            proof {
                assert(pattern_hits(patterns.deep_view()[i as int], tool@, fqn@));
            }
            return true;
        }
        i = i + 1;
    }
    false
}

impl AllowlistEngine {
    /// Builds one rule per configured server, in configuration order.
    pub fn new(servers: &[ServerConfig]) -> (r: Self)
        ensures
            r@ == servers@.map_values(|s: ServerConfig| server_rule(s)),
    {
        let mut rules: Vec<ServerToolRule> = Vec::new();
        let mut i: usize = 0;
        while i < servers.len()
            invariant
                i <= servers.len(),
                rules.len() == i,
                forall|j: int| 0 <= j < i ==> #[trigger] rules@[j]@ == server_rule(servers@[j]),
            decreases servers.len() - i,
        {
            let s = &servers[i];
            let rule = ServerToolRule {
                server_name: s.name.clone(),
                allowed_tools: clone_strings(&s.allowed_tools),
                blocked_tools: clone_strings(&s.blocked_tools),
            };
            let ghost old_rules = rules@;
            rules.push(rule);
            proof {
                assert forall|j: int| 0 <= j < i + 1 implies #[trigger] rules@[j]@ == server_rule(
                    servers@[j],
                ) by {
                    if j < i {
                        assert(rules@[j] == old_rules[j]);
                    }
                }
            }
            i = i + 1;
        }
        proof {
            assert(rules@.map_values(|r: ServerToolRule| r@) =~= servers@.map_values(
                |s: ServerConfig| server_rule(s),
            ));
        }
        AllowlistEngine { rules }
    }

    /// Checks whether a tool passes the allow/block rules of its server (or,
    /// for a name without a server part, of every server).
    pub fn is_allowed(&self, tool_fqn: &str) -> (r: bool)
        ensures
            r == allowlist_permits(self@, tool_fqn@),
    {
        let fqn = str_chars(tool_fqn);
        let (server, tool) = match find_char(&fqn, '/') {
            Some(pos) => (slice_chars(&fqn, 0, pos), slice_chars(&fqn, pos + 1, fqn.len())),
            None => (Vec::new(), slice_chars(&fqn, 0, fqn.len())),
        };
        proof {
            assert(server@ == split_fqn(fqn@).0);
            assert(tool@ == split_fqn(fqn@).1);
        }
        let ghost rules = self@;
        let mut i: usize = 0;
        while i < self.rules.len()
            invariant
                i <= self.rules.len(),
                rules == self@,
                rules.len() == self.rules.len(),
                fqn@ == tool_fqn@,
                server@ == split_fqn(fqn@).0,
                tool@ == split_fqn(fqn@).1,
                forall|j: int|
                    0 <= j < i && #[trigger] rule_applies(rules[j], fqn@) ==> rule_permits(
                        rules[j],
                        tool@,
                        fqn@,
                    ),
            decreases self.rules.len() - i,
        {
            let rule = &self.rules[i];
            proof {
                assert(rules[i as int] == rule@);
            }
            let rule_server = str_chars(rule.server_name.as_str());
            if server.len() != 0 && !chars_eq(&rule_server, &server) {
                i = i + 1;
                continue;
            }
            proof {
                assert(rule_applies(rules[i as int], fqn@));
            }
            if any_pattern_matches_either(&rule.blocked_tools, &tool, &fqn) {
                return false;
            }
            if rule.allowed_tools.len() != 0 {
                let allowed = any_pattern_matches_either(&rule.allowed_tools, &tool, &fqn);
                if !allowed {
                    return false;
                }
            }
            i = i + 1;
        }
        true
    }
}

} // verus!

verus! {

/// A blocked pattern of a rule that applies refuses the tool, whatever the
/// allowed lists say.
pub proof fn law_block_wins(rules: Seq<RuleSpec>, fqn: Seq<char>, k: int)
    requires
        0 <= k < rules.len(),
        rule_applies(rules[k], fqn),
        any_matches_either(rules[k].blocked, split_fqn(fqn).1, fqn),
    ensures
        !allowlist_permits(rules, fqn),
{
}

/// A fully-qualified name of a server without a rule passes.
pub proof fn law_unruled_server_passes(rules: Seq<RuleSpec>, fqn: Seq<char>)
    requires
        split_fqn(fqn).0.len() > 0,
        forall|i: int| 0 <= i < rules.len() ==> rules[i].server != split_fqn(fqn).0,
    ensures
        allowlist_permits(rules, fqn),
{
}

} // verus!
