//! The upstream registry: which servers are known, which tools, resources
//! and prompts each offers, and which server answers a given name.
//!
//! Tool names that two servers both register are ambiguous: the bare name is
//! taken out of the index so that a call never goes to the wrong server, and
//! both tools stay reachable by their fully-qualified names `server/tool`.

use vstd::prelude::*;
use crate::config::ServerConfig;
use crate::protocol::index::NameIndex;
use crate::protocol::{
    fqn, make_fqn, PromptDefinition, RegisteredPrompt, RegisteredResource, RegisteredTool,
    ResourceDefinition, ToolDefinition,
};
use crate::text::StringExecFns;
use crate::protocol::routing::{
    dispatch_sound, lemma_backed_after_push, lemma_backed_after_reindex, lemma_backed_after_unindex,
    lemma_index_keys_origin, lemma_index_tools_origin, lemma_unindex_keys, prompt_owners,
    resource_owners, routes_avoid, tool_owners,
};

verus! {

/// A connected (or formerly connected) upstream MCP server.
pub struct UpstreamServer {
    pub name: String,
    pub config: ServerConfig,
    pub tools: Vec<ToolDefinition>,
    pub resources: Vec<ResourceDefinition>,
    pub prompts: Vec<PromptDefinition>,
    pub connected: bool,
}

/// The names of a list of tools.
pub open spec fn tool_names(tools: Seq<ToolDefinition>) -> Seq<Seq<char>> {
    tools.map_values(|t: ToolDefinition| t.name@)
}

/// The URIs of a list of resources.
pub open spec fn resource_uris(resources: Seq<ResourceDefinition>) -> Seq<Seq<char>> {
    resources.map_values(|r: ResourceDefinition| r.uri@)
}

/// The names of a list of prompts.
pub open spec fn prompt_names(prompts: Seq<PromptDefinition>) -> Seq<Seq<char>> {
    prompts.map_values(|p: PromptDefinition| p.name@)
}

/// Indexes one tool of `server`: its fully-qualified name always; its bare
/// name only while no other server has claimed it and it has not been
/// withdrawn. A bare name that another server already claims is taken out
/// and withdrawn (`withdrawn` lists such names); it stays withdrawn while a
/// connected server still declares it (see `still_claimed`).
pub open spec fn index_tool(
    idx: Map<Seq<char>, Seq<char>>,
    withdrawn: Seq<Seq<char>>,
    server: Seq<char>,
    name: Seq<char>,
) -> Map<Seq<char>, Seq<char>> {
    let idx1 = idx.insert(fqn(server, name), server);
    if withdrawn.contains(name) {
        idx1
    } else if idx1.contains_key(name) {
        if idx1[name] != server {
            idx1.remove(name)
        } else {
            idx1
        }
    } else {
        idx1.insert(name, server)
    }
}

/// The withdrawn bare names after indexing one tool: its name joins them
/// when another server already claims it.
pub open spec fn withdraw_tool(
    idx: Map<Seq<char>, Seq<char>>,
    withdrawn: Seq<Seq<char>>,
    server: Seq<char>,
    name: Seq<char>,
) -> Seq<Seq<char>> {
    let idx1 = idx.insert(fqn(server, name), server);
    if !withdrawn.contains(name) && idx1.contains_key(name) && idx1[name] != server {
        withdrawn.push(name)
    } else {
        withdrawn
    }
}

/// Indexes the tools of `server` in order.
pub open spec fn index_tools(
    idx: Map<Seq<char>, Seq<char>>,
    withdrawn: Seq<Seq<char>>,
    server: Seq<char>,
    names: Seq<Seq<char>>,
) -> Map<Seq<char>, Seq<char>>
    decreases names.len(),
{
    if names.len() == 0 {
        idx
    } else {
        index_tool(
            index_tools(idx, withdrawn, server, names.drop_last()),
            withdrawn_after(idx, withdrawn, server, names.drop_last()),
            server,
            names.last(),
        )
    }
}

/// The withdrawn bare names after indexing the tools of `server` in order.
pub open spec fn withdrawn_after(
    idx: Map<Seq<char>, Seq<char>>,
    withdrawn: Seq<Seq<char>>,
    server: Seq<char>,
    names: Seq<Seq<char>>,
) -> Seq<Seq<char>>
    decreases names.len(),
{
    if names.len() == 0 {
        withdrawn
    } else {
        withdraw_tool(
            index_tools(idx, withdrawn, server, names.drop_last()),
            withdrawn_after(idx, withdrawn, server, names.drop_last()),
            server,
            names.last(),
        )
    }
}

/// Whether a connected server declares a tool of that bare name.
pub open spec fn claimed_by_connected(servers: Seq<UpstreamServer>, name: Seq<char>) -> bool {
    exists|i: int, j: int|
        0 <= i < servers.len() && servers[i].connected && 0 <= j < servers[i].tools.len()
            && (#[trigger] servers[i].tools@[j]).name@ == name
}

/// The withdrawn bare names that a connected server still declares, in
/// order. A name no connected server declares is free again: the next
/// server to declare it alone gets it back.
pub open spec fn still_claimed(withdrawn: Seq<Seq<char>>, servers: Seq<UpstreamServer>) -> Seq<Seq<char>>
    decreases withdrawn.len(),
{
    if withdrawn.len() == 0 {
        withdrawn
    } else if claimed_by_connected(servers, withdrawn.last()) {
        still_claimed(withdrawn.drop_last(), servers).push(withdrawn.last())
    } else {
        still_claimed(withdrawn.drop_last(), servers)
    }
}

/// Indexes resources or prompts of `server`: each key and its
/// fully-qualified form point to the server.
pub open spec fn index_keys(idx: Map<Seq<char>, Seq<char>>, server: Seq<char>, keys: Seq<Seq<char>>) -> Map<
    Seq<char>,
    Seq<char>,
>
    decreases keys.len(),
{
    if keys.len() == 0 {
        idx
    } else {
        index_keys(idx, server, keys.drop_last()).insert(keys.last(), server).insert(
            fqn(server, keys.last()),
            server,
        )
    }
}

/// Takes each key and its fully-qualified form out of the index.
pub open spec fn unindex_keys(idx: Map<Seq<char>, Seq<char>>, server: Seq<char>, keys: Seq<Seq<char>>) -> Map<
    Seq<char>,
    Seq<char>,
>
    decreases keys.len(),
{
    if keys.len() == 0 {
        idx
    } else {
        unindex_keys(idx, server, keys.drop_last()).remove(keys.last()).remove(fqn(server, keys.last()))
    }
}

/// Index of the server with the given name.
pub open spec fn server_pos(servers: Seq<UpstreamServer>, name: Seq<char>) -> Option<int> {
    if exists|i: int| 0 <= i < servers.len() && servers[i].name@ == name {
        Some(choose|i: int| 0 <= i < servers.len() && servers[i].name@ == name)
    } else {
        None
    }
}

/// Where a call is to be sent.
pub enum CallTarget {
    /// A streamable-HTTP server at this URL.
    Http { url: String },
    /// A stdio server, reached over its persistent connection.
    Stdio,
}

/// Why a call cannot be routed.
pub enum MuxError {
    ServerNotFound { server: String },
    NotConnected { server: String },
    ResourceNotFound { uri: String },
    PromptNotFound { name: String },
    NoActiveConnection { server: String },
}

/// Where a call to a server goes: nowhere if the server is unknown or
/// disconnected, over HTTP if it has a URL, over stdio otherwise.
pub open spec fn call_target_spec(servers: Seq<UpstreamServer>, name: Seq<char>, r: Result<CallTarget, MuxError>) -> bool {
    match server_pos(servers, name) {
        None => r matches Err(MuxError::ServerNotFound { server }) && server@ == name,
        Some(i) => if !servers[i].connected {
            r matches Err(MuxError::NotConnected { server }) && server@ == name
        } else {
            match servers[i].config.url {
                Some(u) => r matches Ok(CallTarget::Http { url }) && url@ == u@,
                None => r matches Ok(CallTarget::Stdio),
            }
        },
    }
}

/// Status of one server, for the dashboard.
pub struct ServerStatus {
    pub name: String,
    pub connected: bool,
    pub tools: usize,
    pub resources: usize,
    pub prompts: usize,
    /// Whether the server is reached over HTTP (otherwise over stdio).
    pub http: bool,
}

/// The multiplexer's registry of upstream servers and its routing indexes.
pub struct Multiplexer {
    servers: Vec<UpstreamServer>,
    tool_index: NameIndex,
    resource_index: NameIndex,
    prompt_index: NameIndex,
    all_tools: Vec<RegisteredTool>,
    all_resources: Vec<RegisteredResource>,
    all_prompts: Vec<RegisteredPrompt>,
    withdrawn: Vec<String>,
}

/// `r` registers `def` under `server`.
pub open spec fn registers_tool(r: RegisteredTool, def: ToolDefinition, server: Seq<char>) -> bool {
    r.definition == def && r.server_name@ == server && r.fqn@ == fqn(server, def.name@)
}

/// `r` registers `def` under `server`.
pub open spec fn registers_resource(r: RegisteredResource, def: ResourceDefinition, server: Seq<char>) -> bool {
    r.definition == def && r.server_name@ == server && r.fqn@ == fqn(server, def.uri@)
}

/// `r` registers `def` under `server`.
pub open spec fn registers_prompt(r: RegisteredPrompt, def: PromptDefinition, server: Seq<char>) -> bool {
    r.definition == def && r.server_name@ == server && r.fqn@ == fqn(server, def.name@)
}

impl Multiplexer {
    /// The known servers, each name once.
    pub closed spec fn servers_view(&self) -> Seq<UpstreamServer> {
        self.servers@
    }

    /// Tool name (bare or fully-qualified) to server name.
    pub closed spec fn tool_routes(&self) -> Map<Seq<char>, Seq<char>> {
        self.tool_index.view()
    }

    /// Resource URI (bare or fully-qualified) to server name.
    pub closed spec fn resource_routes(&self) -> Map<Seq<char>, Seq<char>> {
        self.resource_index.view()
    }

    /// Prompt name (bare or fully-qualified) to server name.
    pub closed spec fn prompt_routes(&self) -> Map<Seq<char>, Seq<char>> {
        self.prompt_index.view()
    }

    /// All registered tools, in registration order.
    pub closed spec fn tools_view(&self) -> Seq<RegisteredTool> {
        self.all_tools@
    }

    /// All registered resources, in registration order.
    pub closed spec fn resources_view(&self) -> Seq<RegisteredResource> {
        self.all_resources@
    }

    /// All registered prompts, in registration order.
    pub closed spec fn prompts_view(&self) -> Seq<RegisteredPrompt> {
        self.all_prompts@
    }

    /// The bare tool names withdrawn because two servers claimed them, in
    /// the order they were withdrawn.
    pub closed spec fn withdrawn_view(&self) -> Seq<Seq<char>> {
        self.withdrawn@.map_values(|n: String| n@)
    }

    /// The indexes are well formed and server names are distinct.
    pub closed spec fn wf(&self) -> bool {
        &&& self.tool_index.wf()
        &&& self.resource_index.wf()
        &&& self.prompt_index.wf()
        &&& forall|i: int, j: int|
            0 <= i < self.servers.len() && 0 <= j < self.servers.len() && i != j
                ==> #[trigger] self.servers@[i].name@ != #[trigger] self.servers@[j].name@
    }

    /// A multiplexer that knows no server yet.
    pub fn empty() -> (r: Self)
        ensures
            r.wf(),
            r.servers_view().len() == 0,
            r.tool_routes() == Map::<Seq<char>, Seq<char>>::empty(),
            r.resource_routes() == Map::<Seq<char>, Seq<char>>::empty(),
            r.prompt_routes() == Map::<Seq<char>, Seq<char>>::empty(),
            r.tools_view().len() == 0,
            r.resources_view().len() == 0,
            r.prompts_view().len() == 0,
            r.withdrawn_view().len() == 0,
    {
        Multiplexer {
            servers: Vec::new(),
            tool_index: NameIndex::new(),
            resource_index: NameIndex::new(),
            prompt_index: NameIndex::new(),
            all_tools: Vec::new(),
            all_resources: Vec::new(),
            all_prompts: Vec::new(),
            withdrawn: Vec::new(),
        }
    }

    fn is_withdrawn(&self, name: &String) -> (r: bool)
        ensures
            r == self.withdrawn_view().contains(name@),
    {
        let ghost w = self.withdrawn_view();
        let mut i: usize = 0;
        while i < self.withdrawn.len()
            invariant
                i <= self.withdrawn.len(),
                w == self.withdrawn_view(),
                w.len() == self.withdrawn.len(),
                forall|j: int| 0 <= j < i ==> w[j] != name@,
            decreases self.withdrawn.len() - i,
        {
            if self.withdrawn[i] == *name {
                proof {
                    assert(w[i as int] == name@);
                }
                return true;
            }
            i = i + 1;
        }
        false
    }

    fn is_claimed_by_connected(&self, name: &String) -> (r: bool)
        ensures
            r == claimed_by_connected(self.servers_view(), name@),
    {
        let ghost sv = self.servers_view();
        let mut i: usize = 0;
        while i < self.servers.len()
            invariant
                i <= self.servers.len(),
                sv == self.servers_view(),
                sv == self.servers@,
                forall|a: int, b: int|
                    0 <= a < i && sv[a].connected && 0 <= b < sv[a].tools.len() ==> (#[trigger] sv[a].tools@[b]).name@
                        != name@,
            decreases self.servers.len() - i,
        {
            if self.servers[i].connected {
                let tools = &self.servers[i].tools;
                let mut j: usize = 0;
                while j < tools.len()
                    invariant
                        i < self.servers.len(),
                        j <= tools.len(),
                        *tools == sv[i as int].tools,
                        sv[i as int].connected,
                        sv == self.servers@,
                        forall|b: int| 0 <= b < j ==> (#[trigger] tools@[b]).name@ != name@,
                    decreases tools.len() - j,
                {
                    if tools[j].name == *name {
                        proof {
                            assert(sv[i as int].tools@[j as int].name@ == name@);
                        }
                        return true;
                    }
                    j = j + 1;
                }
            }
            i = i + 1;
        }
        false
    }

    /// The withdrawn names that a connected server still declares.
    fn withdrawn_still_claimed(&self) -> (r: Vec<String>)
        ensures
            r@.map_values(|n: String| n@) == still_claimed(self.withdrawn_view(), self.servers_view()),
    {
        let ghost w = self.withdrawn_view();
        let mut r: Vec<String> = Vec::new();
        let mut i: usize = 0;
        while i < self.withdrawn.len()
            invariant
                i <= self.withdrawn.len(),
                w == self.withdrawn_view(),
                w.len() == self.withdrawn.len(),
                r@.map_values(|n: String| n@) == still_claimed(w.take(i as int), self.servers_view()),
            decreases self.withdrawn.len() - i,
        {
            let name = &self.withdrawn[i];
            proof {
                assert(w.take(i + 1).drop_last() =~= w.take(i as int));
                assert(w.take(i + 1).last() == name@);
            }
            if self.is_claimed_by_connected(name) {
                let ghost before = r@;
                r.push(name.clone());
                proof {
                    assert(r@.map_values(|n: String| n@) =~= before.map_values(|n: String| n@).push(name@));
                }
            }
            i = i + 1;
        }
        proof {
            assert(w.take(i as int) =~= w);
        }
        r
    }

    fn find_server(&self, name: &str) -> (r: Option<usize>)
        requires
            self.wf(),
        ensures
            r matches Some(i) ==> server_pos(self.servers@, name@) == Some(i as int) && i
                < self.servers.len(),
            r is None ==> server_pos(self.servers@, name@) is None,
    {
        let name_s = String::from_str(name);
        let mut i: usize = 0;
        while i < self.servers.len()
            invariant
                i <= self.servers.len(),
                self.wf(),
                name_s@ == name@,
                forall|j: int| 0 <= j < i ==> self.servers@[j].name@ != name@,
            decreases self.servers.len() - i,
        {
            if self.servers[i].name == name_s {
                proof {
                    assert(0 <= i < self.servers@.len() && self.servers@[i as int].name@ == name@);
                    assert(exists|j: int| 0 <= j < self.servers@.len() && self.servers@[j].name@ == name@);
                    let k = server_pos(self.servers@, name@)->0;
                    assert(0 <= k < self.servers@.len() && self.servers@[k].name@ == name@);
                    assert(self.wf());
                    if k != i {
                        let ii = i as int;
                        assert(0 <= ii < self.servers.len() && 0 <= k < self.servers.len() && ii != k);
                        assert(self.servers@[k].name@ != self.servers@[ii].name@);
                    }
                }
                return Some(i);
            }
            i = i + 1;
        }
        None
    }

    fn index_tools_of(&mut self, server_name: &String, tools: &Vec<ToolDefinition>)
        requires
            old(self).wf(),
        ensures
            final(self).wf(),
            final(self).servers@ == old(self).servers@,
            final(self).resource_index == old(self).resource_index,
            final(self).prompt_index == old(self).prompt_index,
            final(self).all_resources == old(self).all_resources,
            final(self).all_prompts == old(self).all_prompts,
            final(self).tool_routes() == index_tools(old(self).tool_routes(), old(self).withdrawn_view(), server_name@, tool_names(tools@)),
            final(self).withdrawn_view() == withdrawn_after(old(self).tool_routes(), old(self).withdrawn_view(), server_name@, tool_names(tools@)),
            final(self).all_tools@.len() == old(self).all_tools@.len() + tools.len(),
            forall|j: int| 0 <= j < old(self).all_tools@.len() ==> #[trigger] final(self).all_tools@[j] == old(self).all_tools@[j],
            forall|j: int| 0 <= j < tools.len() ==> registers_tool(#[trigger] final(self).all_tools@[old(self).all_tools@.len() + j], tools@[j], server_name@),
    {
        let ghost names = tool_names(tools@);
        let ghost n0 = self.all_tools@.len();
        let mut i: usize = 0;
        while i < tools.len()
            invariant
                i <= tools.len(),
                names == tool_names(tools@),
                self.wf(),
                self.servers@ == old(self).servers@,
                self.resource_index == old(self).resource_index,
                self.prompt_index == old(self).prompt_index,
                self.all_resources == old(self).all_resources,
                self.all_prompts == old(self).all_prompts,
                n0 == old(self).all_tools@.len(),
                self.tool_routes() == index_tools(old(self).tool_routes(), old(self).withdrawn_view(), server_name@, names.take(i as int)),
                self.withdrawn_view() == withdrawn_after(old(self).tool_routes(), old(self).withdrawn_view(), server_name@, names.take(i as int)),
                self.all_tools@.len() == n0 + i,
                forall|j: int| 0 <= j < n0 ==> #[trigger] self.all_tools@[j] == old(self).all_tools@[j],
                forall|j: int| 0 <= j < i ==> registers_tool(#[trigger] self.all_tools@[n0 + j], tools@[j], server_name@),
            decreases tools.len() - i,
        {
            let tool = &tools[i];
            let registered = RegisteredTool::new(tool.clone(), server_name.as_str());
            let ghost before = self.tool_routes();
            let ghost wbefore = self.withdrawn_view();
            let withdrawn_name = self.is_withdrawn(&tool.name);
            self.tool_index.insert(registered.fqn.clone(), server_name.clone());
            if !withdrawn_name {
                match self.tool_index.get(tool.name.as_str()) {
                    Some(existing) => {
                        if existing != *server_name {
                            self.tool_index.remove(tool.name.as_str());
                            self.withdrawn.push(tool.name.clone());
                            proof {
                                assert(self.withdrawn_view() =~= wbefore.push(tool.name@));
                            }
                        }
                    },
                    None => {
                        self.tool_index.insert(tool.name.clone(), server_name.clone());
                    },
                }
            }
            proof {
                assert(names.take(i + 1).drop_last() =~= names.take(i as int));
                assert(names.take(i + 1).last() == tool.name@);
                assert(self.tool_routes() =~= index_tool(before, wbefore, server_name@, tool.name@));
                assert(self.withdrawn_view() =~= withdraw_tool(before, wbefore, server_name@, tool.name@));
            }
            let ghost prev = self.all_tools@;
            self.all_tools.push(registered);
            proof {
                assert forall|j: int| 0 <= j < i + 1 implies registers_tool(#[trigger] self.all_tools@[n0 + j], tools@[j], server_name@) by {
                    if j < i {
                        assert(self.all_tools@[n0 + j] == prev[n0 + j]);
                    }
                }
                assert forall|j: int| 0 <= j < n0 implies #[trigger] self.all_tools@[j] == old(self).all_tools@[j] by {
                    assert(self.all_tools@[j] == prev[j]);
                }
            }
            i = i + 1;
        }
        proof {
            assert(names.take(tools.len() as int) =~= names);
        }
    }

    fn index_resources_of(&mut self, server_name: &String, resources: &Vec<ResourceDefinition>)
        requires
            old(self).wf(),
        ensures
            final(self).wf(),
            final(self).servers@ == old(self).servers@,
            final(self).tool_index == old(self).tool_index,
            final(self).prompt_index == old(self).prompt_index,
            final(self).all_tools == old(self).all_tools,
            final(self).all_prompts == old(self).all_prompts,
            final(self).withdrawn == old(self).withdrawn,
            final(self).resource_routes() == index_keys(old(self).resource_routes(), server_name@, resource_uris(resources@)),
            final(self).all_resources@.len() == old(self).all_resources@.len() + resources.len(),
            forall|j: int| 0 <= j < old(self).all_resources@.len() ==> #[trigger] final(self).all_resources@[j] == old(self).all_resources@[j],
            forall|j: int| 0 <= j < resources.len() ==> registers_resource(#[trigger] final(self).all_resources@[old(self).all_resources@.len() + j], resources@[j], server_name@),
    {
        let ghost keys = resource_uris(resources@);
        let ghost n0 = self.all_resources@.len();
        let mut i: usize = 0;
        while i < resources.len()
            invariant
                i <= resources.len(),
                keys == resource_uris(resources@),
                self.wf(),
                self.servers@ == old(self).servers@,
                self.tool_index == old(self).tool_index,
                self.prompt_index == old(self).prompt_index,
                self.all_tools == old(self).all_tools,
                self.all_prompts == old(self).all_prompts,
                self.withdrawn == old(self).withdrawn,
                n0 == old(self).all_resources@.len(),
                self.resource_routes() == index_keys(old(self).resource_routes(), server_name@, keys.take(i as int)),
                self.all_resources@.len() == n0 + i,
                forall|j: int| 0 <= j < n0 ==> #[trigger] self.all_resources@[j] == old(self).all_resources@[j],
                forall|j: int| 0 <= j < i ==> registers_resource(#[trigger] self.all_resources@[n0 + j], resources@[j], server_name@),
            decreases resources.len() - i,
        {
            let resource = &resources[i];
            let registered = RegisteredResource::new(resource.clone(), server_name.as_str());
            self.resource_index.insert(resource.uri.clone(), server_name.clone());
            self.resource_index.insert(registered.fqn.clone(), server_name.clone());
            proof {
                assert(keys.take(i + 1).drop_last() =~= keys.take(i as int));
                assert(keys.take(i + 1).last() == resource.uri@);
            }
            let ghost prev = self.all_resources@;
            self.all_resources.push(registered);
            proof {
                assert forall|j: int| 0 <= j < i + 1 implies registers_resource(#[trigger] self.all_resources@[n0 + j], resources@[j], server_name@) by {
                    if j < i {
                        assert(self.all_resources@[n0 + j] == prev[n0 + j]);
                    }
                }
                assert forall|j: int| 0 <= j < n0 implies #[trigger] self.all_resources@[j] == old(self).all_resources@[j] by {
                    assert(self.all_resources@[j] == prev[j]);
                }
            }
            i = i + 1;
        }
        proof {
            assert(keys.take(resources.len() as int) =~= keys);
        }
    }

    fn index_prompts_of(&mut self, server_name: &String, prompts: &Vec<PromptDefinition>)
        requires
            old(self).wf(),
        ensures
            final(self).wf(),
            final(self).servers@ == old(self).servers@,
            final(self).tool_index == old(self).tool_index,
            final(self).resource_index == old(self).resource_index,
            final(self).all_tools == old(self).all_tools,
            final(self).all_resources == old(self).all_resources,
            final(self).withdrawn == old(self).withdrawn,
            final(self).prompt_routes() == index_keys(old(self).prompt_routes(), server_name@, prompt_names(prompts@)),
            final(self).all_prompts@.len() == old(self).all_prompts@.len() + prompts.len(),
            forall|j: int| 0 <= j < old(self).all_prompts@.len() ==> #[trigger] final(self).all_prompts@[j] == old(self).all_prompts@[j],
            forall|j: int| 0 <= j < prompts.len() ==> registers_prompt(#[trigger] final(self).all_prompts@[old(self).all_prompts@.len() + j], prompts@[j], server_name@),
    {
        let ghost keys = prompt_names(prompts@);
        let ghost n0 = self.all_prompts@.len();
        let mut i: usize = 0;
        while i < prompts.len()
            invariant
                i <= prompts.len(),
                keys == prompt_names(prompts@),
                self.wf(),
                self.servers@ == old(self).servers@,
                self.tool_index == old(self).tool_index,
                self.resource_index == old(self).resource_index,
                self.all_tools == old(self).all_tools,
                self.all_resources == old(self).all_resources,
                self.withdrawn == old(self).withdrawn,
                n0 == old(self).all_prompts@.len(),
                self.prompt_routes() == index_keys(old(self).prompt_routes(), server_name@, keys.take(i as int)),
                self.all_prompts@.len() == n0 + i,
                forall|j: int| 0 <= j < n0 ==> #[trigger] self.all_prompts@[j] == old(self).all_prompts@[j],
                forall|j: int| 0 <= j < i ==> registers_prompt(#[trigger] self.all_prompts@[n0 + j], prompts@[j], server_name@),
            decreases prompts.len() - i,
        {
            let prompt = &prompts[i];
            let registered = RegisteredPrompt::new(prompt.clone(), server_name.as_str());
            self.prompt_index.insert(prompt.name.clone(), server_name.clone());
            self.prompt_index.insert(registered.fqn.clone(), server_name.clone());
            proof {
                assert(keys.take(i + 1).drop_last() =~= keys.take(i as int));
                assert(keys.take(i + 1).last() == prompt.name@);
            }
            let ghost prev = self.all_prompts@;
            self.all_prompts.push(registered);
            proof {
                assert forall|j: int| 0 <= j < i + 1 implies registers_prompt(#[trigger] self.all_prompts@[n0 + j], prompts@[j], server_name@) by {
                    if j < i {
                        assert(self.all_prompts@[n0 + j] == prev[n0 + j]);
                    }
                }
                assert forall|j: int| 0 <= j < n0 implies #[trigger] self.all_prompts@[j] == old(self).all_prompts@[j] by {
                    assert(self.all_prompts@[j] == prev[j]);
                }
            }
            i = i + 1;
        }
        proof {
            assert(keys.take(prompts.len() as int) =~= keys);
        }
    }

    /// Registers a server with the capabilities that discovery found: each
    /// tool under `server/tool` and, unless another server already claims
    /// it, under its bare name (a bare name that two servers claim is taken
    /// out, and stays out while a connected server still declares it); each
    /// resource under its URI and `server/uri`; each prompt under its name
    /// and `server/prompt`. A server of the same name is replaced.
    pub fn register_server(
        &mut self,
        config: ServerConfig,
        tools: Vec<ToolDefinition>,
        resources: Vec<ResourceDefinition>,
        prompts: Vec<PromptDefinition>,
        connected: bool,
    )
        requires
            old(self).wf(),
        ensures
            final(self).wf(),
            final(self).tool_routes() == index_tools(old(self).tool_routes(), still_claimed(old(self).withdrawn_view(), old(self).servers_view()), config.name@, tool_names(tools@)),
            final(self).withdrawn_view() == withdrawn_after(old(self).tool_routes(), still_claimed(old(self).withdrawn_view(), old(self).servers_view()), config.name@, tool_names(tools@)),
            final(self).resource_routes() == index_keys(old(self).resource_routes(), config.name@, resource_uris(resources@)),
            final(self).prompt_routes() == index_keys(old(self).prompt_routes(), config.name@, prompt_names(prompts@)),
            final(self).tools_view().len() == old(self).tools_view().len() + tools.len(),
            forall|j: int| 0 <= j < old(self).tools_view().len() ==> #[trigger] final(self).tools_view()[j] == old(self).tools_view()[j],
            forall|j: int| 0 <= j < tools.len() ==> registers_tool(#[trigger] final(self).tools_view()[old(self).tools_view().len() + j], tools@[j], config.name@),
            final(self).resources_view().len() == old(self).resources_view().len() + resources.len(),
            forall|j: int| 0 <= j < old(self).resources_view().len() ==> #[trigger] final(self).resources_view()[j] == old(self).resources_view()[j],
            forall|j: int| 0 <= j < resources.len() ==> registers_resource(#[trigger] final(self).resources_view()[old(self).resources_view().len() + j], resources@[j], config.name@),
            final(self).prompts_view().len() == old(self).prompts_view().len() + prompts.len(),
            forall|j: int| 0 <= j < old(self).prompts_view().len() ==> #[trigger] final(self).prompts_view()[j] == old(self).prompts_view()[j],
            forall|j: int| 0 <= j < prompts.len() ==> registers_prompt(#[trigger] final(self).prompts_view()[old(self).prompts_view().len() + j], prompts@[j], config.name@),
            dispatch_sound(old(self).servers_view(), old(self).tool_routes(), old(self).resource_routes(), old(self).prompt_routes())
                && server_pos(old(self).servers_view(), config.name@) is None
                ==> dispatch_sound(final(self).servers_view(), final(self).tool_routes(), final(self).resource_routes(), final(self).prompt_routes()),
            ({
                let entry = UpstreamServer {
                    name: config.name,
                    config,
                    tools,
                    resources,
                    prompts,
                    connected,
                };
                match server_pos(old(self).servers_view(), config.name@) {
                    Some(p) => final(self).servers_view() == old(self).servers_view().update(p, entry),
                    None => final(self).servers_view() == old(self).servers_view().push(entry),
                }
            }),
    {
        let name = config.name.clone();
        self.withdrawn = self.withdrawn_still_claimed();
        self.index_tools_of(&name, &tools);
        self.index_resources_of(&name, &resources);
        self.index_prompts_of(&name, &prompts);
        let entry = UpstreamServer { name, config, tools, resources, prompts, connected };
        match self.find_server(entry.name.as_str()) {
            Some(p) => {
                let ghost old_servers = self.servers@;
                self.servers.set(p, entry);
                proof {
                    assert forall|i: int, j: int|
                        0 <= i < self.servers.len() && 0 <= j < self.servers.len() && i != j
                            implies #[trigger] self.servers@[i].name@ != #[trigger] self.servers@[j].name@ by {
                        if i != p && j != p {
                            assert(old_servers[i].name@ != old_servers[j].name@);
                        } else if i == p {
                            assert(old_servers[p as int].name@ == self.servers@[p as int].name@);
                            assert(old_servers[j].name@ != old_servers[p as int].name@);
                        } else {
                            assert(old_servers[p as int].name@ == self.servers@[p as int].name@);
                            assert(old_servers[i].name@ != old_servers[p as int].name@);
                        }
                    }
                }
            },
            None => {
                let ghost old_servers = self.servers@;
                let ghost e = entry;
                self.servers.push(entry);
                proof {
                    let n = old_servers.len() as int;
                    if dispatch_sound(old(self).servers_view(), old(self).tool_routes(), old(self).resource_routes(), old(self).prompt_routes()) {
                        lemma_index_tools_origin(old(self).tool_routes(), still_claimed(old(self).withdrawn_view(), old(self).servers_view()), e.name@, tool_names(e.tools@));
                        lemma_index_keys_origin(old(self).resource_routes(), e.name@, resource_uris(e.resources@));
                        lemma_index_keys_origin(old(self).prompt_routes(), e.name@, prompt_names(e.prompts@));
                        lemma_backed_after_push(tool_owners(old_servers), old(self).tool_routes(), self.tool_routes(), (e.name@, tool_names(e.tools@)));
                        lemma_backed_after_push(resource_owners(old_servers), old(self).resource_routes(), self.resource_routes(), (e.name@, resource_uris(e.resources@)));
                        lemma_backed_after_push(prompt_owners(old_servers), old(self).prompt_routes(), self.prompt_routes(), (e.name@, prompt_names(e.prompts@)));
                        assert(tool_owners(self.servers@) =~= tool_owners(old_servers).push((e.name@, tool_names(e.tools@))));
                        assert(resource_owners(self.servers@) =~= resource_owners(old_servers).push((e.name@, resource_uris(e.resources@))));
                        assert(prompt_owners(self.servers@) =~= prompt_owners(old_servers).push((e.name@, prompt_names(e.prompts@))));
                    }
                    assert forall|i: int, j: int|
                        0 <= i < self.servers.len() && 0 <= j < self.servers.len() && i != j
                            implies #[trigger] self.servers@[i].name@ != #[trigger] self.servers@[j].name@ by {
                        if i != n && j != n {
                            assert(old_servers[i].name@ != old_servers[j].name@);
                        } else if i == n {
                            assert(self.servers@[j] == old_servers[j]);
                        } else {
                            assert(self.servers@[i] == old_servers[i]);
                        }
                    }
                }
            },
        }
    }

    /// All registered tools across all servers.
    pub fn get_all_tools(&self) -> (r: Vec<RegisteredTool>)
        ensures
            r@ == self.tools_view(),
    {
        let r = self.all_tools.clone();
        proof {
            assert(r@ =~= self.all_tools@);
        }
        r
    }

    /// All registered resources across all servers.
    pub fn get_all_resources(&self) -> (r: Vec<RegisteredResource>)
        ensures
            r@ == self.resources_view(),
    {
        let r = self.all_resources.clone();
        proof {
            assert(r@ =~= self.all_resources@);
        }
        r
    }

    /// All registered prompts across all servers.
    pub fn get_all_prompts(&self) -> (r: Vec<RegisteredPrompt>)
        ensures
            r@ == self.prompts_view(),
    {
        let r = self.all_prompts.clone();
        proof {
            assert(r@ =~= self.all_prompts@);
        }
        r
    }

    /// The server that answers a tool name (bare or fully-qualified).
    pub fn find_tool_server(&self, tool_name: &str) -> (r: Option<String>)
        requires
            self.wf(),
        ensures
            r is Some <==> self.tool_routes().contains_key(tool_name@),
            r matches Some(s) ==> s@ == self.tool_routes()[tool_name@],
    {
        self.tool_index.get(tool_name)
    }

    /// The server that answers a resource URI (bare or fully-qualified).
    pub fn find_resource_server(&self, resource_uri: &str) -> (r: Option<String>)
        requires
            self.wf(),
        ensures
            r is Some <==> self.resource_routes().contains_key(resource_uri@),
            r matches Some(s) ==> s@ == self.resource_routes()[resource_uri@],
    {
        self.resource_index.get(resource_uri)
    }

    /// The server that answers a prompt name (bare or fully-qualified).
    pub fn find_prompt_server(&self, prompt_name: &str) -> (r: Option<String>)
        requires
            self.wf(),
        ensures
            r is Some <==> self.prompt_routes().contains_key(prompt_name@),
            r matches Some(s) ==> s@ == self.prompt_routes()[prompt_name@],
    {
        self.prompt_index.get(prompt_name)
    }

    /// The configuration of a server, if it is known.
    pub fn get_server_config(&self, server_name: &str) -> (r: Option<&ServerConfig>)
        requires
            self.wf(),
        ensures
            match server_pos(self.servers_view(), server_name@) {
                Some(p) => r == Some(&self.servers_view()[p].config),
                None => r is None,
            },
    {
        match self.find_server(server_name) {
            Some(p) => Some(&self.servers[p].config),
            None => None,
        }
    }

    /// Where a call to the named server goes.
    pub fn call_target(&self, server_name: &str) -> (r: Result<CallTarget, MuxError>)
        requires
            self.wf(),
        ensures
            call_target_spec(self.servers_view(), server_name@, r),
    {
        match self.find_server(server_name) {
            None => Err(MuxError::ServerNotFound { server: String::from_str(server_name) }),
            Some(p) => {
                let server = &self.servers[p];
                if !server.connected {
                    return Err(MuxError::NotConnected { server: String::from_str(server_name) });
                }
                match &server.config.url {
                    Some(url) => Ok(CallTarget::Http { url: url.clone() }),
                    None => Ok(CallTarget::Stdio),
                }
            },
        }
    }

    /// The server and target that answer a resource URI.
    pub fn resource_target(&self, uri: &str) -> (r: Result<(String, CallTarget), MuxError>)
        requires
            self.wf(),
        ensures
            !self.resource_routes().contains_key(uri@) ==> (r matches Err(MuxError::ResourceNotFound { uri: u }) && u@ == uri@),
            self.resource_routes().contains_key(uri@) ==> {
                let s = self.resource_routes()[uri@];
                match r {
                    Ok((name, t)) => name@ == s && call_target_spec(self.servers_view(), s, Ok(t)),
                    Err(e) => call_target_spec(self.servers_view(), s, Err(e)),
                }
            },
    {
        match self.find_resource_server(uri) {
            None => Err(MuxError::ResourceNotFound { uri: String::from_str(uri) }),
            Some(server_name) => match self.call_target(server_name.as_str()) {
                Ok(t) => Ok((server_name, t)),
                Err(e) => Err(e),
            },
        }
    }

    /// The server and target that answer a prompt name.
    pub fn prompt_target(&self, name: &str) -> (r: Result<(String, CallTarget), MuxError>)
        requires
            self.wf(),
        ensures
            !self.prompt_routes().contains_key(name@) ==> (r matches Err(MuxError::PromptNotFound { name: n }) && n@ == name@),
            self.prompt_routes().contains_key(name@) ==> {
                let s = self.prompt_routes()[name@];
                match r {
                    Ok((sname, t)) => sname@ == s && call_target_spec(self.servers_view(), s, Ok(t)),
                    Err(e) => call_target_spec(self.servers_view(), s, Err(e)),
                }
            },
    {
        match self.find_prompt_server(name) {
            None => Err(MuxError::PromptNotFound { name: String::from_str(name) }),
            Some(server_name) => match self.call_target(server_name.as_str()) {
                Ok(t) => Ok((server_name, t)),
                Err(e) => Err(e),
            },
        }
    }

    /// Status of every known server, in registration order.
    pub fn get_server_statuses(&self) -> (r: Vec<ServerStatus>)
        ensures
            r.len() == self.servers_view().len(),
            forall|i: int| 0 <= i < r.len() ==> {
                let s = #[trigger] self.servers_view()[i];
                &&& r@[i].name@ == s.name@
                &&& r@[i].connected == s.connected
                &&& r@[i].tools == s.tools.len()
                &&& r@[i].resources == s.resources.len()
                &&& r@[i].prompts == s.prompts.len()
                &&& r@[i].http == s.config.url is Some
            },
    {
        let mut r: Vec<ServerStatus> = Vec::new();
        let mut i: usize = 0;
        while i < self.servers.len()
            invariant
                i <= self.servers.len(),
                r.len() == i,
                forall|k: int| 0 <= k < i ==> {
                    let s = #[trigger] self.servers@[k];
                    &&& r@[k].name@ == s.name@
                    &&& r@[k].connected == s.connected
                    &&& r@[k].tools == s.tools.len()
                    &&& r@[k].resources == s.resources.len()
                    &&& r@[k].prompts == s.prompts.len()
                    &&& r@[k].http == s.config.url is Some
                },
            decreases self.servers.len() - i,
        {
            let s = &self.servers[i];
            r.push(ServerStatus {
                name: s.name.clone(),
                connected: s.connected,
                tools: s.tools.len(),
                resources: s.resources.len(),
                prompts: s.prompts.len(),
                http: s.config.url.is_some(),
            });
            i = i + 1;
        }
        r
    }

    /// Marks a server disconnected and takes its tools, resources and
    /// prompts out of every index and list; returns how many tools it had.
    /// An unknown or already disconnected server is left as it is (0).
    pub fn mark_server_disconnected(&mut self, server_name: &str) -> (r: usize)
        requires
            old(self).wf(),
        ensures
            final(self).wf(),
            dispatch_sound(old(self).servers_view(), old(self).tool_routes(), old(self).resource_routes(), old(self).prompt_routes())
                ==> dispatch_sound(final(self).servers_view(), final(self).tool_routes(), final(self).resource_routes(), final(self).prompt_routes()),
            dispatch_sound(old(self).servers_view(), old(self).tool_routes(), old(self).resource_routes(), old(self).prompt_routes())
                && server_pos(old(self).servers_view(), server_name@) is Some
                && old(self).servers_view()[server_pos(old(self).servers_view(), server_name@)->0].connected
                ==> routes_avoid(final(self).tool_routes(), server_name@) && routes_avoid(final(self).resource_routes(), server_name@)
                    && routes_avoid(final(self).prompt_routes(), server_name@),
            match server_pos(old(self).servers_view(), server_name@) {
                Some(p) if old(self).servers_view()[p].connected => {
                    let s = old(self).servers_view()[p];
                    &&& r == s.tools.len()
                    &&& final(self).servers_view().len() == old(self).servers_view().len()
                    &&& forall|j: int| 0 <= j < old(self).servers_view().len() && j != p ==> #[trigger] final(self).servers_view()[j] == old(self).servers_view()[j]
                    &&& final(self).servers_view()[p].name == s.name
                    &&& final(self).servers_view()[p].config == s.config
                    &&& final(self).servers_view()[p].tools@.len() == 0
                    &&& final(self).servers_view()[p].resources@.len() == 0
                    &&& final(self).servers_view()[p].prompts@.len() == 0
                    &&& !final(self).servers_view()[p].connected
                    &&& final(self).withdrawn_view() == old(self).withdrawn_view()
                    &&& final(self).tool_routes() == unindex_keys(old(self).tool_routes(), server_name@, tool_names(s.tools@))
                    &&& final(self).resource_routes() == unindex_keys(old(self).resource_routes(), server_name@, resource_uris(s.resources@))
                    &&& final(self).prompt_routes() == unindex_keys(old(self).prompt_routes(), server_name@, prompt_names(s.prompts@))
                    &&& final(self).tools_view() == old(self).tools_view().filter(|t: RegisteredTool| t.server_name@ != server_name@)
                    &&& final(self).resources_view() == old(self).resources_view().filter(|t: RegisteredResource| t.server_name@ != server_name@)
                    &&& final(self).prompts_view() == old(self).prompts_view().filter(|t: RegisteredPrompt| t.server_name@ != server_name@)
                },
                _ => r == 0 && *final(self) == *old(self),
            },
    {
        let p = match self.find_server(server_name) {
            Some(p) => p,
            None => return 0,
        };
        if !self.servers[p].connected {
            return 0;
        }
        let ghost s0 = self.servers@[p as int];
        let mut server = self.servers.remove(p);
        let tool_count = server.tools.len();
        let tool_keys = tool_name_list(&server.tools);
        remove_keys(&mut self.tool_index, server_name, &tool_keys);
        let resource_keys = resource_uri_list(&server.resources);
        remove_keys(&mut self.resource_index, server_name, &resource_keys);
        let prompt_keys = prompt_name_list(&server.prompts);
        remove_keys(&mut self.prompt_index, server_name, &prompt_keys);
        let name_s = String::from_str(server_name);
        self.all_tools = retain_other_tools(&self.all_tools, &name_s);
        self.all_resources = retain_other_resources(&self.all_resources, &name_s);
        self.all_prompts = retain_other_prompts(&self.all_prompts, &name_s);
        server.tools = Vec::new();
        server.resources = Vec::new();
        server.prompts = Vec::new();
        server.connected = false;
        let ghost before_insert = self.servers@;
        self.servers.insert(p, server);
        proof {
            let ghost old_servers = old(self).servers@;
            assert(self.servers@ =~= old_servers.update(p as int, self.servers@[p as int]));
            if dispatch_sound(old(self).servers_view(), old(self).tool_routes(), old(self).resource_routes(), old(self).prompt_routes()) {
                let pp = p as int;
                lemma_unindex_keys(old(self).tool_routes(), server_name@, tool_names(s0.tools@));
                lemma_unindex_keys(old(self).resource_routes(), server_name@, resource_uris(s0.resources@));
                lemma_unindex_keys(old(self).prompt_routes(), server_name@, prompt_names(s0.prompts@));
                assert(tool_owners(old_servers)[pp] == (server_name@, tool_names(s0.tools@)));
                assert(resource_owners(old_servers)[pp] == (server_name@, resource_uris(s0.resources@)));
                assert(prompt_owners(old_servers)[pp] == (server_name@, prompt_names(s0.prompts@)));
                assert(tool_names(self.servers@[pp].tools@) =~= Seq::<Seq<char>>::empty());
                assert(resource_uris(self.servers@[pp].resources@) =~= Seq::<Seq<char>>::empty());
                assert(prompt_names(self.servers@[pp].prompts@) =~= Seq::<Seq<char>>::empty());
                assert forall|i: int, j: int| 0 <= i < old_servers.len() && 0 <= j < old_servers.len() && i != j
                    implies tool_owners(old_servers)[i].0 != tool_owners(old_servers)[j].0 by {
                    assert(old_servers[i].name@ != old_servers[j].name@);
                }
                assert forall|i: int, j: int| 0 <= i < old_servers.len() && 0 <= j < old_servers.len() && i != j
                    implies resource_owners(old_servers)[i].0 != resource_owners(old_servers)[j].0 by {
                    assert(old_servers[i].name@ != old_servers[j].name@);
                }
                assert forall|i: int, j: int| 0 <= i < old_servers.len() && 0 <= j < old_servers.len() && i != j
                    implies prompt_owners(old_servers)[i].0 != prompt_owners(old_servers)[j].0 by {
                    assert(old_servers[i].name@ != old_servers[j].name@);
                }
                lemma_backed_after_unindex(tool_owners(old_servers), tool_owners(self.servers@), old(self).tool_routes(), self.tool_routes(), pp);
                lemma_backed_after_unindex(resource_owners(old_servers), resource_owners(self.servers@), old(self).resource_routes(), self.resource_routes(), pp);
                lemma_backed_after_unindex(prompt_owners(old_servers), prompt_owners(self.servers@), old(self).prompt_routes(), self.prompt_routes(), pp);
            }
            assert forall|i: int, j: int|
                0 <= i < self.servers.len() && 0 <= j < self.servers.len() && i != j
                    implies #[trigger] self.servers@[i].name@ != #[trigger] self.servers@[j].name@ by {
                if i != p && j != p {
                    assert(old_servers[i].name@ != old_servers[j].name@);
                } else if i == p {
                    assert(old_servers[j].name@ != old_servers[p as int].name@);
                } else {
                    assert(old_servers[i].name@ != old_servers[p as int].name@);
                }
            }
        }
        tool_count
    }

    /// Re-registers a reconnected server with the capabilities it now
    /// declares, in the same way as at registration, and marks it connected;
    /// returns how many tools it declares. A bare name withdrawn earlier
    /// that no connected server declares any more is free again.
    pub fn restore_server(
        &mut self,
        server_name: &str,
        tools: Vec<ToolDefinition>,
        resources: Vec<ResourceDefinition>,
        prompts: Vec<PromptDefinition>,
    ) -> (r: usize)
        requires
            old(self).wf(),
        ensures
            final(self).wf(),
            r == tools.len(),
            final(self).tool_routes() == index_tools(old(self).tool_routes(), still_claimed(old(self).withdrawn_view(), old(self).servers_view()), server_name@, tool_names(tools@)),
            final(self).withdrawn_view() == withdrawn_after(old(self).tool_routes(), still_claimed(old(self).withdrawn_view(), old(self).servers_view()), server_name@, tool_names(tools@)),
            final(self).resource_routes() == index_keys(old(self).resource_routes(), server_name@, resource_uris(resources@)),
            final(self).prompt_routes() == index_keys(old(self).prompt_routes(), server_name@, prompt_names(prompts@)),
            final(self).tools_view().len() == old(self).tools_view().len() + tools.len(),
            forall|j: int| 0 <= j < old(self).tools_view().len() ==> #[trigger] final(self).tools_view()[j] == old(self).tools_view()[j],
            forall|j: int| 0 <= j < tools.len() ==> registers_tool(#[trigger] final(self).tools_view()[old(self).tools_view().len() + j], tools@[j], server_name@),
            final(self).resources_view().len() == old(self).resources_view().len() + resources.len(),
            forall|j: int| 0 <= j < old(self).resources_view().len() ==> #[trigger] final(self).resources_view()[j] == old(self).resources_view()[j],
            forall|j: int| 0 <= j < resources.len() ==> registers_resource(#[trigger] final(self).resources_view()[old(self).resources_view().len() + j], resources@[j], server_name@),
            final(self).prompts_view().len() == old(self).prompts_view().len() + prompts.len(),
            forall|j: int| 0 <= j < old(self).prompts_view().len() ==> #[trigger] final(self).prompts_view()[j] == old(self).prompts_view()[j],
            forall|j: int| 0 <= j < prompts.len() ==> registers_prompt(#[trigger] final(self).prompts_view()[old(self).prompts_view().len() + j], prompts@[j], server_name@),
            dispatch_sound(old(self).servers_view(), old(self).tool_routes(), old(self).resource_routes(), old(self).prompt_routes())
                && server_pos(old(self).servers_view(), server_name@) is Some
                && routes_avoid(old(self).tool_routes(), server_name@) && routes_avoid(old(self).resource_routes(), server_name@)
                && routes_avoid(old(self).prompt_routes(), server_name@)
                ==> dispatch_sound(final(self).servers_view(), final(self).tool_routes(), final(self).resource_routes(), final(self).prompt_routes()),
            match server_pos(old(self).servers_view(), server_name@) {
                Some(p) => {
                    let s = old(self).servers_view()[p];
                    final(self).servers_view() == old(self).servers_view().update(
                        p,
                        UpstreamServer { name: s.name, config: s.config, tools, resources, prompts, connected: true },
                    )
                },
                None => final(self).servers_view() == old(self).servers_view(),
            },
    {
        let name = String::from_str(server_name);
        let tool_count = tools.len();
        self.withdrawn = self.withdrawn_still_claimed();
        self.index_tools_of(&name, &tools);
        self.index_resources_of(&name, &resources);
        self.index_prompts_of(&name, &prompts);
        match self.find_server(server_name) {
            Some(p) => {
                let ghost old_servers = self.servers@;
                let server = self.servers.remove(p);
                let updated = UpstreamServer {
                    name: server.name,
                    config: server.config,
                    tools,
                    resources,
                    prompts,
                    connected: true,
                };
                self.servers.insert(p, updated);
                proof {
                    assert(self.servers@ =~= old_servers.update(p as int, self.servers@[p as int]));
                    if dispatch_sound(old(self).servers_view(), old(self).tool_routes(), old(self).resource_routes(), old(self).prompt_routes())
                        && routes_avoid(old(self).tool_routes(), server_name@) && routes_avoid(old(self).resource_routes(), server_name@)
                        && routes_avoid(old(self).prompt_routes(), server_name@) {
                        let pp = p as int;
                        let e = self.servers@[pp];
                        lemma_index_tools_origin(old(self).tool_routes(), still_claimed(old(self).withdrawn_view(), old(self).servers_view()), server_name@, tool_names(e.tools@));
                        lemma_index_keys_origin(old(self).resource_routes(), server_name@, resource_uris(e.resources@));
                        lemma_index_keys_origin(old(self).prompt_routes(), server_name@, prompt_names(e.prompts@));
                        lemma_backed_after_reindex(tool_owners(old_servers), old(self).tool_routes(), self.tool_routes(), pp, (server_name@, tool_names(e.tools@)));
                        lemma_backed_after_reindex(resource_owners(old_servers), old(self).resource_routes(), self.resource_routes(), pp, (server_name@, resource_uris(e.resources@)));
                        lemma_backed_after_reindex(prompt_owners(old_servers), old(self).prompt_routes(), self.prompt_routes(), pp, (server_name@, prompt_names(e.prompts@)));
                        assert(tool_owners(self.servers@) =~= tool_owners(old_servers).update(pp, (server_name@, tool_names(e.tools@))));
                        assert(resource_owners(self.servers@) =~= resource_owners(old_servers).update(pp, (server_name@, resource_uris(e.resources@))));
                        assert(prompt_owners(self.servers@) =~= prompt_owners(old_servers).update(pp, (server_name@, prompt_names(e.prompts@))));
                    }
                    assert forall|i: int, j: int|
                        0 <= i < self.servers.len() && 0 <= j < self.servers.len() && i != j
                            implies #[trigger] self.servers@[i].name@ != #[trigger] self.servers@[j].name@ by {
                        if i != p && j != p {
                            assert(old_servers[i].name@ != old_servers[j].name@);
                        } else if i == p {
                            assert(old_servers[j].name@ != old_servers[p as int].name@);
                        } else {
                            assert(old_servers[i].name@ != old_servers[p as int].name@);
                        }
                    }
                }
            },
            None => {},
        }
        tool_count
    }
}

/// The names of the tools, in order.
fn tool_name_list(tools: &Vec<ToolDefinition>) -> (r: Vec<String>)
    ensures
        r.deep_view() == tool_names(tools@),
{
    let mut r: Vec<String> = Vec::new();
    let mut i: usize = 0;
    while i < tools.len()
        invariant
            i <= tools.len(),
            r.len() == i,
            forall|j: int| 0 <= j < i ==> #[trigger] r@[j]@ == tools@[j].name@,
        decreases tools.len() - i,
    {
        r.push(tools[i].name.clone());
        i = i + 1;
    }
    proof {
        assert(r.deep_view() =~= tool_names(tools@));
    }
    r
}

/// The URIs of the resources, in order.
fn resource_uri_list(resources: &Vec<ResourceDefinition>) -> (r: Vec<String>)
    ensures
        r.deep_view() == resource_uris(resources@),
{
    let mut r: Vec<String> = Vec::new();
    let mut i: usize = 0;
    while i < resources.len()
        invariant
            i <= resources.len(),
            r.len() == i,
            forall|j: int| 0 <= j < i ==> #[trigger] r@[j]@ == resources@[j].uri@,
        decreases resources.len() - i,
    {
        r.push(resources[i].uri.clone());
        i = i + 1;
    }
    proof {
        assert(r.deep_view() =~= resource_uris(resources@));
    }
    r
}

/// The names of the prompts, in order.
fn prompt_name_list(prompts: &Vec<PromptDefinition>) -> (r: Vec<String>)
    ensures
        r.deep_view() == prompt_names(prompts@),
{
    let mut r: Vec<String> = Vec::new();
    let mut i: usize = 0;
    while i < prompts.len()
        invariant
            i <= prompts.len(),
            r.len() == i,
            forall|j: int| 0 <= j < i ==> #[trigger] r@[j]@ == prompts@[j].name@,
        decreases prompts.len() - i,
    {
        r.push(prompts[i].name.clone());
        i = i + 1;
    }
    proof {
        assert(r.deep_view() =~= prompt_names(prompts@));
    }
    r
}

/// Removes each key and its fully-qualified form from the index.
fn remove_keys(idx: &mut NameIndex, server_name: &str, keys: &Vec<String>)
    requires
        old(idx).wf(),
    ensures
        final(idx).wf(),
        final(idx).view() == unindex_keys(old(idx).view(), server_name@, keys.deep_view()),
{
    let ghost ks = keys.deep_view();
    let mut i: usize = 0;
    while i < keys.len()
        invariant
            i <= keys.len(),
            ks == keys.deep_view(),
            idx.wf(),
            idx.view() == unindex_keys(old(idx).view(), server_name@, ks.take(i as int)),
        decreases keys.len() - i,
    {
        idx.remove(keys[i].as_str());
        let f = make_fqn(server_name, keys[i].as_str());
        idx.remove(f.as_str());
        proof {
            assert(ks.take(i + 1).drop_last() =~= ks.take(i as int));
            assert(ks.take(i + 1).last() == keys@[i as int]@);
        }
        i = i + 1;
    }
    proof {
        assert(ks.take(keys.len() as int) =~= ks);
    }
}

/// Keeps the tools that are not registered under `server`.
fn retain_other_tools(v: &Vec<RegisteredTool>, server: &String) -> (r: Vec<RegisteredTool>)
    ensures
        r@ == v@.filter(|t: RegisteredTool| t.server_name@ != server@),
{
    let ghost pred = |t: RegisteredTool| t.server_name@ != server@;
    let mut r: Vec<RegisteredTool> = Vec::new();
    let mut i: usize = 0;
    while i < v.len()
        invariant
            i <= v.len(),
            pred == (|t: RegisteredTool| t.server_name@ != server@),
            r@ == v@.take(i as int).filter(pred),
        decreases v.len() - i,
    {
        proof {
            reveal_with_fuel(Seq::<_>::filter, 1);
            assert(v@.take(i + 1).drop_last() =~= v@.take(i as int));
        }
        if v[i].server_name != *server {
            r.push(v[i].clone());
        }
        i = i + 1;
    }
    proof {
        assert(v@.take(v.len() as int) =~= v@);
    }
    r
}

/// Keeps the resources that are not registered under `server`.
fn retain_other_resources(v: &Vec<RegisteredResource>, server: &String) -> (r: Vec<RegisteredResource>)
    ensures
        r@ == v@.filter(|t: RegisteredResource| t.server_name@ != server@),
{
    let ghost pred = |t: RegisteredResource| t.server_name@ != server@;
    let mut r: Vec<RegisteredResource> = Vec::new();
    let mut i: usize = 0;
    while i < v.len()
        invariant
            i <= v.len(),
            pred == (|t: RegisteredResource| t.server_name@ != server@),
            r@ == v@.take(i as int).filter(pred),
        decreases v.len() - i,
    {
        proof {
            reveal_with_fuel(Seq::<_>::filter, 1);
            assert(v@.take(i + 1).drop_last() =~= v@.take(i as int));
        }
        if v[i].server_name != *server {
            r.push(v[i].clone());
        }
        i = i + 1;
    }
    proof {
        assert(v@.take(v.len() as int) =~= v@);
    }
    r
}

/// Keeps the prompts that are not registered under `server`.
fn retain_other_prompts(v: &Vec<RegisteredPrompt>, server: &String) -> (r: Vec<RegisteredPrompt>)
    ensures
        r@ == v@.filter(|t: RegisteredPrompt| t.server_name@ != server@),
{
    let ghost pred = |t: RegisteredPrompt| t.server_name@ != server@;
    let mut r: Vec<RegisteredPrompt> = Vec::new();
    let mut i: usize = 0;
    while i < v.len()
        invariant
            i <= v.len(),
            pred == (|t: RegisteredPrompt| t.server_name@ != server@),
            r@ == v@.take(i as int).filter(pred),
        decreases v.len() - i,
    {
        proof {
            reveal_with_fuel(Seq::<_>::filter, 1);
            assert(v@.take(i + 1).drop_last() =~= v@.take(i as int));
        }
        if v[i].server_name != *server {
            r.push(v[i].clone());
        }
        i = i + 1;
    }
    proof {
        assert(v@.take(v.len() as int) =~= v@);
    }
    r
}

} // verus!

verus! {

impl MuxError {
    /// The human-readable message of the error.
    pub fn message(&self) -> (r: String)
        ensures
            match self {
                MuxError::ServerNotFound { server } => r@ == "Server '"@ + server@ + "' not found"@,
                MuxError::NotConnected { server } => r@ == "Server '"@ + server@ + "' is not connected"@,
                MuxError::ResourceNotFound { uri } => r@ == "Resource '"@ + uri@
                    + "' not found in any server"@,
                MuxError::PromptNotFound { name } => r@ == "Prompt '"@ + name@
                    + "' not found in any server"@,
                MuxError::NoActiveConnection { server } => r@ == "No active connection for server '"@
                    + server@ + "'"@,
            },
    {
        match self {
            MuxError::ServerNotFound { server } => {
                let mut r = String::from_str("Server '");
                r.append(server.as_str());
                r.append("' not found");
                r
            },
            MuxError::NotConnected { server } => {
                let mut r = String::from_str("Server '");
                r.append(server.as_str());
                r.append("' is not connected");
                r
            },
            MuxError::ResourceNotFound { uri } => {
                let mut r = String::from_str("Resource '");
                r.append(uri.as_str());
                r.append("' not found in any server");
                r
            },
            MuxError::PromptNotFound { name } => {
                let mut r = String::from_str("Prompt '");
                r.append(name.as_str());
                r.append("' not found in any server");
                r
            },
            MuxError::NoActiveConnection { server } => {
                let mut r = String::from_str("No active connection for server '");
                r.append(server.as_str());
                r.append("'");
                r
            },
        }
    }
}

} // verus!

verus! {

/// How a server's capabilities are discovered.
pub enum Discovery {
    /// The server is disabled and left out.
    Skip,
    /// Over HTTP at this URL (a URL wins over a command).
    Http { url: String },
    /// By starting its command and talking over stdio.
    Stdio,
    /// Neither a URL nor a command: it is registered as disconnected.
    Unconfigured,
}

/// Decides how a configured server is discovered.
pub fn discovery_for(config: &ServerConfig) -> (r: Discovery)
    ensures
        !config.enabled ==> r is Skip,
        config.enabled ==> match config.url {
            Some(u) => r matches Discovery::Http { url } && url@ == u@,
            None => if config.command is Some { r is Stdio } else { r is Unconfigured },
        },
{
    if !config.enabled {
        return Discovery::Skip;
    }
    match &config.url {
        Some(u) => Discovery::Http { url: u.clone() },
        None => if config.command.is_some() {
            Discovery::Stdio
        } else {
            Discovery::Unconfigured
        },
    }
}

/// Whether some server declares a tool of that bare name.
pub open spec fn declares_tool(servers: Seq<UpstreamServer>, name: Seq<char>) -> bool {
    exists|i: int, j: int|
        0 <= i < servers.len() && 0 <= j < servers[i].tools.len() && (#[trigger] servers[i].tools@[j]).name@
            == name
}

impl Multiplexer {
    /// The bare tool names that servers declare but that cannot be called
    /// by bare name (two servers claim them), each once, in order of first
    /// declaration.
    pub fn ambiguous_tool_names(&self) -> (r: Vec<String>)
        requires
            self.wf(),
        ensures
            forall|n: Seq<char>|
                r.deep_view().contains(n) <==> declares_tool(self.servers_view(), n)
                    && !self.tool_routes().contains_key(n),
            r.deep_view().no_duplicates(),
    {
        let ghost sv = self.servers_view();
        let mut r: Vec<String> = Vec::new();
        let mut i: usize = 0;
        while i < self.servers.len()
            invariant
                i <= self.servers.len(),
                sv == self.servers_view(),
                sv == self.servers@,
                self.wf(),
                r.deep_view().no_duplicates(),
                forall|n: Seq<char>|
                    r.deep_view().contains(n) <==> (exists|a: int, b: int|
                        0 <= a < i && 0 <= b < sv[a].tools.len() && (#[trigger] sv[a].tools@[b]).name@
                            == n) && !self.tool_routes().contains_key(n),
            decreases self.servers.len() - i,
        {
            let tools = &self.servers[i].tools;
            let mut j: usize = 0;
            while j < tools.len()
                invariant
                    i < self.servers.len(),
                    j <= tools.len(),
                    *tools == sv[i as int].tools,
                    sv == self.servers_view(),
                    sv == self.servers@,
                    self.wf(),
                    r.deep_view().no_duplicates(),
                    forall|n: Seq<char>|
                        r.deep_view().contains(n) <==> ((exists|a: int, b: int|
                            0 <= a < i && 0 <= b < sv[a].tools.len() && (#[trigger] sv[a].tools@[b]).name@
                                == n) || (exists|b: int| 0 <= b < j && (#[trigger] tools@[b]).name@ == n))
                            && !self.tool_routes().contains_key(n),
                decreases tools.len() - j,
            {
                let name = &tools[j].name;
                let ghost r0 = r.deep_view();
                let routed = self.tool_index.contains_key(name.as_str());
                assert(routed == self.tool_routes().contains_key(name@));
                assert(forall|n: Seq<char>|
                    r0.contains(n) <==> ((exists|a: int, b: int|
                        0 <= a < i && 0 <= b < sv[a].tools.len() && (#[trigger] sv[a].tools@[b]).name@
                            == n) || (exists|b: int| 0 <= b < j && (#[trigger] tools@[b]).name@ == n))
                        && !self.tool_routes().contains_key(n));
                if !routed {
                    let mut seen = false;
                    let mut k: usize = 0;
                    while k < r.len()
                        invariant
                            k <= r.len(),
                            r0 == r.deep_view(),
                            r0.len() == r.len(),
                            seen == (exists|m: int| 0 <= m < k && r0[m] == name@),
                        decreases r.len() - k,
                    {
                        assert(r0[k as int] == r@[k as int]@);
                        if r[k] == *name {
                            seen = true;
                        }
                        k = k + 1;
                    }
                    if !seen {
                        r.push(name.clone());
                        proof {
                            assert(r.deep_view() =~= r0.push(name@));
                            assert forall|m: int, l: int| 0 <= m < l < r.deep_view().len() implies r.deep_view()[m]
                                != r.deep_view()[l] by {
                                if l == r0.len() {
                                    assert(r0[m] != name@);
                                }
                            }
                        }
                    }
                }
                proof {
                    assert forall|n: Seq<char>|
                        r.deep_view().contains(n) <==> (r0.contains(n) || (n == name@ && !routed)) by {
                        if n == name@ && !routed && r0.contains(n) {
                            let m = choose|m: int| 0 <= m < r0.len() && r0[m] == n;
                            if r.deep_view() != r0 {
                                assert(r.deep_view()[m] == n);
                            }
                        }
                        if r.deep_view() != r0 {
                            if r0.contains(n) {
                                let m = choose|m: int| 0 <= m < r0.len() && r0[m] == n;
                                assert(r.deep_view()[m] == n);
                            }
                            if n == name@ {
                                assert(r.deep_view()[r0.len() as int] == n);
                            }
                        }
                    }
                    assert forall|n: Seq<char>|
                        r.deep_view().contains(n) <==> ((exists|a: int, b: int|
                            0 <= a < i && 0 <= b < sv[a].tools.len() && (#[trigger] sv[a].tools@[b]).name@
                                == n) || (exists|b: int| 0 <= b < j + 1 && (#[trigger] tools@[b]).name@ == n))
                            && !self.tool_routes().contains_key(n) by {
                        assert(r0.contains(n) <==> ((exists|a: int, b: int|
                            0 <= a < i && 0 <= b < sv[a].tools.len() && (#[trigger] sv[a].tools@[b]).name@
                                == n) || (exists|b: int| 0 <= b < j && (#[trigger] tools@[b]).name@ == n))
                            && !self.tool_routes().contains_key(n));
                        if n == name@ {
                            assert(tools@[j as int].name@ == n);
                        } else {
                            if exists|b: int| 0 <= b < j + 1 && (#[trigger] tools@[b]).name@ == n {
                                let b = choose|b: int| 0 <= b < j + 1 && (#[trigger] tools@[b]).name@ == n;
                                assert(b != j);
                            }
                        }
                    }
                }
                j = j + 1;
            }
            proof {
                assert forall|n: Seq<char>|
                    r.deep_view().contains(n) <==> (exists|a: int, b: int|
                        0 <= a < i + 1 && 0 <= b < sv[a].tools.len() && (#[trigger] sv[a].tools@[b]).name@
                            == n) && !self.tool_routes().contains_key(n) by {
                    if exists|b: int| 0 <= b < j && (#[trigger] tools@[b]).name@ == n {
                        let b = choose|b: int| 0 <= b < j && (#[trigger] tools@[b]).name@ == n;
                        assert(sv[i as int].tools@[b].name@ == n);
                    }
                    if exists|a: int, b: int|
                        0 <= a < i + 1 && 0 <= b < sv[a].tools.len() && (#[trigger] sv[a].tools@[b]).name@ == n {
                        let (a, b) = choose|a: int, b: int|
                            0 <= a < i + 1 && 0 <= b < sv[a].tools.len() && (#[trigger] sv[a].tools@[b]).name@ == n;
                        if a == i {
                            assert(tools@[b].name@ == n);
                        }
                    }
                }
            }
            i = i + 1;
        }
        r
    }
}

/// No two servers share a name.
pub open spec fn server_names_unique(servers: Seq<UpstreamServer>) -> bool {
    forall|i: int, j: int|
        0 <= i < servers.len() && 0 <= j < servers.len() && i != j ==> #[trigger] servers[i].name@
            != #[trigger] servers[j].name@
}

/// A well-formed multiplexer knows each server under one name only.
pub proof fn lemma_wf_server_names_unique(m: &Multiplexer)
    requires
        m.wf(),
    ensures
        server_names_unique(m.servers_view()),
{
}

/// With names unique, the server of a name is the one entry that has it.
pub proof fn law_server_pos_is_the_named_entry(servers: Seq<UpstreamServer>, name: Seq<char>, p: int)
    requires
        server_names_unique(servers),
        0 <= p < servers.len(),
        servers[p].name@ == name,
    ensures
        server_pos(servers, name) == Some(p),
{
    let k = server_pos(servers, name)->0;
    assert(servers[k].name@ == name);
    if k != p {
        assert(servers[k].name@ != servers[p].name@);
    }
}

/// Marking a server disconnected twice is marking it once: after a first
/// call (which either disconnects a connected server, keeping its name, or
/// leaves everything as it was), no connected server goes by that name, so
/// a second call returns 0 and changes nothing.
pub proof fn law_disconnect_twice_is_once(before: Seq<UpstreamServer>, after: Seq<UpstreamServer>, name: Seq<char>)
    requires
        server_names_unique(after),
        match server_pos(before, name) {
            Some(p) if before[p].connected => {
                &&& after.len() == before.len()
                &&& forall|j: int| 0 <= j < before.len() && j != p ==> #[trigger] after[j] == before[j]
                &&& after[p].name == before[p].name
                &&& !after[p].connected
            },
            _ => after == before,
        },
    ensures
        !(server_pos(after, name) matches Some(q) && after[q].connected),
{
    match server_pos(before, name) {
        Some(p) => {
            assert(before[p].name@ == name);
            if before[p].connected {
                law_server_pos_is_the_named_entry(after, name, p);
            }
        },
        None => {},
    }
}

} // verus!
