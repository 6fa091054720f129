//! MCP protocol types shared by the multiplexer, the cache and the gateway.

pub mod answers;
pub mod cache;
pub mod error_codes;
pub mod gateway;
pub mod index;
pub mod multiplexer;
pub mod pages;
pub mod respawn;
pub mod routing;
pub mod stdio;

use vstd::prelude::*;
use crate::text::{push_char, StringExecFns};

verus! {

/// A tool as an MCP server declares it.
pub struct ToolDefinition {
    pub name: String,
    pub description: Option<String>,
    pub input_schema: Option<serde_json::Value>,
}

/// A resource as an MCP server declares it.
pub struct ResourceDefinition {
    pub uri: String,
    pub name: String,
    pub description: Option<String>,
    pub mime_type: Option<String>,
}

/// A prompt as an MCP server declares it.
pub struct PromptDefinition {
    pub name: String,
    pub description: Option<String>,
    pub arguments: Option<serde_json::Value>,
}

/// Parameters of a `tools/call` request.
pub struct ToolCallParams {
    pub name: String,
    pub arguments: Option<serde_json::Value>,
}

/// The fully-qualified name `server/item`.
pub open spec fn fqn(server: Seq<char>, item: Seq<char>) -> Seq<char> {
    server + seq!['/'] + item
}

/// Builds `server/item`.
pub fn make_fqn(server: &str, item: &str) -> (r: String)
    ensures
        r@ == fqn(server@, item@),
{
    let mut r = String::from_str(server);
    push_char(&mut r, '/');
    r.append(item);
    r
}

/// A tool together with the server that offers it.
pub struct RegisteredTool {
    pub definition: ToolDefinition,
    pub server_name: String,
    pub fqn: String,
}

/// A resource together with the server that offers it.
pub struct RegisteredResource {
    pub definition: ResourceDefinition,
    pub server_name: String,
    pub fqn: String,
}

/// A prompt together with the server that offers it.
pub struct RegisteredPrompt {
    pub definition: PromptDefinition,
    pub server_name: String,
    pub fqn: String,
}

impl Clone for ToolDefinition {
    fn clone(&self) -> (r: Self)
        ensures
            r == *self,
    {
        ToolDefinition {
            name: self.name.clone(),
            description: self.description.clone(),
            input_schema: self.input_schema.clone(),
        }
    }
}

impl Clone for ResourceDefinition {
    fn clone(&self) -> (r: Self)
        ensures
            r == *self,
    {
        ResourceDefinition {
            uri: self.uri.clone(),
            name: self.name.clone(),
            description: self.description.clone(),
            mime_type: self.mime_type.clone(),
        }
    }
}

impl Clone for PromptDefinition {
    fn clone(&self) -> (r: Self)
        ensures
            r == *self,
    {
        PromptDefinition {
            name: self.name.clone(),
            description: self.description.clone(),
            arguments: self.arguments.clone(),
        }
    }
}

impl Clone for ToolCallParams {
    fn clone(&self) -> (r: Self)
        ensures
            r == *self,
    {
        ToolCallParams { name: self.name.clone(), arguments: self.arguments.clone() }
    }
}

impl Clone for RegisteredTool {
    fn clone(&self) -> (r: Self)
        ensures
            r == *self,
    {
        RegisteredTool {
            definition: self.definition.clone(),
            server_name: self.server_name.clone(),
            fqn: self.fqn.clone(),
        }
    }
}

impl Clone for RegisteredResource {
    fn clone(&self) -> (r: Self)
        ensures
            r == *self,
    {
        RegisteredResource {
            definition: self.definition.clone(),
            server_name: self.server_name.clone(),
            fqn: self.fqn.clone(),
        }
    }
}

impl Clone for RegisteredPrompt {
    fn clone(&self) -> (r: Self)
        ensures
            r == *self,
    {
        RegisteredPrompt {
            definition: self.definition.clone(),
            server_name: self.server_name.clone(),
            fqn: self.fqn.clone(),
        }
    }
}

impl RegisteredTool {
    /// Registers a tool under `server/tool`.
    pub fn new(definition: ToolDefinition, server_name: &str) -> (r: Self)
        ensures
            r.definition == definition,
            r.server_name@ == server_name@,
            r.fqn@ == fqn(server_name@, definition.name@),
    {
        let f = make_fqn(server_name, definition.name.as_str());
        RegisteredTool { definition, server_name: String::from_str(server_name), fqn: f }
    }
}

impl RegisteredResource {
    /// Registers a resource under `server/uri`.
    pub fn new(definition: ResourceDefinition, server_name: &str) -> (r: Self)
        ensures
            r.definition == definition,
            r.server_name@ == server_name@,
            r.fqn@ == fqn(server_name@, definition.uri@),
    {
        let f = make_fqn(server_name, definition.uri.as_str());
        RegisteredResource { definition, server_name: String::from_str(server_name), fqn: f }
    }
}

impl RegisteredPrompt {
    /// Registers a prompt under `server/prompt`.
    pub fn new(definition: PromptDefinition, server_name: &str) -> (r: Self)
        ensures
            r.definition == definition,
            r.server_name@ == server_name@,
            r.fqn@ == fqn(server_name@, definition.name@),
    {
        let f = make_fqn(server_name, definition.name.as_str());
        RegisteredPrompt { definition, server_name: String::from_str(server_name), fqn: f }
    }
}

} // verus!
