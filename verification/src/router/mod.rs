//! Tool routing: narrowing the tools shown to a client down to those that
//! fit its query.

pub mod keyword;
pub mod semantic;

use vstd::prelude::*;
use crate::protocol::RegisteredTool;
use crate::json::{entry_models, json_member, json_object_entries, json_string_member, member, object_entries, string_member};
use crate::text::{push_char, StringExecFns};

verus! {

/// A strategy that picks, for a query, the tools worth showing.
pub trait ToolRouter {
    /// The tools worth showing for the query. A ranking strategy gives at
    /// most `top_k` of them, best first; the pass-through one gives them all.
    fn route(&self, query: &str, tools: &[RegisteredTool], top_k: usize) -> Vec<RegisteredTool>;

    /// The strategy's name.
    fn name(&self) -> &str;
}

/// The strategy that shows every tool.
pub struct PassthroughRouter;

impl ToolRouter for PassthroughRouter {
    fn route(&self, query: &str, tools: &[RegisteredTool], top_k: usize) -> (r: Vec<RegisteredTool>)
        ensures
            r@ == tools@,
    {
        let mut r: Vec<RegisteredTool> = Vec::new();
        let mut i: usize = 0;
        while i < tools.len()
            invariant
                i <= tools.len(),
                r@ == tools@.take(i as int),
            decreases tools.len() - i,
        {
            r.push(tools[i].clone());
            proof {
                assert(tools@.take(i + 1) =~= tools@.take(i as int).push(tools@[i as int]));
            }
            i = i + 1;
        }
        proof {
            assert(tools@.take(i as int) =~= tools@);
        }
        r
    }

    fn name(&self) -> (r: &str)
        ensures
            r@ == "passthrough"@,
    {
        "passthrough"
    }
}

/// A property of a tool's input schema: its name and, where the schema
/// gives one as a string, its description.
pub struct SchemaProperty {
    pub name: String,
    pub description: Option<String>,
}

/// The model of a schema property: its name and description.
pub struct PropertyView {
    pub name: Seq<char>,
    pub description: Option<Seq<char>>,
}

impl View for SchemaProperty {
    type V = PropertyView;

    open spec fn view(&self) -> PropertyView {
        PropertyView {
            name: self.name@,
            description: match self.description {
                Some(d) => Some(d@),
                None => None,
            },
        }
    }
}

/// The models of a list of schema properties.
pub open spec fn property_models(v: Seq<SchemaProperty>) -> Seq<PropertyView> {
    v.map_values(|p: SchemaProperty| p@)
}

/// `lead` followed by a space and `word`.
pub open spec fn with_word(lead: Seq<char>, word: Seq<char>) -> Seq<char> {
    lead + seq![' '] + word
}

/// `lead` followed by a space and the text, when there is one.
pub open spec fn with_optional(lead: Seq<char>, text: Option<Seq<char>>) -> Seq<char> {
    match text {
        Some(t) => with_word(lead, t),
        None => lead,
    }
}

/// The description of a tool, if it has one.
pub open spec fn description_of(tool: RegisteredTool) -> Option<Seq<char>> {
    match tool.definition.description {
        Some(d) => Some(d@),
        None => None,
    }
}

/// Appends a space and the word.
pub fn push_word(out: &mut String, word: &str)
    ensures
        final(out)@ == with_word(old(out)@, word@),
{
    push_char(out, ' ');
    out.append(word);
}

/// The properties of a tool's input schema, none if it has no schema.
pub fn tool_properties(tool: &RegisteredTool) -> (r: Vec<SchemaProperty>)
    ensures
        property_models(r@) == tool_properties_of(*tool),
{
    match &tool.definition.input_schema {
        Some(schema) => schema_properties(schema),
        None => Vec::new(),
    }
}

/// The properties of a tool's input schema, none if it has no schema.
pub open spec fn tool_properties_of(tool: RegisteredTool) -> Seq<PropertyView> {
    match tool.definition.input_schema {
        Some(s) => schema_properties_of(s),
        None => seq![],
    }
}

/// A property named `name` whose schema is `v`: its description is the
/// string under `v`'s `description` key, if there is one.
pub open spec fn property_of(name: Seq<char>, v: serde_json::Value) -> PropertyView {
    PropertyView { name, description: json_string_member(v, "description"@) }
}

/// The properties of a JSON schema: one for each member of the object
/// under its `properties` key, in the order that object walks them; none
/// when that key is missing or does not hold an object.
pub open spec fn schema_properties_of(schema: serde_json::Value) -> Seq<PropertyView> {
    match json_member(schema, "properties"@) {
        Some(p) => match json_object_entries(p) {
            Some(e) => e.map_values(|m: (Seq<char>, serde_json::Value)| property_of(m.0, m.1)),
            None => seq![],
        },
        None => seq![],
    }
}

/// The properties of a JSON schema: each member of its `properties`
/// object, with the string under its `description` key if there is one.
pub fn schema_properties(schema: &serde_json::Value) -> (r: Vec<SchemaProperty>)
    ensures
        property_models(r@) == schema_properties_of(*schema),
{
    let mut out: Vec<SchemaProperty> = Vec::new();
    let props = match member(schema, "properties") {
        Some(p) => p,
        None => {
            return out;
        },
    };
    let members = match object_entries(&props) {
        Some(e) => e,
        None => {
            return out;
        },
    };
    let ghost em = entry_models(members@);
    let mut i: usize = 0;
    while i < members.len()
        invariant
            i <= members.len(),
            out.len() == i,
            em == entry_models(members@),
            property_models(out@) == em.take(i as int).map_values(
                |m: (Seq<char>, serde_json::Value)| property_of(m.0, m.1),
            ),
        decreases members.len() - i,
    {
        let (name, value) = &members[i];
        let description = string_member(value, "description");
        let p = SchemaProperty { name: name.clone(), description };
        proof {
            assert(p@ == property_of(em[i as int].0, em[i as int].1));
        }
        let ghost before = out@;
        let ghost pm = p@;
        out.push(p);
        proof {
            assert(out@ =~= before.push(out@[i as int]));
            assert(property_models(out@) =~= property_models(before).push(pm));
            assert(em.take(i + 1) =~= em.take(i as int).push(em[i as int]));
            assert(property_models(out@) =~= em.take(i + 1).map_values(
                |m: (Seq<char>, serde_json::Value)| property_of(m.0, m.1),
            ));
        }
        i = i + 1;
    }
    proof {
        assert(em.take(i as int) =~= em);
    }
    out
}

} // verus!
