//! Discovery decisions: which lists a server offers, by the capabilities
//! it declares in its handshake, and the walk through a `tools/list`-style
//! listing's pages, one answer at a time. The caller sends the requests
//! and hands each answer in.

use vstd::prelude::*;
use crate::json::{as_array, json_as_array, json_member, json_string_member, member, string_member};

verus! {

/// What to do after a page: ask for the page at the cursor, or stop.
pub enum PageStep {
    Next { cursor: String },
    Done,
}

/// The items a page's answer adds: the array under `result_key` of its
/// `result`, none if either is missing or not of that shape.
pub open spec fn page_items(body: serde_json::Value, result_key: Seq<char>) -> Seq<serde_json::Value> {
    match json_member(body, "result"@) {
        Some(result) => match json_member(result, result_key) {
            Some(list) => match json_as_array(list) {
                Some(a) => a,
                None => Seq::empty(),
            },
            None => Seq::empty(),
        },
        None => Seq::empty(),
    }
}

/// The cursor of the next page: the string under `nextCursor` of the
/// answer's `result`; none, and the walk stops, when there is no result or
/// no such string.
pub open spec fn next_cursor(body: serde_json::Value) -> Option<Seq<char>> {
    match json_member(body, "result"@) {
        Some(result) => json_string_member(result, "nextCursor"@),
        None => None,
    }
}

/// The items gathered so far in a paged listing.
pub struct PageCollector {
    items: Vec<serde_json::Value>,
}

impl View for PageCollector {
    type V = Seq<serde_json::Value>;

    closed spec fn view(&self) -> Seq<serde_json::Value> {
        self.items@
    }
}

impl PageCollector {
    /// A listing with nothing gathered yet.
    pub fn new() -> (r: Self)
        ensures
            r@ == Seq::<serde_json::Value>::empty(),
    {
        PageCollector { items: Vec::new() }
    }

    /// Takes in one page's answer: its items are added after those
    /// gathered so far, and the walk goes on at its next cursor, if any.
    pub fn take_page(&mut self, body: &serde_json::Value, result_key: &str) -> (r: PageStep)
        ensures
            final(self)@ == old(self)@ + page_items(*body, result_key@),
            match r {
                PageStep::Next { cursor } => next_cursor(*body) == Some(cursor@),
                PageStep::Done => next_cursor(*body) is None,
            },
    {
        let result = match member(body, "result") {
            Some(r) => r,
            None => {
                proof {
                    assert(self@ =~= old(self)@ + page_items(*body, result_key@));
                }
                return PageStep::Done;
            },
        };
        let ghost before = self@;
        if let Some(list) = member(&result, result_key) {
            if let Some(mut a) = as_array(&list) {
                self.items.append(&mut a);
            }
        }
        proof {
            assert(self@ =~= before + page_items(*body, result_key@));
        }
        let cursor = string_member(&result, "nextCursor");
        match cursor {
            Some(c) => PageStep::Next { cursor: c },
            None => PageStep::Done,
        }
    }

    /// The gathered items, none when nothing was gathered.
    pub fn finish(self) -> (r: Option<Vec<serde_json::Value>>)
        ensures
            match r {
                Some(items) => items@ == self@ && self@.len() > 0,
                None => self@.len() == 0,
            },
    {
        if self.items.len() == 0 {
            None
        } else {
            Some(self.items)
        }
    }
}

/// The capabilities a server declares in its handshake result.
pub fn declared_capabilities(result: &serde_json::Value) -> (r: Option<serde_json::Value>)
    ensures
        r == json_member(*result, "capabilities"@),
{
    member(result, "capabilities")
}

/// The capabilities a server declares in a whole handshake answer: those
/// of its `result`.
pub fn answer_capabilities(answer: &serde_json::Value) -> (r: Option<serde_json::Value>)
    ensures
        r == match json_member(*answer, "result"@) {
            Some(result) => json_member(result, "capabilities"@),
            None => None,
        },
{
    match member(answer, "result") {
        Some(result) => declared_capabilities(&result),
        None => None,
    }
}

/// Which of the lists a server offers.
pub struct OfferedLists {
    pub tools: bool,
    pub resources: bool,
    pub prompts: bool,
}

/// The lists a server offers: each one whose key its capabilities hold.
pub fn offered_lists(capabilities: &serde_json::Value) -> (r: OfferedLists)
    ensures
        r.tools == json_member(*capabilities, "tools"@) is Some,
        r.resources == json_member(*capabilities, "resources"@) is Some,
        r.prompts == json_member(*capabilities, "prompts"@) is Some,
{
    OfferedLists {
        tools: member(capabilities, "tools").is_some(),
        resources: member(capabilities, "resources").is_some(),
        prompts: member(capabilities, "prompts").is_some(),
    }
}

} // verus!
