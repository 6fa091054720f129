//! Request bookkeeping for persistent stdio connections: request ids,
//! the table of requests awaiting an answer, and the texts of failures.

use vstd::prelude::*;
use crate::json::{
    i64_member, json_i64_member, json_member, json_parse_of, json_string_member, member, parse_json,
    string_member, string_view,
};
use crate::protocol::answers::{value_json, value_text};
use crate::text::{decimal, push_decimal, trim, trimmed_of, StringExecFns};

verus! {

/// The first id given to a request; lower ids are kept for the handshake.
pub const FIRST_REQUEST_ID: i64 = 10;

/// Hands out JSON-RPC request ids, one after another (wrapping around
/// like an atomic counter).
pub struct RequestIds {
    next: i64,
}

impl RequestIds {
    /// The id the next request gets.
    pub closed spec fn peek(&self) -> i64 {
        self.next
    }

    /// A counter whose first id is `FIRST_REQUEST_ID`.
    pub fn new() -> (r: Self)
        ensures
            r.peek() == FIRST_REQUEST_ID,
    {
        RequestIds { next: FIRST_REQUEST_ID }
    }

    /// Takes the next id.
    pub fn take(&mut self) -> (r: i64)
        ensures
            r == old(self).peek(),
            final(self).peek() == (if old(self).peek() == i64::MAX {
                i64::MIN
            } else {
                (old(self).peek() + 1) as i64
            }),
    {
        let id = self.next;
        self.next = self.next.wrapping_add(1);
        id
    }
}

/// Index of the entry with the id.
pub open spec fn id_pos<T>(entries: Seq<(i64, T)>, id: i64) -> Option<int> {
    if exists|i: int| 0 <= i < entries.len() && entries[i].0 == id {
        Some(choose|i: int| 0 <= i < entries.len() && entries[i].0 == id)
    } else {
        None
    }
}

/// No two entries have the same id.
pub open spec fn ids_unique<T>(entries: Seq<(i64, T)>) -> bool {
    forall|i: int, j: int|
        0 <= i < entries.len() && 0 <= j < entries.len() && i != j ==> #[trigger] entries[i].0
            != #[trigger] entries[j].0
}

/// The table after registering `waiter` under `id`: an entry with the
/// same id is replaced, otherwise the entry is appended.
pub open spec fn inserted<T>(entries: Seq<(i64, T)>, id: i64, waiter: T) -> Seq<(i64, T)> {
    match id_pos(entries, id) {
        Some(i) => entries.update(i, (id, waiter)),
        None => entries.push((id, waiter)),
    }
}

/// The requests awaiting an answer, each with what its answer is handed to.
pub struct PendingTable<T> {
    entries: Vec<(i64, T)>,
}

impl<T> PendingTable<T> {
    /// The waiting requests, oldest first.
    pub closed spec fn view_entries(&self) -> Seq<(i64, T)> {
        self.entries@
    }

    /// The table's invariant.
    pub open spec fn wf(&self) -> bool {
        ids_unique(self.view_entries())
    }

    /// An empty table.
    pub fn new() -> (r: Self)
        ensures
            r.wf(),
            r.view_entries().len() == 0,
    {
        PendingTable { entries: Vec::new() }
    }

    /// How many requests are waiting.
    pub fn len(&self) -> (r: usize)
        ensures
            r == self.view_entries().len(),
    {
        self.entries.len()
    }

    fn find(&self, id: i64) -> (r: Option<usize>)
        requires
            self.wf(),
        ensures
            r matches Some(i) ==> id_pos(self.view_entries(), id) == Some(i as int) && i
                < self.entries.len(),
            r is None ==> id_pos(self.view_entries(), id) is None,
    {
        let mut i: usize = 0;
        while i < self.entries.len()
            invariant
                i <= self.entries.len(),
                ids_unique(self.entries@),
                forall|j: int| 0 <= j < i ==> self.entries@[j].0 != id,
            decreases self.entries.len() - i,
        {
            if self.entries[i].0 == id {
                proof {
                    let k = id_pos(self.entries@, id)->0;
                    if k != i {
                        assert(self.entries@[k].0 != self.entries@[i as int].0);
                    }
                }
                return Some(i);
            }
            i = i + 1;
        }
        None
    }

    /// Registers a request; one already waiting under the id is replaced.
    pub fn insert(&mut self, id: i64, waiter: T)
        requires
            old(self).wf(),
        ensures
            final(self).wf(),
            final(self).view_entries() == inserted(old(self).view_entries(), id, waiter),
    {
        let ghost before = self.entries@;
        match self.find(id) {
            Some(i) => {
                self.entries.set(i, (id, waiter));
                proof {
                    assert forall|a: int, b: int|
                        0 <= a < self.entries@.len() && 0 <= b < self.entries@.len() && a != b
                            implies #[trigger] self.entries@[a].0 != #[trigger] self.entries@[b].0 by {
                        assert(before[a].0 != before[b].0);
                    }
                }
            },
            None => {
                self.entries.push((id, waiter));
                proof {
                    assert forall|a: int, b: int|
                        0 <= a < self.entries@.len() && 0 <= b < self.entries@.len() && a != b
                            implies #[trigger] self.entries@[a].0 != #[trigger] self.entries@[b].0 by {
                        if a < before.len() && b < before.len() {
                            assert(before[a].0 != before[b].0);
                        } else if a < before.len() {
                            assert(before[a].0 != id);
                        } else {
                            assert(before[b].0 != id);
                        }
                    }
                }
            },
        }
    }

    /// Takes the request with the id out of the table, if it is waiting.
    pub fn take(&mut self, id: i64) -> (r: Option<T>)
        requires
            old(self).wf(),
        ensures
            final(self).wf(),
            match id_pos(old(self).view_entries(), id) {
                Some(i) => r == Some(old(self).view_entries()[i].1) && final(self).view_entries()
                    == old(self).view_entries().remove(i),
                None => r is None && final(self).view_entries() == old(self).view_entries(),
            },
    {
        let ghost before = self.entries@;
        match self.find(id) {
            Some(i) => {
                let (_, waiter) = self.entries.remove(i);
                proof {
                    assert forall|a: int, b: int|
                        0 <= a < self.entries@.len() && 0 <= b < self.entries@.len() && a != b
                            implies #[trigger] self.entries@[a].0 != #[trigger] self.entries@[b].0 by {
                        let a2 = if a < i { a } else { a + 1 };
                        let b2 = if b < i { b } else { b + 1 };
                        assert(before[a2].0 != before[b2].0);
                    }
                }
                Some(waiter)
            },
            None => None,
        }
    }

    /// Empties the table, handing back every waiting request, oldest first.
    pub fn drain(&mut self) -> (r: Vec<(i64, T)>)
        ensures
            final(self).wf(),
            final(self).view_entries().len() == 0,
            r@ == old(self).view_entries(),
    {
        let mut out: Vec<(i64, T)> = Vec::new();
        std::mem::swap(&mut out, &mut self.entries);
        out
    }
}

/// An answer reaches the request it belongs to: after a request is
/// registered under an id, that id leads to it, and to nothing else.
pub proof fn law_answer_reaches_its_request<T>(entries: Seq<(i64, T)>, id: i64, waiter: T)
    requires
        ids_unique(entries),
    ensures
        id_pos(inserted(entries, id, waiter), id) matches Some(k) && inserted(entries, id, waiter)[k]
            == (id, waiter),
{
    let s = inserted(entries, id, waiter);
    let k = match id_pos(entries, id) {
        Some(i) => i,
        None => entries.len() as int,
    };
    assert(0 <= k < s.len() && s[k].0 == id);
    let p = id_pos(s, id)->0;
    assert(0 <= p < s.len() && s[p].0 == id);
    if p != k {
        if id_pos(entries, id) is Some {
            assert(entries[p].0 != entries[k].0);
        } else {
            assert(entries[p].0 == id);
        }
    }
}

/// A signed number in decimal.
pub open spec fn signed_decimal(n: int) -> Seq<char> {
    if n < 0 {
        seq!['-'] + decimal((-n) as nat)
    } else {
        decimal(n as nat)
    }
}

/// Appends a signed number in decimal.
pub fn push_signed(s: &mut String, n: i64)
    ensures
        final(s)@ == old(s)@ + signed_decimal(n as int),
{
    if n < 0 {
        let ghost start = s@;
        crate::text::push_char(s, '-');
        let magnitude: u64 = (-(n as i128)) as u64;
        push_decimal(s, magnitude);
        proof {
            assert(s@ =~= start + signed_decimal(n as int));
        }
    } else {
        push_decimal(s, n as u64);
    }
}

/// The text of an error answer: its message (or `Unknown error`) and its
/// code (or -1).
pub open spec fn upstream_error_text(message: Option<Seq<char>>, code: Option<i64>) -> Seq<char> {
    let m = match message {
        Some(m) => m,
        None => "Unknown error"@,
    };
    let c: int = match code {
        Some(c) => c as int,
        None => -1,
    };
    m + " (code: "@ + signed_decimal(c) + ")"@
}

/// Writes the text of an error answer.
pub fn format_upstream_error(message: Option<&str>, code: Option<i64>) -> (r: String)
    ensures
        r@ == upstream_error_text(
            match message {
                Some(m) => Some(m@),
                None => None,
            },
            code,
        ),
{
    let mut r = match message {
        Some(m) => String::from_str(m),
        None => String::from_str("Unknown error"),
    };
    r.append(" (code: ");
    let c: i64 = match code {
        Some(c) => c,
        None => -1,
    };
    push_signed(&mut r, c);
    r.append(")");
    r
}

/// The error handed to a request whose server process exited.
pub fn server_exited_message(server: &str, id: i64) -> (r: String)
    ensures
        r@ == "Server '"@ + server@ + "' exited while request id="@ + signed_decimal(id as int)
            + " was pending"@,
{
    let mut r = String::from_str("Server '");
    r.append(server);
    r.append("' exited while request id=");
    push_signed(&mut r, id);
    r.append(" was pending");
    r
}

/// The error handed to a request whose connection was lost.
pub fn connection_lost_message(server: &str, id: i64) -> (r: String)
    ensures
        r@ == "Connection to '"@ + server@ + "' lost while request id="@ + signed_decimal(id as int)
            + " was pending"@,
{
    let mut r = String::from_str("Connection to '");
    r.append(server);
    r.append("' lost while request id=");
    push_signed(&mut r, id);
    r.append(" was pending");
    r
}

/// Whether a line from a server's output may hold a JSON-RPC message: once
/// trimmed, it is not empty and starts with `{`. Other lines (banners,
/// logs) are skipped.
pub fn may_hold_message(line: &str) -> (r: bool)
    ensures
        r == (trimmed_of(line@).len() > 0 && trimmed_of(line@)[0] == '{'),
{
    let t = trim(line);
    let chars = crate::text::str_chars(t.as_str());
    chars.len() > 0 && chars[0] == '{'
}


/// What a line of a server's output carries.
pub enum LineOutcome {
    /// Nothing to act on: a blank line, a banner, or text that is not JSON.
    Skip,
    /// A message without an integer id: a notification, with its method
    /// when it names one.
    Notification { method: Option<String> },
    /// The answer to the request with the id: its result, or the text of
    /// its failure.
    Answer { id: i64, outcome: Result<serde_json::Value, String> },
}

/// The model of what a line carries.
pub enum LineModel {
    Skip,
    Notification { method: Option<Seq<char>> },
    Answer { id: i64, outcome: Result<serde_json::Value, Seq<char>> },
}

impl View for LineOutcome {
    type V = LineModel;

    open spec fn view(&self) -> LineModel {
        match self {
            LineOutcome::Skip => LineModel::Skip,
            LineOutcome::Notification { method } => LineModel::Notification { method: string_view(*method) },
            LineOutcome::Answer { id, outcome } => LineModel::Answer {
                id: *id,
                outcome: match outcome {
                    Ok(v) => Ok(*v),
                    Err(e) => Err(e@),
                },
            },
        }
    }
}

/// The failure text of an answer with neither a result nor an error.
pub open spec fn no_result_text() -> Seq<char> {
    "Response has neither 'result' nor 'error'"@
}

/// What an answer hands to its request: the member under `result`;
/// failing that, the text of the error under `error` (its message and
/// code); failing both, `no_result_text`.
pub open spec fn answer_outcome(v: serde_json::Value) -> Result<serde_json::Value, Seq<char>> {
    match json_member(v, "result"@) {
        Some(r) => Ok(r),
        None => match json_member(v, "error"@) {
            Some(e) => Err(
                upstream_error_text(json_string_member(e, "message"@), json_i64_member(e, "code"@)),
            ),
            None => Err(no_result_text()),
        },
    }
}

/// What a JSON message carries: with an integer `id`, the answer to that
/// request; without one, a notification.
pub open spec fn message_of(v: serde_json::Value) -> LineModel {
    match json_i64_member(v, "id"@) {
        Some(id) => LineModel::Answer { id, outcome: answer_outcome(v) },
        None => LineModel::Notification { method: json_string_member(v, "method"@) },
    }
}

/// What a line of output carries: a line that may hold a message and
/// reads, once trimmed, as one JSON value is that message; any other line
/// is skipped.
pub open spec fn line_model_of(line: Seq<char>) -> LineModel {
    let t = trimmed_of(line);
    if t.len() > 0 && t[0] == '{' {
        match json_parse_of(t) {
            Some(v) => message_of(v),
            None => LineModel::Skip,
        }
    } else {
        LineModel::Skip
    }
}

/// Sorts a JSON message into an answer or a notification.
pub fn classify_message(v: &serde_json::Value) -> (r: LineOutcome)
    ensures
        r@ == message_of(*v),
{
    match i64_member(v, "id") {
        Some(id) => {
            let outcome = match member(v, "result") {
                Some(result) => Ok(result),
                None => match member(v, "error") {
                    Some(error) => {
                        let message = string_member(&error, "message");
                        let code = i64_member(&error, "code");
                        let text = match &message {
                            Some(m) => format_upstream_error(Some(m.as_str()), code),
                            None => format_upstream_error(None, code),
                        };
                        Err(text)
                    },
                    None => Err(String::from_str("Response has neither 'result' nor 'error'")),
                },
            };
            LineOutcome::Answer { id, outcome }
        },
        None => LineOutcome::Notification { method: string_member(v, "method") },
    }
}

/// Reads a line of a server's output: skips what cannot be a message,
/// parses the rest as JSON, and sorts a message into an answer or a
/// notification.
pub fn classify_line(line: &str) -> (r: LineOutcome)
    ensures
        r@ == line_model_of(line@),
{
    if !may_hold_message(line) {
        return LineOutcome::Skip;
    }
    let t = trim(line);
    match parse_json(t.as_str()) {
        Some(v) => classify_message(&v),
        None => LineOutcome::Skip,
    }
}

/// What `serde_json::to_string` writes for a string: the string as a JSON
/// string literal, quoted and escaped.
pub uninterp spec fn json_string_text(s: Seq<char>) -> Seq<char>;

/// `serde_json::to_string` on a string slice. Writing a string into a
/// `String` does not fail, so the fallback to the empty text is never
/// taken.
#[verifier::external_body]
fn string_literal(s: &str) -> (r: String)
    ensures
        r@ == json_string_text(s@),
{
    serde_json::to_string(s).unwrap_or_default()
}

/// The line that sends request `id` for `method` with `params` to a
/// server's input: the JSON-RPC object (keys in the order `serde_json`
/// writes a map) and a line break.
pub open spec fn request_line_of(id: i64, method: Seq<char>, params: serde_json::Value) -> Seq<char> {
    "{\"id\":"@ + signed_decimal(id as int) + ",\"jsonrpc\":\"2.0\",\"method\":"@ + json_string_text(method)
        + ",\"params\":"@ + value_text(params) + "}\n"@
}

/// The line that sends a notification for `method` to a server's input.
pub open spec fn notification_line_of(method: Seq<char>) -> Seq<char> {
    "{\"jsonrpc\":\"2.0\",\"method\":"@ + json_string_text(method) + "}\n"@
}

/// Writes the line of a request.
pub fn request_line(id: i64, method: &str, params: &serde_json::Value) -> (r: String)
    ensures
        r@ == request_line_of(id, method@, *params),
{
    let mut r = String::from_str("{\"id\":");
    push_signed(&mut r, id);
    r.append(",\"jsonrpc\":\"2.0\",\"method\":");
    let m = string_literal(method);
    r.append(m.as_str());
    r.append(",\"params\":");
    let p = value_json(params);
    r.append(p.as_str());
    r.append("}\n");
    r
}

/// Writes the line of a notification.
pub fn notification_line(method: &str) -> (r: String)
    ensures
        r@ == notification_line_of(method@),
{
    let mut r = String::from_str("{\"jsonrpc\":\"2.0\",\"method\":");
    let m = string_literal(method);
    r.append(m.as_str());
    r.append("}\n");
    r
}

} // verus!
