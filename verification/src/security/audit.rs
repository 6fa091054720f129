//! Audit entries for tool calls and blocked calls, and the size accounting
//! and rotation plan of the audit log file.

use vstd::prelude::*;
use crate::protocol::ToolCallParams;
use crate::text::{push_char, StringExecFns};
use crate::time::{now_iso8601, is_timestamp_of};

verus! {

/// One line of the audit log.
pub struct AuditEntry {
    pub timestamp: String,
    pub event: String,
    pub tool_name: String,
    pub server_name: Option<String>,
    pub arguments: Option<serde_json::Value>,
    pub duration_ms: Option<u64>,
    pub reason: Option<String>,
    pub trace_id: Option<String>,
}

/// A fresh random trace id: `uuid::Uuid::new_v4()` in its hyphenated
/// lower-case text form, which has 36 characters. The id is random, so
/// nothing more is promised of it.
#[verifier::external_body]
pub(crate) fn new_trace_id() -> (r: String)
    ensures
        r@.len() == 36,
{
    uuid::Uuid::new_v4().to_string()
}

/// The entry that records a completed tool call.
pub fn tool_call_entry(tool_name: &str, server_name: &str, params: &ToolCallParams, duration_ms: u64) -> (r: AuditEntry)
    ensures
        exists|secs: nat| #[trigger] is_timestamp_of(r.timestamp@, secs),
        r.event@ == "tool_call"@,
        r.tool_name@ == tool_name@,
        r.server_name matches Some(s) && s@ == server_name@,
        r.arguments == params.arguments,
        r.duration_ms == Some(duration_ms),
        r.reason is None,
        r.trace_id matches Some(t) && t@.len() == 36,
{
    let timestamp = now_iso8601();
    let ghost secs = choose|secs: nat| #[trigger] is_timestamp_of(timestamp@, secs);
    assert(is_timestamp_of(timestamp@, secs));
    let r = AuditEntry {
        timestamp,
        event: String::from_str("tool_call"),
        tool_name: String::from_str(tool_name),
        server_name: Some(String::from_str(server_name)),
        arguments: params.arguments.clone(),
        duration_ms: Some(duration_ms),
        reason: None,
        trace_id: Some(new_trace_id()),
    };
    assert(is_timestamp_of(r.timestamp@, secs));
    r
}

/// The entry that records a tool call refused by the security policy.
pub fn blocked_call_entry(tool_name: &str, reason: &str) -> (r: AuditEntry)
    ensures
        exists|secs: nat| #[trigger] is_timestamp_of(r.timestamp@, secs),
        r.event@ == "tool_blocked"@,
        r.tool_name@ == tool_name@,
        r.server_name is None,
        r.arguments is None,
        r.duration_ms is None,
        r.reason matches Some(s) && s@ == reason@,
        r.trace_id matches Some(t) && t@.len() == 36,
{
    let timestamp = now_iso8601();
    let ghost secs = choose|secs: nat| #[trigger] is_timestamp_of(timestamp@, secs);
    assert(is_timestamp_of(timestamp@, secs));
    let r = AuditEntry {
        timestamp,
        event: String::from_str("tool_blocked"),
        tool_name: String::from_str(tool_name),
        server_name: None,
        arguments: None,
        duration_ms: None,
        reason: Some(String::from_str(reason)),
        trace_id: Some(new_trace_id()),
    };
    assert(is_timestamp_of(r.timestamp@, secs));
    r
}

/// Number of rotated files kept beside the live log.
pub const KEPT_ROTATIONS: u64 = 5;

/// One file operation of a log rotation.
pub enum RotationStep {
    Remove { path: String },
    Rename { from: String, to: String },
}

/// `path.n`, the name of the `n`-th rotated file.
pub open spec fn rotated_name(path: Seq<char>, n: nat) -> Seq<char> {
    path + seq!['.'] + crate::text::decimal(n)
}

/// Size accounting of an audit log file: how much has been written and when
/// it is due for rotation.
pub struct AuditLogState {
    log_path: String,
    open: bool,
    current_size: u64,
    max_size_bytes: u64,
}

impl AuditLogState {
    /// The log file's path.
    pub closed spec fn path(&self) -> Seq<char> {
        self.log_path@
    }

    /// Whether a log file is open for writing.
    pub closed spec fn is_open(&self) -> bool {
        self.open
    }

    /// Bytes written to the current file (as counted, wrapping at 2^64).
    pub closed spec fn size(&self) -> u64 {
        self.current_size
    }

    /// Size in bytes at which the file is rotated.
    pub closed spec fn limit(&self) -> u64 {
        self.max_size_bytes
    }

    /// The state after opening (or failing to open) the log file: `opened`
    /// is the size the file already had, or `None` if it could not be opened
    /// (or logging is off).
    pub fn with_max_size(log_path: &str, opened: Option<u64>, max_size_mb: u64) -> (r: Self)
        requires
            max_size_mb * 1048576 <= u64::MAX,
        ensures
            r.path() == log_path@,
            r.is_open() == opened is Some,
            r.size() == match opened { Some(s) => s, None => 0 },
            r.limit() == max_size_mb * 1048576,
    {
        AuditLogState {
            log_path: String::from_str(log_path),
            open: opened.is_some(),
            current_size: match opened {
                Some(s) => s,
                None => 0,
            },
            max_size_bytes: max_size_mb * 1048576,
        }
    }

    /// Whether the file has reached its size limit and is due for rotation.
    pub fn needs_rotation(&self) -> (r: bool)
        ensures
            r == (self.size() >= self.limit()),
    {
        self.current_size >= self.max_size_bytes
    }

    /// The file operations of a rotation, in order: the oldest kept file
    /// `path.5` is removed, `path.4` to `path.1` move up by one, and the live
    /// file becomes `path.1`, so that five rotated files are kept.
    pub fn rotation_plan(&self) -> (r: Vec<RotationStep>)
        ensures
            r.len() == 6,
            r@[0] matches RotationStep::Remove { path } && path@ == rotated_name(self.path(), 5),
            forall|i: int| 1 <= i <= 4 ==> (#[trigger] r@[i] matches RotationStep::Rename { from, to }
                && from@ == rotated_name(self.path(), (5 - i) as nat)
                && to@ == rotated_name(self.path(), (6 - i) as nat)),
            r@[5] matches RotationStep::Rename { from, to } && from@ == self.path()
                && to@ == rotated_name(self.path(), 1),
    {
        let mut r: Vec<RotationStep> = Vec::new();
        r.push(RotationStep::Remove { path: self.rotated(KEPT_ROTATIONS) });
        let mut i: u64 = KEPT_ROTATIONS - 1;
        while i >= 1
            invariant
                0 <= i <= 4,
                r.len() == 5 - i,
                r@[0] matches RotationStep::Remove { path } && path@ == rotated_name(self.path(), 5),
                forall|j: int| 1 <= j < 5 - i ==> (#[trigger] r@[j] matches RotationStep::Rename { from, to }
                    && from@ == rotated_name(self.path(), (5 - j) as nat)
                    && to@ == rotated_name(self.path(), (6 - j) as nat)),
            decreases i,
        {
            let from = self.rotated(i);
            let to = self.rotated(i + 1);
            r.push(RotationStep::Rename { from, to });
            i = i - 1;
        }
        r.push(RotationStep::Rename { from: self.log_path.clone(), to: self.rotated(1) });
        r
    }

    /// `path.n`.
    fn rotated(&self, n: u64) -> (r: String)
        ensures
            r@ == rotated_name(self.path(), n as nat),
    {
        let mut s = self.log_path.clone();
        push_char(&mut s, '.');
        crate::text::push_decimal(&mut s, n);
        s
    }

    /// Records the outcome of a rotation: a freshly opened file starts at
    /// size 0; if the new file could not be opened, nothing is written until
    /// the next rotation succeeds.
    pub fn rotated_to(&mut self, reopened: bool)
        ensures
            final(self).path() == old(self).path(),
            final(self).limit() == old(self).limit(),
            final(self).is_open() == reopened,
            final(self).size() == if reopened { 0 } else { old(self).size() },
    {
        self.open = reopened;
        if reopened {
            self.current_size = 0;
        }
    }

    /// Records a line of `line_len` bytes written with its newline; the
    /// count wraps around like the atomic counter it stands for.
    pub fn record_write(&mut self, line_len: u64)
        requires
            line_len < u64::MAX,
        ensures
            final(self).path() == old(self).path(),
            final(self).limit() == old(self).limit(),
            final(self).is_open() == old(self).is_open(),
            final(self).size() == (old(self).size() + line_len + 1) % 0x1_0000_0000_0000_0000,
    {
        self.current_size = self.current_size.wrapping_add(line_len + 1);
    }
}

} // verus!
