//! In-memory metrics: global counters, per-tool latency statistics, token
//! savings estimates and a bounded feed of recent events.

use vstd::prelude::*;
use crate::observe::percentile::{percentile, percentile_of};
use crate::text::StringExecFns;
use crate::time::{is_timestamp_of, now_iso8601, unix_now_secs};

verus! {

/// Estimated tokens that one tool definition costs in a client's context.
pub const TOKENS_PER_TOOL: usize = 200;

/// How many recent latency samples a tool keeps.
pub const MAX_SAMPLES: usize = 100;

/// How many recent events the collector keeps.
pub const MAX_EVENTS: usize = 1000;

/// Something that happened at the gateway.
pub enum EventType {
    Request { method: String, duration_ms: u64, success: bool },
    ToolCall { tool_name: String, server_name: String, duration_ms: u64, success: bool },
    ToolsList { total: usize, visible: usize },
    Routing { query: String, total_tools: usize, selected_tools: usize },
    ServerDisconnect { server_name: String, tools_removed: usize },
    ServerReconnect { server_name: String, tools_restored: usize },
}

/// Extra figures of an event, shown on the dashboard.
pub enum EventDetails {
    ToolsList { total_tools: usize, visible_tools: usize },
    Routing { query: String, total_tools: usize, selected_tools: usize },
    ServerDisconnect { tools_removed: usize },
    ServerReconnect { tools_restored: usize },
}

/// A recorded event with its timestamp.
pub struct MetricEvent {
    pub timestamp: String,
    pub event_type: String,
    pub tool_name: Option<String>,
    pub server_name: Option<String>,
    pub duration_ms: Option<u64>,
    pub success: Option<bool>,
    pub tokens_saved: Option<usize>,
    pub details: Option<EventDetails>,
}

impl Clone for EventDetails {
    fn clone(&self) -> (r: Self)
        ensures
            r == *self,
    {
        match self {
            EventDetails::ToolsList { total_tools, visible_tools } => EventDetails::ToolsList {
                total_tools: *total_tools,
                visible_tools: *visible_tools,
            },
            EventDetails::Routing { query, total_tools, selected_tools } => EventDetails::Routing {
                query: query.clone(),
                total_tools: *total_tools,
                selected_tools: *selected_tools,
            },
            EventDetails::ServerDisconnect { tools_removed } => EventDetails::ServerDisconnect {
                tools_removed: *tools_removed,
            },
            EventDetails::ServerReconnect { tools_restored } => EventDetails::ServerReconnect {
                tools_restored: *tools_restored,
            },
        }
    }
}

impl Clone for MetricEvent {
    fn clone(&self) -> (r: Self)
        ensures
            r == *self,
    {
        MetricEvent {
            timestamp: self.timestamp.clone(),
            event_type: self.event_type.clone(),
            tool_name: self.tool_name.clone(),
            server_name: self.server_name.clone(),
            duration_ms: self.duration_ms,
            success: self.success,
            tokens_saved: self.tokens_saved,
            details: self.details.clone(),
        }
    }
}

/// Per-tool aggregated statistics.
pub struct ToolStats {
    pub name: String,
    pub invocation_count: u64,
    pub success_count: u64,
    pub error_count: u64,
    pub total_duration_ms: u64,
    pub min_duration_ms: u64,
    pub max_duration_ms: u64,
    /// The most recent latency samples, oldest first.
    pub durations: Vec<u64>,
}

/// The model of a tool's statistics.
pub struct StatsView {
    pub name: Seq<char>,
    pub invocation_count: u64,
    pub success_count: u64,
    pub error_count: u64,
    pub total_duration_ms: u64,
    pub min_duration_ms: u64,
    pub max_duration_ms: u64,
    pub durations: Seq<u64>,
}

impl View for ToolStats {
    type V = StatsView;

    open spec fn view(&self) -> StatsView {
        StatsView {
            name: self.name@,
            invocation_count: self.invocation_count,
            success_count: self.success_count,
            error_count: self.error_count,
            total_duration_ms: self.total_duration_ms,
            min_duration_ms: self.min_duration_ms,
            max_duration_ms: self.max_duration_ms,
            durations: self.durations@,
        }
    }
}

/// The samples after adding one: appended, and the oldest dropped beyond
/// the limit.
pub open spec fn window_push(samples: Seq<u64>, d: u64) -> Seq<u64> {
    if samples.len() + 1 > MAX_SAMPLES {
        samples.push(d).drop_first()
    } else {
        samples.push(d)
    }
}

/// Statistics of a tool that has not been called yet.
pub open spec fn fresh_stats(name: Seq<char>) -> StatsView {
    StatsView {
        name,
        invocation_count: 0,
        success_count: 0,
        error_count: 0,
        total_duration_ms: 0,
        min_duration_ms: u64::MAX,
        max_duration_ms: 0,
        durations: Seq::empty(),
    }
}

/// The statistics after one more call of the given latency and outcome.
pub open spec fn recorded(s: StatsView, duration_ms: u64, success: bool) -> StatsView {
    StatsView {
        name: s.name,
        invocation_count: (s.invocation_count + 1) as u64,
        success_count: if success { (s.success_count + 1) as u64 } else { s.success_count },
        error_count: if success { s.error_count } else { (s.error_count + 1) as u64 },
        total_duration_ms: (s.total_duration_ms + duration_ms) as u64,
        min_duration_ms: if duration_ms < s.min_duration_ms { duration_ms } else { s.min_duration_ms },
        max_duration_ms: if duration_ms > s.max_duration_ms { duration_ms } else { s.max_duration_ms },
        durations: window_push(s.durations, duration_ms),
    }
}

/// Whether one more call can be counted without overflowing a counter.
pub open spec fn can_record(s: StatsView, duration_ms: u64) -> bool {
    &&& s.invocation_count < u64::MAX
    &&& s.success_count < u64::MAX
    &&& s.error_count < u64::MAX
    &&& s.total_duration_ms + duration_ms <= u64::MAX
}

impl ToolStats {
    /// Statistics of a tool that has not been called yet.
    pub fn new(name: &str) -> (r: Self)
        ensures
            r@ == fresh_stats(name@),
    {
        ToolStats {
            name: String::from_str(name),
            invocation_count: 0,
            success_count: 0,
            error_count: 0,
            total_duration_ms: 0,
            min_duration_ms: u64::MAX,
            max_duration_ms: 0,
            durations: Vec::new(),
        }
    }

    /// Counts one call of the given latency and outcome.
    pub fn record(&mut self, duration_ms: u64, success: bool)
        requires
            can_record(old(self)@, duration_ms),
        ensures
            final(self)@ == recorded(old(self)@, duration_ms, success),
    {
        self.invocation_count = self.invocation_count + 1;
        self.total_duration_ms = self.total_duration_ms + duration_ms;
        if duration_ms < self.min_duration_ms {
            self.min_duration_ms = duration_ms;
        }
        if duration_ms > self.max_duration_ms {
            self.max_duration_ms = duration_ms;
        }
        if success {
            self.success_count = self.success_count + 1;
        } else {
            self.error_count = self.error_count + 1;
        }
        self.durations.push(duration_ms);
        if self.durations.len() > MAX_SAMPLES {
            self.durations.remove(0);
        }
        proof {
            assert(self.durations@ =~= window_push(old(self).durations@, duration_ms));
        }
    }

    /// Median latency of the recent samples.
    pub fn p50(&self) -> (r: u64)
        ensures
            r == percentile_of(self.durations@, 50),
    {
        percentile(self.durations.as_slice(), 50)
    }

    /// 95th-percentile latency of the recent samples.
    pub fn p95(&self) -> (r: u64)
        ensures
            r == percentile_of(self.durations@, 95),
    {
        percentile(self.durations.as_slice(), 95)
    }

    /// 99th-percentile latency of the recent samples.
    pub fn p99(&self) -> (r: u64)
        ensures
            r == percentile_of(self.durations@, 99),
    {
        percentile(self.durations.as_slice(), 99)
    }

    /// A copy of the statistics.
    pub fn duplicate(&self) -> (r: Self)
        ensures
            r@ == self@,
    {
        let d = self.durations.clone();
        proof {
            assert(d@ =~= self.durations@);
        }
        ToolStats {
            name: self.name.clone(),
            invocation_count: self.invocation_count,
            success_count: self.success_count,
            error_count: self.error_count,
            total_duration_ms: self.total_duration_ms,
            min_duration_ms: self.min_duration_ms,
            max_duration_ms: self.max_duration_ms,
            durations: d,
        }
    }
}

/// Gateway-wide counters.
#[derive(Clone, Copy)]
pub struct GlobalCounters {
    pub total_requests: u64,
    pub total_tool_calls: u64,
    pub total_errors: u64,
    pub total_tokens_saved: u64,
    pub total_routing_queries: u64,
    pub started_at_epoch: u64,
}

/// The model of an event's extra figures.
pub enum DetailsView {
    ToolsList { total_tools: usize, visible_tools: usize },
    Routing { query: Seq<char>, total_tools: usize, selected_tools: usize },
    ServerDisconnect { tools_removed: usize },
    ServerReconnect { tools_restored: usize },
}

impl View for EventDetails {
    type V = DetailsView;

    open spec fn view(&self) -> DetailsView {
        match self {
            EventDetails::ToolsList { total_tools, visible_tools } => DetailsView::ToolsList {
                total_tools: *total_tools,
                visible_tools: *visible_tools,
            },
            EventDetails::Routing { query, total_tools, selected_tools } => DetailsView::Routing {
                query: query@,
                total_tools: *total_tools,
                selected_tools: *selected_tools,
            },
            EventDetails::ServerDisconnect { tools_removed } => DetailsView::ServerDisconnect {
                tools_removed: *tools_removed,
            },
            EventDetails::ServerReconnect { tools_restored } => DetailsView::ServerReconnect {
                tools_restored: *tools_restored,
            },
        }
    }
}

/// The model of a recorded event.
pub struct EventView {
    pub timestamp: Seq<char>,
    pub event_type: Seq<char>,
    pub tool_name: Option<Seq<char>>,
    pub server_name: Option<Seq<char>>,
    pub duration_ms: Option<u64>,
    pub success: Option<bool>,
    pub tokens_saved: Option<usize>,
    pub details: Option<DetailsView>,
}

/// The characters of an optional string.
pub open spec fn text_of(o: Option<String>) -> Option<Seq<char>> {
    match o {
        Some(s) => Some(s@),
        None => None,
    }
}

impl View for MetricEvent {
    type V = EventView;

    open spec fn view(&self) -> EventView {
        EventView {
            timestamp: self.timestamp@,
            event_type: self.event_type@,
            tool_name: text_of(self.tool_name),
            server_name: text_of(self.server_name),
            duration_ms: self.duration_ms,
            success: self.success,
            tokens_saved: self.tokens_saved,
            details: match self.details {
                Some(d) => Some(d@),
                None => None,
            },
        }
    }
}

/// Tokens saved by showing `shown` of `total` tools.
pub open spec fn tokens_saved_for(total: usize, shown: usize) -> int {
    (total - shown) * TOKENS_PER_TOOL
}

/// The record that an event leaves in the feed, stamped with `ts`.
pub open spec fn entry_for(e: EventType, ts: Seq<char>) -> EventView {
    match e {
        EventType::Request { method, duration_ms, success } => EventView {
            timestamp: ts,
            event_type: "request"@,
            tool_name: Some(method@),
            server_name: None,
            duration_ms: Some(duration_ms),
            success: Some(success),
            tokens_saved: None,
            details: None,
        },
        EventType::ToolCall { tool_name, server_name, duration_ms, success } => EventView {
            timestamp: ts,
            event_type: "tool_call"@,
            tool_name: Some(tool_name@),
            server_name: Some(server_name@),
            duration_ms: Some(duration_ms),
            success: Some(success),
            tokens_saved: None,
            details: None,
        },
        EventType::ToolsList { total, visible } => EventView {
            timestamp: ts,
            event_type: "tools_list"@,
            tool_name: None,
            server_name: None,
            duration_ms: None,
            success: None,
            tokens_saved: Some(tokens_saved_for(total, visible) as usize),
            details: Some(DetailsView::ToolsList { total_tools: total, visible_tools: visible }),
        },
        EventType::Routing { query, total_tools, selected_tools } => EventView {
            timestamp: ts,
            event_type: "routing"@,
            tool_name: None,
            server_name: None,
            duration_ms: None,
            success: None,
            tokens_saved: Some(tokens_saved_for(total_tools, selected_tools) as usize),
            details: Some(
                DetailsView::Routing { query: query@, total_tools, selected_tools },
            ),
        },
        EventType::ServerDisconnect { server_name, tools_removed } => EventView {
            timestamp: ts,
            event_type: "server_disconnect"@,
            tool_name: None,
            server_name: Some(server_name@),
            duration_ms: None,
            success: Some(false),
            tokens_saved: None,
            details: Some(DetailsView::ServerDisconnect { tools_removed }),
        },
        EventType::ServerReconnect { server_name, tools_restored } => EventView {
            timestamp: ts,
            event_type: "server_reconnect"@,
            tool_name: None,
            server_name: Some(server_name@),
            duration_ms: None,
            success: Some(true),
            tokens_saved: None,
            details: Some(DetailsView::ServerReconnect { tools_restored }),
        },
    }
}

/// One more than `n` when `flag` holds.
pub open spec fn bump(n: u64, flag: bool) -> u64 {
    if flag { (n + 1) as u64 } else { n }
}

/// The counters after an event.
pub open spec fn counted(c: GlobalCounters, e: EventType) -> GlobalCounters {
    match e {
        EventType::Request { success, .. } => GlobalCounters {
            total_requests: (c.total_requests + 1) as u64,
            total_errors: bump(c.total_errors, !success),
            ..c
        },
        EventType::ToolCall { success, .. } => GlobalCounters {
            total_tool_calls: (c.total_tool_calls + 1) as u64,
            total_errors: bump(c.total_errors, !success),
            ..c
        },
        EventType::ToolsList { total, visible } => GlobalCounters {
            total_tokens_saved: (c.total_tokens_saved + tokens_saved_for(total, visible)) as u64,
            ..c
        },
        EventType::Routing { total_tools, selected_tools, .. } => GlobalCounters {
            total_routing_queries: (c.total_routing_queries + 1) as u64,
            total_tokens_saved: (c.total_tokens_saved + tokens_saved_for(total_tools, selected_tools)) as u64,
            ..c
        },
        EventType::ServerDisconnect { .. } => GlobalCounters {
            total_errors: (c.total_errors + 1) as u64,
            ..c
        },
        EventType::ServerReconnect { .. } => c,
    }
}

/// Whether an event can be counted: the tool counts shrink, and no counter
/// or product overflows.
pub open spec fn can_count(c: GlobalCounters, e: EventType) -> bool {
    match e {
        EventType::Request { .. } => c.total_requests < u64::MAX && c.total_errors < u64::MAX,
        EventType::ToolCall { .. } => c.total_tool_calls < u64::MAX && c.total_errors < u64::MAX,
        EventType::ToolsList { total, visible } => {
            &&& visible <= total
            &&& tokens_saved_for(total, visible) <= usize::MAX
            &&& c.total_tokens_saved + tokens_saved_for(total, visible) <= u64::MAX
        },
        EventType::Routing { total_tools, selected_tools, .. } => {
            &&& selected_tools <= total_tools
            &&& tokens_saved_for(total_tools, selected_tools) <= usize::MAX
            &&& c.total_tokens_saved + tokens_saved_for(total_tools, selected_tools) <= u64::MAX
            &&& c.total_routing_queries < u64::MAX
        },
        EventType::ServerDisconnect { .. } => c.total_errors < u64::MAX,
        EventType::ServerReconnect { .. } => true,
    }
}

/// Index of the statistics kept for the named tool.
pub open spec fn stats_pos(stats: Seq<StatsView>, name: Seq<char>) -> Option<int> {
    if exists|i: int| 0 <= i < stats.len() && stats[i].name == name {
        Some(choose|i: int| 0 <= i < stats.len() && stats[i].name == name)
    } else {
        None
    }
}

/// The statistics the named tool has before its next call.
pub open spec fn stats_before(stats: Seq<StatsView>, name: Seq<char>) -> StatsView {
    match stats_pos(stats, name) {
        Some(i) => stats[i],
        None => fresh_stats(name),
    }
}

/// The per-tool statistics after an event: a tool call is counted for its
/// tool, whose entry is made on its first call; nothing else changes them.
pub open spec fn stats_after(stats: Seq<StatsView>, e: EventType) -> Seq<StatsView> {
    match e {
        EventType::ToolCall { tool_name, duration_ms, success, .. } => {
            let s = recorded(stats_before(stats, tool_name@), duration_ms, success);
            match stats_pos(stats, tool_name@) {
                Some(i) => stats.update(i, s),
                None => stats.push(s),
            }
        },
        _ => stats,
    }
}

/// Whether the event's tool statistics can take it without overflow.
pub open spec fn can_track(stats: Seq<StatsView>, e: EventType) -> bool {
    match e {
        EventType::ToolCall { tool_name, duration_ms, .. } => can_record(
            stats_before(stats, tool_name@),
            duration_ms,
        ),
        _ => true,
    }
}

/// The feed after a new entry: appended, the oldest dropped when full.
pub open spec fn feed_push(feed: Seq<EventView>, entry: EventView, capacity: nat) -> Seq<EventView> {
    if feed.len() >= capacity {
        feed.drop_first().push(entry)
    } else {
        feed.push(entry)
    }
}

/// The models of a sequence of statistics.
pub open spec fn stats_models(v: Seq<ToolStats>) -> Seq<StatsView> {
    v.map_values(|s: ToolStats| s@)
}

/// The models of a sequence of events.
pub open spec fn event_models(v: Seq<MetricEvent>) -> Seq<EventView> {
    v.map_values(|e: MetricEvent| e@)
}

/// No two entries of the statistics are for the same tool.
pub open spec fn names_unique(stats: Seq<StatsView>) -> bool {
    forall|i: int, j: int|
        0 <= i < stats.len() && 0 <= j < stats.len() && i != j ==> #[trigger] stats[i].name
            != #[trigger] stats[j].name
}

/// The gateway's metrics: counters, per-tool statistics and recent events.
pub struct MetricsCollector {
    events: Vec<MetricEvent>,
    tool_stats: Vec<ToolStats>,
    counters: GlobalCounters,
    max_events: usize,
}

impl MetricsCollector {
    /// The recent events, oldest first.
    pub closed spec fn events_view(&self) -> Seq<EventView> {
        event_models(self.events@)
    }

    /// The per-tool statistics, in order of each tool's first call.
    pub closed spec fn stats_view(&self) -> Seq<StatsView> {
        stats_models(self.tool_stats@)
    }

    /// The gateway-wide counters.
    pub closed spec fn counters_view(&self) -> GlobalCounters {
        self.counters
    }

    /// How many events the feed keeps.
    pub closed spec fn capacity(&self) -> nat {
        self.max_events as nat
    }

    /// The collector's invariant.
    pub open spec fn wf(&self) -> bool {
        &&& self.capacity() > 0
        &&& self.events_view().len() <= self.capacity()
        &&& names_unique(self.stats_view())
    }

    /// Whether counting the event keeps every counter within its integer
    /// type (and a listing shows no more tools than it was given): the
    /// condition under which `record_event` may be called.
    pub fn can_record_event(&self, event: &EventType) -> (r: bool)
        requires
            self.wf(),
        ensures
            r == (can_count(self.counters_view(), *event) && can_track(self.stats_view(), *event)),
    {
        let c = &self.counters;
        match event {
            EventType::Request { .. } => c.total_requests < u64::MAX && c.total_errors < u64::MAX,
            EventType::ToolCall { tool_name, duration_ms, .. } => {
                if !(c.total_tool_calls < u64::MAX && c.total_errors < u64::MAX) {
                    return false;
                }
                let (inv, ok, err, total) = match self.find_stats(tool_name) {
                    Some(i) => {
                        let s = &self.tool_stats[i];
                        (s.invocation_count, s.success_count, s.error_count, s.total_duration_ms)
                    },
                    None => (0u64, 0u64, 0u64, 0u64),
                };
                inv < u64::MAX && ok < u64::MAX && err < u64::MAX && (total as u128) + (*duration_ms as u128)
                    <= u64::MAX as u128
            },
            EventType::ToolsList { total, visible } => {
                *visible <= *total && Self::saving_fits(c.total_tokens_saved, *total - *visible)
            },
            EventType::Routing { total_tools, selected_tools, .. } => {
                *selected_tools <= *total_tools && Self::saving_fits(
                    c.total_tokens_saved,
                    *total_tools - *selected_tools,
                ) && c.total_routing_queries < u64::MAX
            },
            EventType::ServerDisconnect { .. } => c.total_errors < u64::MAX,
            EventType::ServerReconnect { .. } => true,
        }
    }

    /// Whether the tokens saved by hiding `hidden` tools fit in a `usize`
    /// and, added to `saved_so_far`, in a `u64`.
    fn saving_fits(saved_so_far: u64, hidden: usize) -> (r: bool)
        ensures
            r == (hidden * TOKENS_PER_TOOL <= usize::MAX && saved_so_far + hidden * TOKENS_PER_TOOL
                <= u64::MAX),
    {
        let t: u128 = (hidden as u128) * (TOKENS_PER_TOOL as u128);
        t <= usize::MAX as u128 && (saved_so_far as u128) + t <= u64::MAX as u128
    }

    /// Index of the statistics kept for the named tool, if any.
    fn find_stats(&self, name: &String) -> (r: Option<usize>)
        requires
            self.wf(),
        ensures
            r matches Some(i) ==> stats_pos(self.stats_view(), name@) == Some(i as int) && i
                < self.tool_stats.len(),
            r is None ==> stats_pos(self.stats_view(), name@) is None,
    {
        let ghost sv = self.stats_view();
        let mut i: usize = 0;
        while i < self.tool_stats.len()
            invariant
                i <= self.tool_stats.len(),
                sv == self.stats_view(),
                sv.len() == self.tool_stats.len(),
                names_unique(sv),
                forall|j: int| 0 <= j < i ==> sv[j].name != name@,
            decreases self.tool_stats.len() - i,
        {
            if self.tool_stats[i].name == *name {
                proof {
                    assert(sv[i as int].name == name@);
                    assert(exists|j: int| 0 <= j < sv.len() && sv[j].name == name@);
                    let k = stats_pos(sv, name@)->0;
                    if k != i {
                        assert(sv[k].name != sv[i as int].name);
                    }
                }
                return Some(i);
            }
            i = i + 1;
        }
        None
    }

    /// Counts a tool call in its tool's statistics.
    fn track_call(&mut self, tool_name: &String, duration_ms: u64, success: bool)
        requires
            old(self).wf(),
            can_record(stats_before(old(self).stats_view(), tool_name@), duration_ms),
        ensures
            final(self).wf(),
            final(self).events_view() == old(self).events_view(),
            final(self).counters_view() == old(self).counters_view(),
            final(self).capacity() == old(self).capacity(),
            final(self).stats_view() == ({
                let s = recorded(stats_before(old(self).stats_view(), tool_name@), duration_ms, success);
                match stats_pos(old(self).stats_view(), tool_name@) {
                    Some(i) => old(self).stats_view().update(i, s),
                    None => old(self).stats_view().push(s),
                }
            }),
    {
        let ghost sv = self.stats_view();
        match self.find_stats(tool_name) {
            Some(i) => {
                self.tool_stats[i].record(duration_ms, success);
                proof {
                    assert(self.stats_view() =~= sv.update(
                        i as int,
                        recorded(sv[i as int], duration_ms, success),
                    ));
                    assert forall|a: int, b: int|
                        0 <= a < self.stats_view().len() && 0 <= b < self.stats_view().len() && a
                            != b implies #[trigger] self.stats_view()[a].name
                        != #[trigger] self.stats_view()[b].name by {
                        assert(sv[a].name != sv[b].name);
                    }
                }
            },
            None => {
                let mut st = ToolStats::new(tool_name.as_str());
                st.record(duration_ms, success);
                self.tool_stats.push(st);
                proof {
                    let s = recorded(fresh_stats(tool_name@), duration_ms, success);
                    assert(self.stats_view() =~= sv.push(s));
                    assert forall|a: int, b: int|
                        0 <= a < self.stats_view().len() && 0 <= b < self.stats_view().len() && a
                            != b implies #[trigger] self.stats_view()[a].name
                        != #[trigger] self.stats_view()[b].name by {
                        if a < sv.len() && b < sv.len() {
                            assert(sv[a].name != sv[b].name);
                        } else if a < sv.len() {
                            assert(sv[a].name != tool_name@);
                        } else {
                            assert(sv[b].name != tool_name@);
                        }
                    }
                }
            },
        }
    }

    /// Appends an entry to the feed, dropping the oldest when it is full.
    fn push_entry(&mut self, entry: MetricEvent)
        requires
            old(self).wf(),
        ensures
            final(self).wf(),
            final(self).events_view() == feed_push(
                old(self).events_view(),
                entry@,
                old(self).capacity(),
            ),
            final(self).stats_view() == old(self).stats_view(),
            final(self).counters_view() == old(self).counters_view(),
            final(self).capacity() == old(self).capacity(),
    {
        let ghost ev = self.events_view();
        if self.events.len() >= self.max_events {
            self.events.remove(0);
            proof {
                assert(self.events_view() =~= ev.drop_first());
            }
        }
        let ghost before = self.events_view();
        self.events.push(entry);
        proof {
            assert(self.events_view() =~= before.push(entry@));
        }
    }

    /// A collector with no events and no statistics, whose uptime counts
    /// from now.
    pub fn new() -> (r: Self)
        ensures
            r.wf(),
            r.events_view().len() == 0,
            r.stats_view().len() == 0,
            r.capacity() == MAX_EVENTS,
            r.counters_view().total_requests == 0,
            r.counters_view().total_tool_calls == 0,
            r.counters_view().total_errors == 0,
            r.counters_view().total_tokens_saved == 0,
            r.counters_view().total_routing_queries == 0,
    {
        let epoch = unix_now_secs();
        let r = MetricsCollector {
            events: Vec::new(),
            tool_stats: Vec::new(),
            counters: GlobalCounters {
                total_requests: 0,
                total_tool_calls: 0,
                total_errors: 0,
                total_tokens_saved: 0,
                total_routing_queries: 0,
                started_at_epoch: epoch,
            },
            max_events: MAX_EVENTS,
        };
        proof {
            assert(r.events_view() =~= Seq::<EventView>::empty());
            assert(r.stats_view() =~= Seq::<StatsView>::empty());
        }
        r
    }

    /// Records an event stamped with the given time: updates the counters,
    /// the called tool's statistics, and the feed of recent events.
    pub fn record_event_at(&mut self, event: EventType, timestamp: String)
        requires
            old(self).wf(),
            can_count(old(self).counters_view(), event),
            can_track(old(self).stats_view(), event),
        ensures
            final(self).wf(),
            final(self).counters_view() == counted(old(self).counters_view(), event),
            final(self).stats_view() == stats_after(old(self).stats_view(), event),
            final(self).events_view() == feed_push(
                old(self).events_view(),
                entry_for(event, timestamp@),
                old(self).capacity(),
            ),
            final(self).capacity() == old(self).capacity(),
    {
        let ghost e = event;
        let entry = match event {
            EventType::Request { method, duration_ms, success } => {
                self.counters.total_requests = self.counters.total_requests + 1;
                if !success {
                    self.counters.total_errors = self.counters.total_errors + 1;
                }
                MetricEvent {
                    timestamp,
                    event_type: String::from_str("request"),
                    tool_name: Some(method),
                    server_name: None,
                    duration_ms: Some(duration_ms),
                    success: Some(success),
                    tokens_saved: None,
                    details: None,
                }
            },
            EventType::ToolCall { tool_name, server_name, duration_ms, success } => {
                self.counters.total_tool_calls = self.counters.total_tool_calls + 1;
                if !success {
                    self.counters.total_errors = self.counters.total_errors + 1;
                }
                self.track_call(&tool_name, duration_ms, success);
                MetricEvent {
                    timestamp,
                    event_type: String::from_str("tool_call"),
                    tool_name: Some(tool_name),
                    server_name: Some(server_name),
                    duration_ms: Some(duration_ms),
                    success: Some(success),
                    tokens_saved: None,
                    details: None,
                }
            },
            EventType::ToolsList { total, visible } => {
                let tokens_saved = (total - visible) * TOKENS_PER_TOOL;
                self.counters.total_tokens_saved = self.counters.total_tokens_saved
                    + tokens_saved as u64;
                MetricEvent {
                    timestamp,
                    event_type: String::from_str("tools_list"),
                    tool_name: None,
                    server_name: None,
                    duration_ms: None,
                    success: None,
                    tokens_saved: Some(tokens_saved),
                    details: Some(EventDetails::ToolsList { total_tools: total, visible_tools: visible }),
                }
            },
            EventType::Routing { query, total_tools, selected_tools } => {
                let tokens_saved = (total_tools - selected_tools) * TOKENS_PER_TOOL;
                self.counters.total_routing_queries = self.counters.total_routing_queries + 1;
                self.counters.total_tokens_saved = self.counters.total_tokens_saved
                    + tokens_saved as u64;
                MetricEvent {
                    timestamp,
                    event_type: String::from_str("routing"),
                    tool_name: None,
                    server_name: None,
                    duration_ms: None,
                    success: None,
                    tokens_saved: Some(tokens_saved),
                    details: Some(EventDetails::Routing { query, total_tools, selected_tools }),
                }
            },
            EventType::ServerDisconnect { server_name, tools_removed } => {
                self.counters.total_errors = self.counters.total_errors + 1;
                MetricEvent {
                    timestamp,
                    event_type: String::from_str("server_disconnect"),
                    tool_name: None,
                    server_name: Some(server_name),
                    duration_ms: None,
                    success: Some(false),
                    tokens_saved: None,
                    details: Some(EventDetails::ServerDisconnect { tools_removed }),
                }
            },
            EventType::ServerReconnect { server_name, tools_restored } => MetricEvent {
                timestamp,
                event_type: String::from_str("server_reconnect"),
                tool_name: None,
                server_name: Some(server_name),
                duration_ms: None,
                success: Some(true),
                tokens_saved: None,
                details: Some(EventDetails::ServerReconnect { tools_restored }),
            },
        };
        proof {
            assert(entry@ == entry_for(e, timestamp@));
        }
        self.push_entry(entry);
    }

    /// Records an event stamped with the current time.
    pub fn record_event(&mut self, event: EventType)
        requires
            old(self).wf(),
            can_count(old(self).counters_view(), event),
            can_track(old(self).stats_view(), event),
        ensures
            final(self).wf(),
            final(self).counters_view() == counted(old(self).counters_view(), event),
            final(self).stats_view() == stats_after(old(self).stats_view(), event),
            final(self).events_view() == feed_push(
                old(self).events_view(),
                entry_for(event, final(self).events_view().last().timestamp),
                old(self).capacity(),
            ),
            exists|secs: nat| #[trigger]
                is_timestamp_of(final(self).events_view().last().timestamp, secs),
            final(self).capacity() == old(self).capacity(),
    {
        let now = now_iso8601();
        self.record_event_at(event, now);
    }

    /// The `limit` most recent events, newest first.
    pub fn get_recent_events(&self, limit: usize) -> (r: Vec<MetricEvent>)
        requires
            self.wf(),
        ensures
            r.len() == if limit < self.events_view().len() { limit as int } else {
                self.events_view().len() as int
            },
            forall|i: int|
                0 <= i < r.len() ==> #[trigger] r@[i]@ == self.events_view()[self.events_view().len()
                    - 1 - i],
    {
        let n = self.events.len();
        let mut r: Vec<MetricEvent> = Vec::new();
        while r.len() < limit && r.len() < n
            invariant
                n == self.events.len(),
                r.len() <= n,
                r.len() <= limit,
                forall|i: int|
                    0 <= i < r.len() ==> #[trigger] r@[i]@ == self.events_view()[n - 1 - i],
            decreases n - r.len(),
        {
            let k = r.len();
            let e = self.events[n - 1 - k].clone();
            r.push(e);
        }
        r
    }

    /// A copy of every tool's statistics, in order of each tool's first call.
    pub fn get_tool_stats(&self) -> (r: Vec<ToolStats>)
        ensures
            stats_models(r@) == self.stats_view(),
    {
        let ghost sv = self.stats_view();
        let mut r: Vec<ToolStats> = Vec::new();
        let mut i: usize = 0;
        while i < self.tool_stats.len()
            invariant
                i <= self.tool_stats.len(),
                sv == self.stats_view(),
                sv.len() == self.tool_stats.len(),
                r.len() == i,
                forall|j: int| 0 <= j < i ==> #[trigger] r@[j]@ == sv[j],
            decreases self.tool_stats.len() - i,
        {
            let st = self.tool_stats[i].duplicate();
            r.push(st);
            i = i + 1;
        }
        proof {
            assert(stats_models(r@) =~= sv);
        }
        r
    }

    /// A copy of the gateway-wide counters.
    pub fn get_counters(&self) -> (r: GlobalCounters)
        ensures
            r == self.counters_view(),
    {
        self.counters
    }
}

} // verus!

verus! {

/// Every recorded call is counted once, as a success or as an error; the
/// fastest recorded latency is never above the slowest; at most
/// `MAX_SAMPLES` samples are kept, the newest last.
pub proof fn law_record_keeps_tallies(s: StatsView, duration_ms: u64, success: bool)
    requires
        s.success_count + s.error_count == s.invocation_count,
        s.durations.len() <= MAX_SAMPLES,
        can_record(s, duration_ms),
    ensures
        ({
            let r = recorded(s, duration_ms, success);
            &&& r.success_count + r.error_count == r.invocation_count
            &&& r.invocation_count == s.invocation_count + 1
            &&& r.min_duration_ms <= duration_ms <= r.max_duration_ms
            &&& r.durations.len() <= MAX_SAMPLES
            &&& r.durations.last() == duration_ms
        }),
{
}

/// The latencies of a history of calls, in order.
pub open spec fn history_durations(h: Seq<(u64, bool)>) -> Seq<u64> {
    h.map_values(|c: (u64, bool)| c.0)
}

/// How many calls of a history succeeded.
pub open spec fn history_successes(h: Seq<(u64, bool)>) -> nat
    decreases h.len(),
{
    if h.len() == 0 {
        0
    } else {
        history_successes(h.drop_last()) + if h.last().1 { 1nat } else { 0nat }
    }
}

/// The latencies of a history added up.
pub open spec fn history_total(h: Seq<(u64, bool)>) -> nat
    decreases h.len(),
{
    if h.len() == 0 {
        0
    } else {
        history_total(h.drop_last()) + h.last().0 as nat
    }
}

/// The lowest latency of a history, `u64::MAX` for none.
pub open spec fn history_min(h: Seq<(u64, bool)>) -> u64
    decreases h.len(),
{
    if h.len() == 0 {
        u64::MAX
    } else if h.last().0 < history_min(h.drop_last()) {
        h.last().0
    } else {
        history_min(h.drop_last())
    }
}

/// The highest latency of a history, 0 for none.
pub open spec fn history_max(h: Seq<(u64, bool)>) -> u64
    decreases h.len(),
{
    if h.len() == 0 {
        0
    } else if h.last().0 > history_max(h.drop_last()) {
        h.last().0
    } else {
        history_max(h.drop_last())
    }
}

/// The newest `MAX_SAMPLES` of some latencies, oldest first.
pub open spec fn recent_window(d: Seq<u64>) -> Seq<u64> {
    if d.len() > MAX_SAMPLES {
        d.subrange(d.len() - MAX_SAMPLES, d.len() as int)
    } else {
        d
    }
}

/// The statistics after a history of calls, counted one after another.
pub open spec fn replayed(s: StatsView, h: Seq<(u64, bool)>) -> StatsView
    decreases h.len(),
{
    if h.len() == 0 {
        s
    } else {
        recorded(replayed(s, h.drop_last()), h.last().0, h.last().1)
    }
}

proof fn lemma_successes_bounded(h: Seq<(u64, bool)>)
    ensures
        history_successes(h) <= h.len(),
    decreases h.len(),
{
    if h.len() > 0 {
        lemma_successes_bounded(h.drop_last());
    }
}

proof fn lemma_window_push(d: Seq<u64>, x: u64)
    ensures
        window_push(recent_window(d), x) == recent_window(d.push(x)),
{
    let w = recent_window(d);
    let e = d.push(x);
    if d.len() > MAX_SAMPLES {
        assert(w.push(x).drop_first() =~= e.subrange(e.len() - MAX_SAMPLES, e.len() as int));
    } else if d.len() == MAX_SAMPLES {
        assert(w.push(x).drop_first() =~= e.subrange(e.len() - MAX_SAMPLES, e.len() as int));
    } else {
        assert(w.push(x) =~= e);
    }
}

/// After a history of calls on a fresh tool, the statistics count every
/// call once, as a success or an error, add up and bound its latencies,
/// and keep its newest `MAX_SAMPLES` latencies in order; this holds while
/// the latencies together fit in a `u64`.
pub proof fn law_history_of_records(name: Seq<char>, h: Seq<(u64, bool)>)
    requires
        history_total(h) <= u64::MAX,
        h.len() <= u64::MAX,
    ensures
        ({
            let r = replayed(fresh_stats(name), h);
            &&& r.name == name
            &&& r.invocation_count == h.len()
            &&& r.success_count == history_successes(h)
            &&& r.error_count == h.len() - history_successes(h)
            &&& r.total_duration_ms == history_total(h)
            &&& r.min_duration_ms == history_min(h)
            &&& r.max_duration_ms == history_max(h)
            &&& r.durations == recent_window(history_durations(h))
        }),
    decreases h.len(),
{
    if h.len() == 0 {
        assert(history_durations(h) =~= Seq::<u64>::empty());
    } else {
        let hp = h.drop_last();
        law_history_of_records(name, hp);
        lemma_successes_bounded(hp);
        lemma_window_push(history_durations(hp), h.last().0);
        assert(history_durations(h) =~= history_durations(hp).push(h.last().0));
    }
}

/// The feed after a series of entries, each pushed in turn.
pub open spec fn fed(feed: Seq<EventView>, entries: Seq<EventView>, capacity: nat) -> Seq<EventView>
    decreases entries.len(),
{
    if entries.len() == 0 {
        feed
    } else {
        feed_push(fed(feed, entries.drop_last(), capacity), entries.last(), capacity)
    }
}

/// The newest `n` of some entries, oldest first (all of them if fewer).
pub open spec fn newest(s: Seq<EventView>, n: nat) -> Seq<EventView> {
    if s.len() > n {
        s.subrange(s.len() - n, s.len() as int)
    } else {
        s
    }
}

proof fn lemma_feed_push_newest(s: Seq<EventView>, e: EventView, capacity: nat)
    requires
        capacity > 0,
    ensures
        feed_push(newest(s, capacity), e, capacity) == newest(s.push(e), capacity),
{
    let w = newest(s, capacity);
    let t = s.push(e);
    if s.len() >= capacity {
        assert(w.drop_first().push(e) =~= t.subrange(t.len() - capacity, t.len() as int));
    } else {
        assert(w.push(e) =~= t);
    }
}

/// Over any series of events, the feed holds the newest `capacity` of all
/// entries so far, oldest first: each new one goes last, and the oldest
/// leaves once the feed is full.
pub proof fn law_feed_keeps_newest(feed: Seq<EventView>, entries: Seq<EventView>, capacity: nat)
    requires
        capacity > 0,
        feed.len() <= capacity,
    ensures
        fed(feed, entries, capacity) == newest(feed + entries, capacity),
    decreases entries.len(),
{
    if entries.len() == 0 {
        assert(feed + entries =~= feed);
    } else {
        let prev = entries.drop_last();
        law_feed_keeps_newest(feed, prev, capacity);
        lemma_feed_push_newest(feed + prev, entries.last(), capacity);
        assert((feed + prev).push(entries.last()) =~= feed + entries);
    }
}

/// The newest entry of the feed after an event is that event, with its own
/// figures: a request or a tool call with its name, latency and outcome, a
/// listing or routing with the tokens it saved, a server event with its
/// server; the feed never drops the newest entry.
pub proof fn law_feed_shows_the_event(feed: Seq<EventView>, e: EventType, ts: Seq<char>, capacity: nat)
    requires
        capacity > 0,
    ensures
        ({
            let f = feed_push(feed, entry_for(e, ts), capacity);
            let last = f.last();
            &&& f.len() > 0
            &&& f.len() <= if feed.len() < capacity { feed.len() + 1 } else { feed.len() }
            &&& last.timestamp == ts
            &&& match e {
                EventType::Request { method, duration_ms, success } => {
                    &&& last.event_type == "request"@
                    &&& last.tool_name == Some(method@)
                    &&& last.duration_ms == Some(duration_ms)
                    &&& last.success == Some(success)
                },
                EventType::ToolCall { tool_name, server_name, duration_ms, success } => {
                    &&& last.event_type == "tool_call"@
                    &&& last.tool_name == Some(tool_name@)
                    &&& last.server_name == Some(server_name@)
                    &&& last.duration_ms == Some(duration_ms)
                    &&& last.success == Some(success)
                },
                EventType::ToolsList { total, visible } => {
                    &&& last.event_type == "tools_list"@
                    &&& last.tokens_saved == Some(((total - visible) * 200) as usize)
                },
                EventType::Routing { total_tools, selected_tools, .. } => {
                    &&& last.event_type == "routing"@
                    &&& last.tokens_saved == Some(((total_tools - selected_tools) * 200) as usize)
                },
                EventType::ServerDisconnect { server_name, .. } => {
                    &&& last.event_type == "server_disconnect"@
                    &&& last.server_name == Some(server_name@)
                    &&& last.success == Some(false)
                },
                EventType::ServerReconnect { server_name, .. } => {
                    &&& last.event_type == "server_reconnect"@
                    &&& last.server_name == Some(server_name@)
                    &&& last.success == Some(true)
                },
            }
        }),
{
}

/// How each event moves the gateway counters, written out: a request or a
/// tool call counts once, and once more as an error when it failed; a
/// listing or routing adds 200 tokens for each tool it hid, and a routing
/// counts one query; a disconnect is an error; a reconnect changes nothing.
/// Every counter the event does not concern stays as it was.
pub proof fn law_counters_follow_events(c: GlobalCounters, e: EventType)
    requires
        can_count(c, e),
    ensures
        ({
            let n = counted(c, e);
            let err: int = match e {
                EventType::Request { success, .. } => if success { 0 } else { 1 },
                EventType::ToolCall { success, .. } => if success { 0 } else { 1 },
                EventType::ServerDisconnect { .. } => 1,
                _ => 0,
            };
            let saved: int = match e {
                EventType::ToolsList { total, visible } => (total - visible) * 200,
                EventType::Routing { total_tools, selected_tools, .. } => (total_tools - selected_tools) * 200,
                _ => 0,
            };
            &&& n.total_requests == c.total_requests + if e is Request { 1int } else { 0int }
            &&& n.total_tool_calls == c.total_tool_calls + if e is ToolCall { 1int } else { 0int }
            &&& n.total_routing_queries == c.total_routing_queries + if e is Routing { 1int } else { 0int }
            &&& n.total_errors == c.total_errors + err
            &&& n.total_tokens_saved == c.total_tokens_saved + saved
            &&& n.started_at_epoch == c.started_at_epoch
        }),
{
}

/// A tool that has not been called has no calls, successes or errors.
pub proof fn law_fresh_stats_are_empty(name: Seq<char>)
    ensures
        fresh_stats(name).success_count + fresh_stats(name).error_count
            == fresh_stats(name).invocation_count,
        fresh_stats(name).invocation_count == 0,
        fresh_stats(name).durations.len() == 0,
{
}

/// A tool call raises the gateway's call count and its tool's call count by
/// one each, and an error is counted in both places; other events leave the
/// per-tool statistics as they were.
pub proof fn law_tool_call_counted_everywhere(
    c: GlobalCounters,
    stats: Seq<StatsView>,
    e: EventType,
)
    requires
        names_unique(stats),
        can_count(c, e),
        can_track(stats, e),
    ensures
        e is ToolCall ==> ({
            let name = e->tool_name@;
            let after = stats_after(stats, e);
            let st = stats_before(stats, name);
            &&& counted(c, e).total_tool_calls == c.total_tool_calls + 1
            &&& stats_pos(after, name) is Some
            &&& after[stats_pos(after, name)->0].invocation_count == st.invocation_count + 1
            &&& (!e->ToolCall_success ==> counted(c, e).total_errors == c.total_errors + 1
                && after[stats_pos(after, name)->0].error_count == st.error_count + 1)
        }),
        !(e is ToolCall) ==> stats_after(stats, e) == stats,
{
    if e is ToolCall {
        let name = e->tool_name@;
        let after = stats_after(stats, e);
        let k = match stats_pos(stats, name) {
            Some(i) => i,
            None => stats.len() as int,
        };
        assert(0 <= k < after.len() && after[k].name == name);
        let p = stats_pos(after, name)->0;
        assert(0 <= p < after.len() && after[p].name == name);
        if p != k {
            if p < stats.len() && k < stats.len() {
                assert(stats[p].name != stats[k].name);
            } else {
                assert(p < stats.len());
                assert(stats[p].name == name);
            }
        }
    }
}

} // verus!
