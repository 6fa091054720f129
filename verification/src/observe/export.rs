//! Prometheus text exposition of the gateway's metrics.

use vstd::prelude::*;
use crate::observe::metrics::{GlobalCounters, MetricsCollector, StatsView, ToolStats, stats_models};
use crate::observe::percentile::percentile_of;
use crate::text::{decimal, push_decimal, StringExecFns};

verus! {

/// A counter with its help and type lines.
pub open spec fn counter_text(name: Seq<char>, help: Seq<char>, v: u64) -> Seq<char> {
    "# HELP "@ + name + " "@ + help + "\n"@ + "# TYPE "@ + name + " "@ + "counter"@ + "\n"@
        + name + " "@ + decimal(v as nat) + "\n"@
}

/// A sample of a per-tool metric: `metric{tool="name"<labels>} v`.
pub open spec fn tool_sample(metric: Seq<char>, name: Seq<char>, labels: Seq<char>, v: u64) -> Seq<char> {
    metric + "{tool=\""@ + name + "\""@ + labels + "} "@ + decimal(v as nat) + "\n"@
}

/// The invocation-count samples of the tools, in order.
pub open spec fn invocation_samples(stats: Seq<StatsView>) -> Seq<char>
    decreases stats.len(),
{
    if stats.len() == 0 {
        Seq::empty()
    } else {
        let s = stats.last();
        invocation_samples(stats.drop_last()) + tool_sample(
            "mcplex_tool_invocations_total"@,
            s.name,
            Seq::empty(),
            s.invocation_count,
        )
    }
}

/// The error-count samples of the tools, in order.
pub open spec fn error_samples(stats: Seq<StatsView>) -> Seq<char>
    decreases stats.len(),
{
    if stats.len() == 0 {
        Seq::empty()
    } else {
        let s = stats.last();
        error_samples(stats.drop_last()) + tool_sample(
            "mcplex_tool_errors_total"@,
            s.name,
            Seq::empty(),
            s.error_count,
        )
    }
}

/// The latency quantiles of one tool: median, 95th and 99th percentile.
pub open spec fn quantile_samples(s: StatsView) -> Seq<char> {
    tool_sample("mcplex_tool_duration_ms"@, s.name, ",quantile=\"0.5\""@, percentile_of(s.durations, 50))
        + tool_sample("mcplex_tool_duration_ms"@, s.name, ",quantile=\"0.95\""@, percentile_of(s.durations, 95))
        + tool_sample("mcplex_tool_duration_ms"@, s.name, ",quantile=\"0.99\""@, percentile_of(s.durations, 99))
}

/// The latency samples of the tools, in order.
pub open spec fn duration_samples(stats: Seq<StatsView>) -> Seq<char>
    decreases stats.len(),
{
    if stats.len() == 0 {
        Seq::empty()
    } else {
        duration_samples(stats.drop_last()) + quantile_samples(stats.last())
    }
}

/// A section header: a blank line, then help and type lines.
pub open spec fn header_text(name: Seq<char>, help: Seq<char>, kind: Seq<char>) -> Seq<char> {
    "\n"@ + "# HELP "@ + name + " "@ + help + "\n"@ + "# TYPE "@ + name + " "@ + kind + "\n"@
}

/// The gateway-wide counters.
pub open spec fn counters_text(c: GlobalCounters) -> Seq<char> {
    counter_text("mcplex_requests_total"@, "Total number of MCP requests handled"@, c.total_requests)
        + counter_text("mcplex_tool_calls_total"@, "Total number of tool calls executed"@, c.total_tool_calls)
        + counter_text("mcplex_errors_total"@, "Total number of errors"@, c.total_errors)
        + counter_text("mcplex_tokens_saved_total"@, "Total tokens saved via routing"@, c.total_tokens_saved)
        + counter_text("mcplex_routing_queries_total"@, "Total routing queries"@, c.total_routing_queries)
}

/// The whole exposition: the gateway counters, then per-tool invocations,
/// errors and latency quantiles.
pub open spec fn prometheus_text(c: GlobalCounters, stats: Seq<StatsView>) -> Seq<char> {
    counters_text(c)
        + header_text("mcplex_tool_invocations_total"@, "Tool invocations by tool name"@, "counter"@)
        + invocation_samples(stats)
        + header_text("mcplex_tool_errors_total"@, "Tool errors by tool name"@, "counter"@)
        + error_samples(stats)
        + header_text("mcplex_tool_duration_ms"@, "Tool call duration in milliseconds"@, "summary"@)
        + duration_samples(stats)
}

fn push_counter(out: &mut String, name: &str, help: &str, v: u64)
    ensures
        final(out)@ == old(out)@ + counter_text(name@, help@, v),
{
    let ghost start = old(out)@;
    out.append("# HELP ");
    out.append(name);
    out.append(" ");
    out.append(help);
    out.append("\n");
    out.append("# TYPE ");
    out.append(name);
    out.append(" ");
    out.append("counter");
    out.append("\n");
    out.append(name);
    out.append(" ");
    push_decimal(out, v);
    out.append("\n");
    proof {
        assert(out@ =~= start + counter_text(name@, help@, v));
    }
}

fn push_header(out: &mut String, name: &str, help: &str, kind: &str)
    ensures
        final(out)@ == old(out)@ + header_text(name@, help@, kind@),
{
    let ghost start = old(out)@;
    out.append("\n");
    out.append("# HELP ");
    out.append(name);
    out.append(" ");
    out.append(help);
    out.append("\n");
    out.append("# TYPE ");
    out.append(name);
    out.append(" ");
    out.append(kind);
    out.append("\n");
    proof {
        assert(out@ =~= start + header_text(name@, help@, kind@));
    }
}

fn push_sample(out: &mut String, metric: &str, name: &String, labels: &str, v: u64)
    ensures
        final(out)@ == old(out)@ + tool_sample(metric@, name@, labels@, v),
{
    let ghost start = old(out)@;
    out.append(metric);
    out.append("{tool=\"");
    out.append(name.as_str());
    out.append("\"");
    out.append(labels);
    out.append("} ");
    push_decimal(out, v);
    out.append("\n");
    proof {
        assert(out@ =~= start + tool_sample(metric@, name@, labels@, v));
    }
}

fn counters_string(c: &GlobalCounters) -> (r: String)
    ensures
        r@ == counters_text(*c),
{
    let mut out = String::new();
    push_counter(&mut out, "mcplex_requests_total", "Total number of MCP requests handled", c.total_requests);
    proof {
        assert(out@ =~= counter_text("mcplex_requests_total"@, "Total number of MCP requests handled"@, c.total_requests));
    }
    push_counter(&mut out, "mcplex_tool_calls_total", "Total number of tool calls executed", c.total_tool_calls);
    push_counter(&mut out, "mcplex_errors_total", "Total number of errors", c.total_errors);
    push_counter(&mut out, "mcplex_tokens_saved_total", "Total tokens saved via routing", c.total_tokens_saved);
    push_counter(&mut out, "mcplex_routing_queries_total", "Total routing queries", c.total_routing_queries);
    out
}

fn push_invocations(out: &mut String, stats: &Vec<ToolStats>)
    ensures
        final(out)@ == old(out)@ + invocation_samples(stats_models(stats@)),
{
    let ghost sv = stats_models(stats@);
    let ghost head = old(out)@;
    let mut i: usize = 0;
    while i < stats.len()
        invariant
            i <= stats.len(),
            sv == stats_models(stats@),
            out@ == head + invocation_samples(sv.take(i as int)),
        decreases stats.len() - i,
    {
        push_sample(out, "mcplex_tool_invocations_total", &stats[i].name, "", stats[i].invocation_count);
        proof {
            reveal_strlit("");
            assert(sv.take(i + 1).drop_last() =~= sv.take(i as int));
            assert(out@ =~= head + invocation_samples(sv.take(i + 1)));
        }
        i = i + 1;
    }
    proof {
        assert(sv.take(i as int) =~= sv);
    }
}

fn push_errors(out: &mut String, stats: &Vec<ToolStats>)
    ensures
        final(out)@ == old(out)@ + error_samples(stats_models(stats@)),
{
    let ghost sv = stats_models(stats@);
    let ghost head = old(out)@;
    let mut i: usize = 0;
    while i < stats.len()
        invariant
            i <= stats.len(),
            sv == stats_models(stats@),
            out@ == head + error_samples(sv.take(i as int)),
        decreases stats.len() - i,
    {
        push_sample(out, "mcplex_tool_errors_total", &stats[i].name, "", stats[i].error_count);
        proof {
            reveal_strlit("");
            assert(sv.take(i + 1).drop_last() =~= sv.take(i as int));
            assert(out@ =~= head + error_samples(sv.take(i + 1)));
        }
        i = i + 1;
    }
    proof {
        assert(sv.take(i as int) =~= sv);
    }
}

fn push_durations(out: &mut String, stats: &Vec<ToolStats>)
    ensures
        final(out)@ == old(out)@ + duration_samples(stats_models(stats@)),
{
    let ghost sv = stats_models(stats@);
    let ghost head = old(out)@;
    let mut i: usize = 0;
    while i < stats.len()
        invariant
            i <= stats.len(),
            sv == stats_models(stats@),
            out@ == head + duration_samples(sv.take(i as int)),
        decreases stats.len() - i,
    {
        let st = &stats[i];
        let ghost before = out@;
        push_sample(out, "mcplex_tool_duration_ms", &st.name, ",quantile=\"0.5\"", st.p50());
        push_sample(out, "mcplex_tool_duration_ms", &st.name, ",quantile=\"0.95\"", st.p95());
        push_sample(out, "mcplex_tool_duration_ms", &st.name, ",quantile=\"0.99\"", st.p99());
        proof {
            assert(sv[i as int] == st@);
            assert(out@ =~= before + quantile_samples(sv[i as int]));
            assert(sv.take(i + 1).drop_last() =~= sv.take(i as int));
            assert(out@ =~= head + duration_samples(sv.take(i + 1)));
        }
        i = i + 1;
    }
    proof {
        assert(sv.take(i as int) =~= sv);
    }
}

/// Renders counters and per-tool statistics in the Prometheus text format.
pub fn render_prometheus(c: &GlobalCounters, stats: &Vec<ToolStats>) -> (r: String)
    ensures
        r@ == prometheus_text(*c, stats_models(stats@)),
{
    let ghost sv = stats_models(stats@);
    let mut out = counters_string(c);
    push_header(&mut out, "mcplex_tool_invocations_total", "Tool invocations by tool name", "counter");
    push_invocations(&mut out, stats);
    push_header(&mut out, "mcplex_tool_errors_total", "Tool errors by tool name", "counter");
    push_errors(&mut out, stats);
    push_header(&mut out, "mcplex_tool_duration_ms", "Tool call duration in milliseconds", "summary");
    push_durations(&mut out, stats);
    proof {
        assert(out@ =~= prometheus_text(*c, sv));
    }
    out
}

/// The collector's metrics in the Prometheus text format.
pub fn prometheus_metrics(metrics: &MetricsCollector) -> (r: String)
    ensures
        r@ == prometheus_text(metrics.counters_view(), metrics.stats_view()),
{
    let counters = metrics.get_counters();
    let tool_stats = metrics.get_tool_stats();
    render_prometheus(&counters, &tool_stats)
}

/// Whether `line` occurs in `text` as a run of consecutive characters.
pub open spec fn occurs_in(line: Seq<char>, text: Seq<char>) -> bool {
    exists|k: int| 0 <= k && k + line.len() <= text.len() && #[trigger] text.subrange(k, k + line.len()) == line
}

proof fn lemma_occurs_in_longer(line: Seq<char>, a: Seq<char>, b: Seq<char>)
    requires
        occurs_in(line, a),
    ensures
        occurs_in(line, a + b),
        occurs_in(line, b + a),
{
    let k = choose|k: int| 0 <= k && k + line.len() <= a.len() && #[trigger] a.subrange(k, k + line.len()) == line;
    assert((a + b).subrange(k, k + line.len()) =~= line);
    assert((b + a).subrange(b.len() + k, b.len() + k + line.len()) =~= line);
}

proof fn lemma_occurs_whole(line: Seq<char>)
    ensures
        occurs_in(line, line),
{
    assert(line.subrange(0, 0 + line.len() as int) =~= line);
}

/// The invocation line of a tool, written out.
pub open spec fn invocations_line(s: StatsView) -> Seq<char> {
    "mcplex_tool_invocations_total"@ + "{tool=\""@ + s.name + "\""@ + "} "@ + decimal(s.invocation_count as nat) + "\n"@
}

/// The error line of a tool, written out.
pub open spec fn errors_line(s: StatsView) -> Seq<char> {
    "mcplex_tool_errors_total"@ + "{tool=\""@ + s.name + "\""@ + "} "@ + decimal(s.error_count as nat) + "\n"@
}

/// A latency-quantile line of a tool, written out: the `pct`-th
/// percentile of its samples under the quantile label.
pub open spec fn quantile_line(s: StatsView, label: Seq<char>, pct: nat) -> Seq<char> {
    "mcplex_tool_duration_ms"@ + "{tool=\""@ + s.name + "\""@ + ",quantile=\""@ + label + "\""@ + "} "@
        + decimal(percentile_of(s.durations, pct) as nat) + "\n"@
}

/// The median, 95th- and 99th-percentile latency lines of a tool.
pub open spec fn p50_line(s: StatsView) -> Seq<char> {
    quantile_line(s, "0.5"@, 50)
}

/// The 95th-percentile latency line of a tool.
pub open spec fn p95_line(s: StatsView) -> Seq<char> {
    quantile_line(s, "0.95"@, 95)
}

/// The 99th-percentile latency line of a tool.
pub open spec fn p99_line(s: StatsView) -> Seq<char> {
    quantile_line(s, "0.99"@, 99)
}

proof fn lemma_tool_lines(stats: Seq<StatsView>, i: int)
    requires
        0 <= i < stats.len(),
    ensures
        occurs_in(invocations_line(stats[i]), invocation_samples(stats)),
        occurs_in(errors_line(stats[i]), error_samples(stats)),
        occurs_in(p50_line(stats[i]), duration_samples(stats)),
        occurs_in(p95_line(stats[i]), duration_samples(stats)),
        occurs_in(p99_line(stats[i]), duration_samples(stats)),
    decreases stats.len(),
{
    let prev = stats.drop_last();
    let s = stats.last();
    if i < stats.len() - 1 {
        lemma_tool_lines(prev, i);
        assert(prev[i] == stats[i]);
        lemma_occurs_in_longer(invocations_line(stats[i]), invocation_samples(prev),
            tool_sample("mcplex_tool_invocations_total"@, s.name, Seq::empty(), s.invocation_count));
        lemma_occurs_in_longer(errors_line(stats[i]), error_samples(prev),
            tool_sample("mcplex_tool_errors_total"@, s.name, Seq::empty(), s.error_count));
        lemma_occurs_in_longer(p50_line(stats[i]), duration_samples(prev), quantile_samples(s));
        lemma_occurs_in_longer(p95_line(stats[i]), duration_samples(prev), quantile_samples(s));
        lemma_occurs_in_longer(p99_line(stats[i]), duration_samples(prev), quantile_samples(s));
    } else {
        let inv = tool_sample("mcplex_tool_invocations_total"@, s.name, Seq::empty(), s.invocation_count);
        assert(inv =~= invocations_line(s));
        lemma_occurs_whole(inv);
        lemma_occurs_in_longer(inv, inv, invocation_samples(prev));
        let err = tool_sample("mcplex_tool_errors_total"@, s.name, Seq::empty(), s.error_count);
        assert(err =~= errors_line(s));
        lemma_occurs_whole(err);
        lemma_occurs_in_longer(err, err, error_samples(prev));
        let q50 = tool_sample("mcplex_tool_duration_ms"@, s.name, ",quantile=\"0.5\""@, percentile_of(s.durations, 50));
        let q95 = tool_sample("mcplex_tool_duration_ms"@, s.name, ",quantile=\"0.95\""@, percentile_of(s.durations, 95));
        let q99 = tool_sample("mcplex_tool_duration_ms"@, s.name, ",quantile=\"0.99\""@, percentile_of(s.durations, 99));
        reveal_strlit(",quantile=\"0.5\"");
        reveal_strlit(",quantile=\"");
        reveal_strlit("0.5");
        reveal_strlit("0.95");
        reveal_strlit("0.99");
        reveal_strlit("\"");
        reveal_strlit(",quantile=\"0.95\"");
        reveal_strlit(",quantile=\"0.99\"");
        assert(q50 =~= p50_line(s));
        assert(q95 =~= p95_line(s));
        assert(q99 =~= p99_line(s));
        let qs = quantile_samples(s);
        assert(qs =~= q50 + (q95 + q99));
        lemma_occurs_whole(q50);
        lemma_occurs_in_longer(q50, q50, q95 + q99);
        lemma_occurs_whole(q95);
        lemma_occurs_in_longer(q95, q95, q99);
        lemma_occurs_in_longer(q95, q95 + q99, q50);
        assert(qs =~= (q50 + q95) + q99);
        lemma_occurs_whole(q99);
        lemma_occurs_in_longer(q99, q99, q50 + q95);
        lemma_occurs_in_longer(q50, qs, duration_samples(prev));
        lemma_occurs_in_longer(q95, qs, duration_samples(prev));
        lemma_occurs_in_longer(q99, qs, duration_samples(prev));
    }
}

proof fn lemma_occurs_in_middle(line: Seq<char>, a: Seq<char>, x: Seq<char>, b: Seq<char>)
    requires
        occurs_in(line, x),
    ensures
        occurs_in(line, a + x + b),
{
    lemma_occurs_in_longer(line, x, b);
    lemma_occurs_in_longer(line, x + b, a);
    assert(a + (x + b) =~= a + x + b);
}

/// The exposition reports every tool: its invocation count (every recorded
/// call, successful or not), its error count and its latency quantiles
/// (median, 95th and 99th percentile of its samples) each stand on a line
/// of their own, whatever else the text holds.
pub proof fn law_exposition_reports_each_tool(c: GlobalCounters, stats: Seq<StatsView>, i: int)
    requires
        0 <= i < stats.len(),
    ensures
        occurs_in(invocations_line(stats[i]), prometheus_text(c, stats)),
        occurs_in(errors_line(stats[i]), prometheus_text(c, stats)),
        occurs_in(p50_line(stats[i]), prometheus_text(c, stats)),
        occurs_in(p95_line(stats[i]), prometheus_text(c, stats)),
        occurs_in(p99_line(stats[i]), prometheus_text(c, stats)),
{
    lemma_tool_lines(stats, i);
    let st = stats[i];
    let a = counters_text(c) + header_text("mcplex_tool_invocations_total"@, "Tool invocations by tool name"@, "counter"@);
    let b = header_text("mcplex_tool_errors_total"@, "Tool errors by tool name"@, "counter"@);
    let d = header_text("mcplex_tool_duration_ms"@, "Tool call duration in milliseconds"@, "summary"@);
    let inv = invocation_samples(stats);
    let err = error_samples(stats);
    let dur = duration_samples(stats);
    let text = prometheus_text(c, stats);
    assert(occurs_in(invocations_line(st), text)) by {
        lemma_occurs_in_middle(invocations_line(st), a, inv, b + err + d + dur);
        assert(a + inv + (b + err + d + dur) =~= text);
    }
    assert(occurs_in(errors_line(st), text)) by {
        lemma_occurs_in_middle(errors_line(st), a + inv + b, err, d + dur);
        assert(a + inv + b + err + (d + dur) =~= text);
    }
    assert(occurs_in(p50_line(st), text) && occurs_in(p95_line(st), text) && occurs_in(p99_line(st), text)) by {
        let e = Seq::<char>::empty();
        lemma_occurs_in_middle(p50_line(st), a + inv + b + err + d, dur, e);
        lemma_occurs_in_middle(p95_line(st), a + inv + b + err + d, dur, e);
        lemma_occurs_in_middle(p99_line(st), a + inv + b + err + d, dur, e);
        assert(a + inv + b + err + d + dur + e =~= text);
    }
}

/// A counter's value line, written out.
pub open spec fn counter_line(name: Seq<char>, v: u64) -> Seq<char> {
    name + " "@ + decimal(v as nat) + "\n"@
}

proof fn lemma_counter_line(name: Seq<char>, help: Seq<char>, v: u64)
    ensures
        occurs_in(counter_line(name, v), counter_text(name, help, v)),
{
    let line = counter_line(name, v);
    let head = "# HELP "@ + name + " "@ + help + "\n"@ + "# TYPE "@ + name + " "@ + "counter"@ + "\n"@;
    assert(counter_text(name, help, v) =~= head + line);
    lemma_occurs_whole(line);
    lemma_occurs_in_longer(line, line, head);
}

proof fn lemma_occurs_within(line: Seq<char>, x: Seq<char>, y: Seq<char>)
    requires
        occurs_in(line, x),
        occurs_in(x, y),
    ensures
        occurs_in(line, y),
{
    let k1 = choose|k: int| 0 <= k && k + line.len() <= x.len() && #[trigger] x.subrange(k, k + line.len()) == line;
    let k2 = choose|k: int| 0 <= k && k + x.len() <= y.len() && #[trigger] y.subrange(k, k + x.len()) == x;
    assert(y.subrange(k2 + k1, k2 + k1 + line.len()) =~= x.subrange(k1, k1 + line.len()));
}

proof fn lemma_counters_lead(c: GlobalCounters, stats: Seq<StatsView>)
    ensures
        occurs_in(counters_text(c), prometheus_text(c, stats)),
{
    let text = prometheus_text(c, stats);
    let head = counters_text(c);
    assert(text.subrange(0, 0 + head.len() as int) =~= head);
}

proof fn lemma_counters_hold(c: GlobalCounters)
    ensures
        occurs_in(counter_text("mcplex_requests_total"@, "Total number of MCP requests handled"@, c.total_requests), counters_text(c)),
        occurs_in(counter_text("mcplex_tool_calls_total"@, "Total number of tool calls executed"@, c.total_tool_calls), counters_text(c)),
        occurs_in(counter_text("mcplex_errors_total"@, "Total number of errors"@, c.total_errors), counters_text(c)),
        occurs_in(counter_text("mcplex_tokens_saved_total"@, "Total tokens saved via routing"@, c.total_tokens_saved), counters_text(c)),
        occurs_in(counter_text("mcplex_routing_queries_total"@, "Total routing queries"@, c.total_routing_queries), counters_text(c)),
{
    let c1 = counter_text("mcplex_requests_total"@, "Total number of MCP requests handled"@, c.total_requests);
    let c2 = counter_text("mcplex_tool_calls_total"@, "Total number of tool calls executed"@, c.total_tool_calls);
    let c3 = counter_text("mcplex_errors_total"@, "Total number of errors"@, c.total_errors);
    let c4 = counter_text("mcplex_tokens_saved_total"@, "Total tokens saved via routing"@, c.total_tokens_saved);
    let c5 = counter_text("mcplex_routing_queries_total"@, "Total routing queries"@, c.total_routing_queries);
    lemma_each_of_five(c1, c2, c3, c4, c5);
}

proof fn lemma_each_of_five(c1: Seq<char>, c2: Seq<char>, c3: Seq<char>, c4: Seq<char>, c5: Seq<char>)
    ensures
        occurs_in(c1, c1 + c2 + c3 + c4 + c5),
        occurs_in(c2, c1 + c2 + c3 + c4 + c5),
        occurs_in(c3, c1 + c2 + c3 + c4 + c5),
        occurs_in(c4, c1 + c2 + c3 + c4 + c5),
        occurs_in(c5, c1 + c2 + c3 + c4 + c5),
{
    let all = c1 + c2 + c3 + c4 + c5;
    let e = Seq::<char>::empty();
    lemma_occurs_whole(c1);
    lemma_occurs_whole(c2);
    lemma_occurs_whole(c3);
    lemma_occurs_whole(c4);
    lemma_occurs_whole(c5);
    lemma_occurs_in_middle(c1, e, c1, c2 + c3 + c4 + c5);
    lemma_occurs_in_middle(c2, c1, c2, c3 + c4 + c5);
    lemma_occurs_in_middle(c3, c1 + c2, c3, c4 + c5);
    lemma_occurs_in_middle(c4, c1 + c2 + c3, c4, c5);
    lemma_occurs_in_middle(c5, c1 + c2 + c3 + c4, c5, e);
    assert(e + c1 + (c2 + c3 + c4 + c5) =~= all);
    assert(c1 + c2 + (c3 + c4 + c5) =~= all);
    assert(c1 + c2 + c3 + (c4 + c5) =~= all);
    assert(c1 + c2 + c3 + c4 + c5 + e =~= all);
}

/// The exposition reports each gateway counter with its current value on a
/// line of its own: requests, tool calls, errors, tokens saved and routing
/// queries.
pub proof fn law_exposition_reports_counters(c: GlobalCounters, stats: Seq<StatsView>)
    ensures
        occurs_in(counter_line("mcplex_requests_total"@, c.total_requests), prometheus_text(c, stats)),
        occurs_in(counter_line("mcplex_tool_calls_total"@, c.total_tool_calls), prometheus_text(c, stats)),
        occurs_in(counter_line("mcplex_errors_total"@, c.total_errors), prometheus_text(c, stats)),
        occurs_in(counter_line("mcplex_tokens_saved_total"@, c.total_tokens_saved), prometheus_text(c, stats)),
        occurs_in(counter_line("mcplex_routing_queries_total"@, c.total_routing_queries), prometheus_text(c, stats)),
{
    lemma_counters_hold(c);
    lemma_counters_lead(c, stats);
    let all = counters_text(c);
    let text = prometheus_text(c, stats);
    lemma_counter_line("mcplex_requests_total"@, "Total number of MCP requests handled"@, c.total_requests);
    lemma_occurs_within(counter_line("mcplex_requests_total"@, c.total_requests),
        counter_text("mcplex_requests_total"@, "Total number of MCP requests handled"@, c.total_requests), all);
    lemma_occurs_within(counter_line("mcplex_requests_total"@, c.total_requests), all, text);
    lemma_counter_line("mcplex_tool_calls_total"@, "Total number of tool calls executed"@, c.total_tool_calls);
    lemma_occurs_within(counter_line("mcplex_tool_calls_total"@, c.total_tool_calls),
        counter_text("mcplex_tool_calls_total"@, "Total number of tool calls executed"@, c.total_tool_calls), all);
    lemma_occurs_within(counter_line("mcplex_tool_calls_total"@, c.total_tool_calls), all, text);
    lemma_counter_line("mcplex_errors_total"@, "Total number of errors"@, c.total_errors);
    lemma_occurs_within(counter_line("mcplex_errors_total"@, c.total_errors),
        counter_text("mcplex_errors_total"@, "Total number of errors"@, c.total_errors), all);
    lemma_occurs_within(counter_line("mcplex_errors_total"@, c.total_errors), all, text);
    lemma_counter_line("mcplex_tokens_saved_total"@, "Total tokens saved via routing"@, c.total_tokens_saved);
    lemma_occurs_within(counter_line("mcplex_tokens_saved_total"@, c.total_tokens_saved),
        counter_text("mcplex_tokens_saved_total"@, "Total tokens saved via routing"@, c.total_tokens_saved), all);
    lemma_occurs_within(counter_line("mcplex_tokens_saved_total"@, c.total_tokens_saved), all, text);
    lemma_counter_line("mcplex_routing_queries_total"@, "Total routing queries"@, c.total_routing_queries);
    lemma_occurs_within(counter_line("mcplex_routing_queries_total"@, c.total_routing_queries),
        counter_text("mcplex_routing_queries_total"@, "Total routing queries"@, c.total_routing_queries), all);
    lemma_occurs_within(counter_line("mcplex_routing_queries_total"@, c.total_routing_queries), all, text);
}

} // verus!
