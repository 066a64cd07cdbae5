//! The metrics of the proxy in the Prometheus text format.

use crate::text::{
    contains_part, decimal, decimal_text, law_parts_occur, same, signed_decimal, signed_text,
    stands_at, text2, text3, text5,
};
use crate::types::AccountRow;
use vstd::prelude::*;

verus! {

/// Totals over the usage log. The texts are decimal numbers.
#[derive(Debug)]
pub struct UsageTotals {
    pub requests: i64,
    pub cost_usd: String,
    pub cached_tokens: i64,
    pub fallback_hops: i64,
    pub usage_unknown: i64,
    pub usage_estimated: i64,
    pub unknown_cost: i64,
    pub error_rate: String,
    pub avg_latency_ms: String,
    pub avg_ttft_ms: String,
}

/// What the metrics are made of. The texts are decimal numbers.
#[derive(Debug)]
pub struct MetricsInput {
    /// Whether the control-plane store answers.
    pub store_healthy: bool,
    /// `None` where the store could not give them.
    pub totals: Option<UsageTotals>,
    pub accounts: Vec<AccountRow>,
    pub log_queue_depth: u64,
    pub log_queue_dropped: u64,
    pub failures_pre_commit: u64,
    pub failures_post_commit: u64,
    pub cancellations: u64,
    pub avg_cancellation_ms: String,
    pub flight_requests: u64,
    pub flight_dropped: u64,
    pub active_streams: u64,
    pub ip_rate_limited: u64,
    pub credential_failures: u64,
}

/// One metric: its help, its type, and its value.
pub open spec fn metric(name: Seq<char>, help: Seq<char>, kind: Seq<char>, value: Seq<char>) -> Seq<
    char,
> {
    metric_head(name, help, kind) + name + " "@ + value + "\n"@
}

/// The two lines before the values of a metric.
pub open spec fn metric_head(name: Seq<char>, help: Seq<char>, kind: Seq<char>) -> Seq<char> {
    ("# HELP "@ + name + " "@ + help + "\n# TYPE "@) + name + " "@ + kind + "\n"@
}

fn head_text(name: &str, help: &str, kind: &str) -> (r: String)
    ensures
        r@ == metric_head(name@, help@, kind@),
{
    let first = text5("# HELP ", name, " ", help, "\n# TYPE ");
    text5(first.as_str(), name, " ", kind, "\n")
}

fn metric_text(name: &str, help: &str, kind: &str, value: &str) -> (r: String)
    ensures
        r@ == metric(name@, help@, kind@, value@),
{
    let h = head_text(name, help, kind);
    text5(h.as_str(), name, " ", value, "\n")
}

/// How many accounts have a status.
pub open spec fn with_status(accounts: Seq<AccountRow>, status: Seq<char>) -> nat
    decreases accounts.len(),
{
    if accounts.len() == 0 {
        0
    } else {
        with_status(accounts.drop_last(), status) + if accounts.last().status@ == status {
            1nat
        } else {
            0
        }
    }
}

/// How many accounts have a status.
pub fn count_status(accounts: &Vec<AccountRow>, status: &str) -> (r: u64)
    ensures
        r == with_status(accounts@, status@),
        r <= accounts@.len(),
{
    let mut n: u64 = 0;
    let mut i: usize = 0;
    while i < accounts.len()
        invariant
            i <= accounts@.len(),
            n == with_status(accounts@.take(i as int), status@),
            n <= i,
        decreases accounts@.len() - i,
    {
        assert(accounts@.take(i + 1).drop_last() =~= accounts@.take(i as int));
        if same(accounts[i].status.as_str(), status) {
            n = n + 1;
        }
        i = i + 1;
    }
    assert(accounts@.take(i as int) =~= accounts@);
    n
}

/// The line that counts the accounts of a status.
pub open spec fn status_line(accounts: Seq<AccountRow>, status: Seq<char>) -> Seq<char> {
    "kinetix_account_status{status=\""@ + status + "\"} "@ + decimal(with_status(accounts, status))
        + "\n"@
}

fn status_text(accounts: &Vec<AccountRow>, status: &str) -> (r: String)
    ensures
        r@ == status_line(accounts@, status@),
{
    let n = decimal_text(count_status(accounts, status));
    text5("kinetix_account_status{status=\"", status, "\"} ", n.as_str(), "\n")
}

/// A total; zero where the totals are not known.
pub open spec fn total_or_zero(t: Option<UsageTotals>, f: spec_fn(UsageTotals) -> int) -> Seq<char> {
    match t {
        Some(u) => signed_decimal(f(u)),
        None => "0"@,
    }
}

/// A total that is given as text; zero where the totals are not known.
pub open spec fn text_or_zero(t: Option<UsageTotals>, f: spec_fn(UsageTotals) -> Seq<char>) -> Seq<
    char,
> {
    match t {
        Some(u) => f(u),
        None => "0"@,
    }
}

/// The metrics of the store and of the request log.
pub open spec fn store_metrics(m: MetricsInput) -> Seq<char> {
    metric(
        "kinetix_control_plane_degraded"@,
        "1 when the control-plane store is unavailable"@,
        "gauge"@,
        if m.store_healthy {
            "0"@
        } else {
            "1"@
        },
    ) + metric(
        "kinetix_requests_total"@,
        "Total proxied requests"@,
        "counter"@,
        total_or_zero(m.totals, |u: UsageTotals| u.requests as int),
    ) + metric(
        "kinetix_cost_usd_total"@,
        "Total computed cost in USD"@,
        "counter"@,
        text_or_zero(m.totals, |u: UsageTotals| u.cost_usd@),
    ) + metric(
        "kinetix_log_queue_depth"@,
        "Pending usage-log rows"@,
        "gauge"@,
        decimal(m.log_queue_depth as nat),
    ) + metric(
        "kinetix_log_queue_dropped_total"@,
        "Dropped usage-log rows"@,
        "counter"@,
        decimal(m.log_queue_dropped as nat),
    )
}

/// The metrics of the accounts.
pub open spec fn account_metrics(m: MetricsInput) -> Seq<char> {
    metric_head("kinetix_account_status"@, "Account health by status"@, "gauge"@) + status_line(
        m.accounts@,
        "healthy"@,
    ) + status_line(m.accounts@, "cooldown"@) + status_line(m.accounts@, "exhausted"@)
        + status_line(m.accounts@, "disabled"@)
}

/// The metrics of failures and cancellations.
pub open spec fn failure_metrics(m: MetricsInput) -> Seq<char> {
    metric(
        "kinetix_failures_pre_commit_total"@,
        "Failures before the commit point"@,
        "counter"@,
        decimal(m.failures_pre_commit as nat),
    ) + metric(
        "kinetix_failures_post_commit_total"@,
        "Failures after the commit point"@,
        "counter"@,
        decimal(m.failures_post_commit as nat),
    ) + metric(
        "kinetix_cancellations_total"@,
        "Client-disconnect cancellations"@,
        "counter"@,
        decimal(m.cancellations as nat),
    ) + metric(
        "kinetix_cancellation_latency_ms"@,
        "Average cancellation latency (ms)"@,
        "gauge"@,
        m.avg_cancellation_ms@,
    )
}

/// The metrics of the tokens and of the flight recorder.
pub open spec fn flight_metrics(m: MetricsInput) -> Seq<char> {
    metric(
        "kinetix_cached_tokens_total"@,
        "Provider-reported cached prompt tokens"@,
        "counter"@,
        total_or_zero(m.totals, |u: UsageTotals| u.cached_tokens as int),
    ) + metric(
        "kinetix_fallback_hops_total"@,
        "Total fallback hops across requests"@,
        "counter"@,
        total_or_zero(m.totals, |u: UsageTotals| u.fallback_hops as int),
    ) + metric(
        "kinetix_flight_recorder_requests"@,
        "Requests tracked by the flight recorder"@,
        "gauge"@,
        decimal(m.flight_requests as nat),
    ) + metric(
        "kinetix_flight_recorder_dropped_total"@,
        "Diagnostics dropped when saturated"@,
        "counter"@,
        decimal(m.flight_dropped as nat),
    )
}

/// The metrics that say how far the accounting can be trusted, and the rates.
pub open spec fn accounting_metrics(m: MetricsInput) -> Seq<char> {
    metric(
        "kinetix_usage_unknown_total"@,
        "Requests without provider-reported usage"@,
        "counter"@,
        total_or_zero(m.totals, |u: UsageTotals| u.usage_unknown as int),
    ) + metric(
        "kinetix_usage_estimated_total"@,
        "Requests with estimated usage"@,
        "counter"@,
        total_or_zero(m.totals, |u: UsageTotals| u.usage_estimated as int),
    ) + metric(
        "kinetix_usage_unknown_cost_total"@,
        "Requests whose cost is unknown"@,
        "counter"@,
        total_or_zero(m.totals, |u: UsageTotals| u.unknown_cost as int),
    ) + metric(
        "kinetix_error_rate"@,
        "Share of requests that ended in an error"@,
        "gauge"@,
        text_or_zero(m.totals, |u: UsageTotals| u.error_rate@),
    ) + metric(
        "kinetix_avg_latency_ms"@,
        "Average request latency (ms)"@,
        "gauge"@,
        text_or_zero(m.totals, |u: UsageTotals| u.avg_latency_ms@),
    ) + metric(
        "kinetix_avg_ttft_ms"@,
        "Average time to first token (ms)"@,
        "gauge"@,
        text_or_zero(m.totals, |u: UsageTotals| u.avg_ttft_ms@),
    )
}

/// The metrics of the running process.
pub open spec fn process_metrics(m: MetricsInput) -> Seq<char> {
    metric(
        "kinetix_active_streams"@,
        "Requests in flight"@,
        "gauge"@,
        decimal(m.active_streams as nat),
    ) + metric(
        "kinetix_ip_rate_limited_total"@,
        "Requests rejected by the per-IP limit"@,
        "counter"@,
        decimal(m.ip_rate_limited as nat),
    ) + metric(
        "kinetix_credential_failures_total"@,
        "Credentials that could not be resolved"@,
        "counter"@,
        decimal(m.credential_failures as nat),
    )
}

/// All metrics.
pub open spec fn metrics_text(m: MetricsInput) -> Seq<char> {
    store_metrics(m) + account_metrics(m) + failure_metrics(m) + flight_metrics(m)
        + accounting_metrics(m) + process_metrics(m)
}

fn signed_or_zero(v: Option<i64>) -> (r: String)
    ensures
        r@ == (match v {
            Some(n) => signed_decimal(n as int),
            None => "0"@,
        }),
{
    match v {
        Some(n) => signed_text(n),
        None => "0".to_owned(),
    }
}

fn add_metric(out: String, name: &str, help: &str, kind: &str, value: &str) -> (r: String)
    ensures
        r@ == out@ + metric(name@, help@, kind@, value@),
{
    let m = metric_text(name, help, kind, value);
    text2(out.as_str(), m.as_str())
}

fn store_part(m: &MetricsInput) -> (r: String)
    ensures
        r@ == store_metrics(*m),
{
    let requests = signed_or_zero(
        match &m.totals {
            Some(u) => Some(u.requests),
            None => None,
        },
    );
    let cost = match &m.totals {
        Some(u) => u.cost_usd.clone(),
        None => "0".to_owned(),
    };
    let out = metric_text(
        "kinetix_control_plane_degraded",
        "1 when the control-plane store is unavailable",
        "gauge",
        if m.store_healthy {
            "0"
        } else {
            "1"
        },
    );
    let out = add_metric(
        out,
        "kinetix_requests_total",
        "Total proxied requests",
        "counter",
        requests.as_str(),
    );
    let out = add_metric(
        out,
        "kinetix_cost_usd_total",
        "Total computed cost in USD",
        "counter",
        cost.as_str(),
    );
    let out = add_metric(
        out,
        "kinetix_log_queue_depth",
        "Pending usage-log rows",
        "gauge",
        decimal_text(m.log_queue_depth).as_str(),
    );
    add_metric(
        out,
        "kinetix_log_queue_dropped_total",
        "Dropped usage-log rows",
        "counter",
        decimal_text(m.log_queue_dropped).as_str(),
    )
}

fn account_part(m: &MetricsInput) -> (r: String)
    ensures
        r@ == account_metrics(*m),
{
    let h = head_text("kinetix_account_status", "Account health by status", "gauge");
    let healthy = status_text(&m.accounts, "healthy");
    let cooldown = status_text(&m.accounts, "cooldown");
    let exhausted = status_text(&m.accounts, "exhausted");
    let disabled = status_text(&m.accounts, "disabled");
    text5(
        h.as_str(),
        healthy.as_str(),
        cooldown.as_str(),
        exhausted.as_str(),
        disabled.as_str(),
    )
}

fn failure_part(m: &MetricsInput) -> (r: String)
    ensures
        r@ == failure_metrics(*m),
{
    let out = metric_text(
        "kinetix_failures_pre_commit_total",
        "Failures before the commit point",
        "counter",
        decimal_text(m.failures_pre_commit).as_str(),
    );
    let out = add_metric(
        out,
        "kinetix_failures_post_commit_total",
        "Failures after the commit point",
        "counter",
        decimal_text(m.failures_post_commit).as_str(),
    );
    let out = add_metric(
        out,
        "kinetix_cancellations_total",
        "Client-disconnect cancellations",
        "counter",
        decimal_text(m.cancellations).as_str(),
    );
    add_metric(
        out,
        "kinetix_cancellation_latency_ms",
        "Average cancellation latency (ms)",
        "gauge",
        m.avg_cancellation_ms.as_str(),
    )
}

fn flight_part(m: &MetricsInput) -> (r: String)
    ensures
        r@ == flight_metrics(*m),
{
    let cached = signed_or_zero(
        match &m.totals {
            Some(u) => Some(u.cached_tokens),
            None => None,
        },
    );
    let hops = signed_or_zero(
        match &m.totals {
            Some(u) => Some(u.fallback_hops),
            None => None,
        },
    );
    let out = metric_text(
        "kinetix_cached_tokens_total",
        "Provider-reported cached prompt tokens",
        "counter",
        cached.as_str(),
    );
    let out = add_metric(
        out,
        "kinetix_fallback_hops_total",
        "Total fallback hops across requests",
        "counter",
        hops.as_str(),
    );
    let out = add_metric(
        out,
        "kinetix_flight_recorder_requests",
        "Requests tracked by the flight recorder",
        "gauge",
        decimal_text(m.flight_requests).as_str(),
    );
    add_metric(
        out,
        "kinetix_flight_recorder_dropped_total",
        "Diagnostics dropped when saturated",
        "counter",
        decimal_text(m.flight_dropped).as_str(),
    )
}

fn accounting_part(m: &MetricsInput) -> (r: String)
    ensures
        r@ == accounting_metrics(*m),
{
    let unknown = signed_or_zero(
        match &m.totals {
            Some(u) => Some(u.usage_unknown),
            None => None,
        },
    );
    let estimated = signed_or_zero(
        match &m.totals {
            Some(u) => Some(u.usage_estimated),
            None => None,
        },
    );
    let unpriced = signed_or_zero(
        match &m.totals {
            Some(u) => Some(u.unknown_cost),
            None => None,
        },
    );
    let error_rate = match &m.totals {
        Some(u) => u.error_rate.clone(),
        None => "0".to_owned(),
    };
    let latency = match &m.totals {
        Some(u) => u.avg_latency_ms.clone(),
        None => "0".to_owned(),
    };
    let ttft = match &m.totals {
        Some(u) => u.avg_ttft_ms.clone(),
        None => "0".to_owned(),
    };
    let out = metric_text(
        "kinetix_usage_unknown_total",
        "Requests without provider-reported usage",
        "counter",
        unknown.as_str(),
    );
    let out = add_metric(
        out,
        "kinetix_usage_estimated_total",
        "Requests with estimated usage",
        "counter",
        estimated.as_str(),
    );
    let out = add_metric(
        out,
        "kinetix_usage_unknown_cost_total",
        "Requests whose cost is unknown",
        "counter",
        unpriced.as_str(),
    );
    let out = add_metric(
        out,
        "kinetix_error_rate",
        "Share of requests that ended in an error",
        "gauge",
        error_rate.as_str(),
    );
    let out = add_metric(
        out,
        "kinetix_avg_latency_ms",
        "Average request latency (ms)",
        "gauge",
        latency.as_str(),
    );
    add_metric(
        out,
        "kinetix_avg_ttft_ms",
        "Average time to first token (ms)",
        "gauge",
        ttft.as_str(),
    )
}

fn process_part(m: &MetricsInput) -> (r: String)
    ensures
        r@ == process_metrics(*m),
{
    let out = metric_text(
        "kinetix_active_streams",
        "Requests in flight",
        "gauge",
        decimal_text(m.active_streams).as_str(),
    );
    let out = add_metric(
        out,
        "kinetix_ip_rate_limited_total",
        "Requests rejected by the per-IP limit",
        "counter",
        decimal_text(m.ip_rate_limited).as_str(),
    );
    add_metric(
        out,
        "kinetix_credential_failures_total",
        "Credentials that could not be resolved",
        "counter",
        decimal_text(m.credential_failures).as_str(),
    )
}

/// The metrics as text. What is held in memory is reported even when the store
/// does not answer; the totals of the store are zero then.
pub fn metrics(m: &MetricsInput) -> (r: String)
    ensures
        r@ == metrics_text(*m),
{
    let store = store_part(m);
    let accounts = account_part(m);
    let failures = failure_part(m);
    let flight = flight_part(m);
    let accounting = accounting_part(m);
    let process = process_part(m);
    let first = text3(store.as_str(), accounts.as_str(), failures.as_str());
    let first = text3(first.as_str(), flight.as_str(), accounting.as_str());
    text2(first.as_str(), process.as_str())
}

proof fn lemma_within(before: Seq<char>, s: Seq<char>, behind: Seq<char>, part: Seq<char>)
    requires
        contains_part(s, part),
    ensures
        contains_part(before + s + behind, part),
{
    let at = choose|at: int| stands_at(s, part, at);
    let all = before + s + behind;
    let from = before.len() + at;
    assert(all.subrange(from, from + part.len()) =~= s.subrange(at, at + part.len()));
    assert(stands_at(all, part, from));
}

/// The line that tells the value of a metric.
pub open spec fn value_line(name: Seq<char>, value: Seq<char>) -> Seq<char> {
    name + " "@ + value + "\n"@
}

/// A metric tells its value behind its name, and before it what it is.
pub proof fn law_metrics_tell_their_values(
    name: Seq<char>,
    help: Seq<char>,
    kind: Seq<char>,
    value: Seq<char>,
)
    ensures
        metric(name, help, kind, value) == metric_head(name, help, kind) + value_line(name, value),
        contains_part(metric(name, help, kind, value), value_line(name, value)),
{
    let head = metric_head(name, help, kind);
    let line = value_line(name, value);
    assert(metric(name, help, kind, value) =~= head + line + Seq::<char>::empty());
    assert(head + line =~= head + line + Seq::<char>::empty());
    law_parts_occur(head, line, Seq::empty());
}

/// Accounts are counted by their state, each once.
pub proof fn law_accounts_are_counted_once(
    a: Seq<AccountRow>,
    x: AccountRow,
    b: Seq<AccountRow>,
    status: Seq<char>,
)
    ensures
        with_status(a + b, status) == with_status(a, status) + with_status(b, status),
        with_status(seq![x], status) == (if x.status@ == status {
            1nat
        } else {
            0
        }),
        with_status(Seq::empty(), status) == 0,
    decreases b.len(),
{
    assert(seq![x].drop_last() =~= Seq::<AccountRow>::empty());
    assert(with_status(seq![x].drop_last(), status) == 0);
    if b.len() == 0 {
        assert(a + b =~= a);
    } else {
        law_accounts_are_counted_once(a, x, b.drop_last(), status);
        assert((a + b).drop_last() =~= a + b.drop_last());
        assert((a + b).last() == b.last());
    }
}

/// The state of the store, the totals and the queue are all told, each number under
/// its own name; the store counts as degraded exactly where it is not healthy.
pub proof fn law_store_numbers_are_told(m: MetricsInput)
    ensures
        m.store_healthy ==> contains_part(
            store_metrics(m),
            value_line("kinetix_control_plane_degraded"@, "0"@),
        ),
        !m.store_healthy ==> contains_part(
            store_metrics(m),
            value_line("kinetix_control_plane_degraded"@, "1"@),
        ),
        m.totals matches Some(u) ==> contains_part(
            store_metrics(m),
            value_line("kinetix_requests_total"@, signed_decimal(u.requests as int)),
        ),
        m.totals is None ==> contains_part(
            store_metrics(m),
            value_line("kinetix_requests_total"@, "0"@),
        ),
        m.totals matches Some(u) ==> contains_part(
            store_metrics(m),
            value_line("kinetix_cost_usd_total"@, u.cost_usd@),
        ),
        m.totals is None ==> contains_part(
            store_metrics(m),
            value_line("kinetix_cost_usd_total"@, "0"@),
        ),
        contains_part(
            store_metrics(m),
            value_line("kinetix_log_queue_depth"@, decimal(m.log_queue_depth as nat)),
        ),
        contains_part(
            store_metrics(m),
            value_line("kinetix_log_queue_dropped_total"@, decimal(m.log_queue_dropped as nat)),
        ),
{
    let v0 = if m.store_healthy {
        "0"@
    } else {
        "1"@
    };
    let p0 = metric(
        "kinetix_control_plane_degraded"@,
        "1 when the control-plane store is unavailable"@,
        "gauge"@,
        v0,
    );
    law_metrics_tell_their_values(
        "kinetix_control_plane_degraded"@,
        "1 when the control-plane store is unavailable"@,
        "gauge"@,
        v0,
    );
    let v1 = total_or_zero(m.totals, |u: UsageTotals| u.requests as int);
    let p1 = metric("kinetix_requests_total"@, "Total proxied requests"@, "counter"@, v1);
    law_metrics_tell_their_values(
        "kinetix_requests_total"@,
        "Total proxied requests"@,
        "counter"@,
        v1,
    );
    let v2 = text_or_zero(m.totals, |u: UsageTotals| u.cost_usd@);
    let p2 = metric("kinetix_cost_usd_total"@, "Total computed cost in USD"@, "counter"@, v2);
    law_metrics_tell_their_values(
        "kinetix_cost_usd_total"@,
        "Total computed cost in USD"@,
        "counter"@,
        v2,
    );
    let v3 = decimal(m.log_queue_depth as nat);
    let p3 = metric("kinetix_log_queue_depth"@, "Pending usage-log rows"@, "gauge"@, v3);
    law_metrics_tell_their_values(
        "kinetix_log_queue_depth"@,
        "Pending usage-log rows"@,
        "gauge"@,
        v3,
    );
    let v4 = decimal(m.log_queue_dropped as nat);
    let p4 = metric("kinetix_log_queue_dropped_total"@, "Dropped usage-log rows"@, "counter"@, v4);
    law_metrics_tell_their_values(
        "kinetix_log_queue_dropped_total"@,
        "Dropped usage-log rows"@,
        "counter"@,
        v4,
    );
    lemma_joins(Seq::empty(), p0, value_line("kinetix_control_plane_degraded"@, v0));
    assert(Seq::<char>::empty() + p0 =~= p0);
    lemma_joins(p0, p1, value_line("kinetix_control_plane_degraded"@, v0));
    lemma_joins(p0 + p1, p2, value_line("kinetix_control_plane_degraded"@, v0));
    lemma_joins(p0 + p1 + p2, p3, value_line("kinetix_control_plane_degraded"@, v0));
    lemma_joins(p0 + p1 + p2 + p3, p4, value_line("kinetix_control_plane_degraded"@, v0));
    lemma_joins(p0, p1, value_line("kinetix_requests_total"@, v1));
    lemma_joins(p0 + p1, p2, value_line("kinetix_requests_total"@, v1));
    lemma_joins(p0 + p1 + p2, p3, value_line("kinetix_requests_total"@, v1));
    lemma_joins(p0 + p1 + p2 + p3, p4, value_line("kinetix_requests_total"@, v1));
    lemma_joins(p0 + p1, p2, value_line("kinetix_cost_usd_total"@, v2));
    lemma_joins(p0 + p1 + p2, p3, value_line("kinetix_cost_usd_total"@, v2));
    lemma_joins(p0 + p1 + p2 + p3, p4, value_line("kinetix_cost_usd_total"@, v2));
    lemma_joins(p0 + p1 + p2, p3, value_line("kinetix_log_queue_depth"@, v3));
    lemma_joins(p0 + p1 + p2 + p3, p4, value_line("kinetix_log_queue_depth"@, v3));
    lemma_joins(p0 + p1 + p2 + p3, p4, value_line("kinetix_log_queue_dropped_total"@, v4));
    assert(store_metrics(m) == p0 + p1 + p2 + p3 + p4);
}

/// Failures before and after the commit point and cancellations are all told, each
/// under its own name.
pub proof fn law_failure_numbers_are_told(m: MetricsInput)
    ensures
        contains_part(
            failure_metrics(m),
            value_line("kinetix_failures_pre_commit_total"@, decimal(m.failures_pre_commit as nat)),
        ),
        contains_part(
            failure_metrics(m),
            value_line("kinetix_failures_post_commit_total"@, decimal(m.failures_post_commit as nat)),
        ),
        contains_part(
            failure_metrics(m),
            value_line("kinetix_cancellations_total"@, decimal(m.cancellations as nat)),
        ),
        contains_part(
            failure_metrics(m),
            value_line("kinetix_cancellation_latency_ms"@, m.avg_cancellation_ms@),
        ),
{
    let v0 = decimal(m.failures_pre_commit as nat);
    let p0 = metric(
        "kinetix_failures_pre_commit_total"@,
        "Failures before the commit point"@,
        "counter"@,
        v0,
    );
    law_metrics_tell_their_values(
        "kinetix_failures_pre_commit_total"@,
        "Failures before the commit point"@,
        "counter"@,
        v0,
    );
    let v1 = decimal(m.failures_post_commit as nat);
    let p1 = metric(
        "kinetix_failures_post_commit_total"@,
        "Failures after the commit point"@,
        "counter"@,
        v1,
    );
    law_metrics_tell_their_values(
        "kinetix_failures_post_commit_total"@,
        "Failures after the commit point"@,
        "counter"@,
        v1,
    );
    let v2 = decimal(m.cancellations as nat);
    let p2 = metric(
        "kinetix_cancellations_total"@,
        "Client-disconnect cancellations"@,
        "counter"@,
        v2,
    );
    law_metrics_tell_their_values(
        "kinetix_cancellations_total"@,
        "Client-disconnect cancellations"@,
        "counter"@,
        v2,
    );
    let v3 = m.avg_cancellation_ms@;
    let p3 = metric(
        "kinetix_cancellation_latency_ms"@,
        "Average cancellation latency (ms)"@,
        "gauge"@,
        v3,
    );
    law_metrics_tell_their_values(
        "kinetix_cancellation_latency_ms"@,
        "Average cancellation latency (ms)"@,
        "gauge"@,
        v3,
    );
    lemma_joins(Seq::empty(), p0, value_line("kinetix_failures_pre_commit_total"@, v0));
    assert(Seq::<char>::empty() + p0 =~= p0);
    lemma_joins(p0, p1, value_line("kinetix_failures_pre_commit_total"@, v0));
    lemma_joins(p0 + p1, p2, value_line("kinetix_failures_pre_commit_total"@, v0));
    lemma_joins(p0 + p1 + p2, p3, value_line("kinetix_failures_pre_commit_total"@, v0));
    lemma_joins(p0, p1, value_line("kinetix_failures_post_commit_total"@, v1));
    lemma_joins(p0 + p1, p2, value_line("kinetix_failures_post_commit_total"@, v1));
    lemma_joins(p0 + p1 + p2, p3, value_line("kinetix_failures_post_commit_total"@, v1));
    lemma_joins(p0 + p1, p2, value_line("kinetix_cancellations_total"@, v2));
    lemma_joins(p0 + p1 + p2, p3, value_line("kinetix_cancellations_total"@, v2));
    lemma_joins(p0 + p1 + p2, p3, value_line("kinetix_cancellation_latency_ms"@, v3));
    assert(failure_metrics(m) == p0 + p1 + p2 + p3);
}

/// Cached tokens, fallback hops and the flight recorder are all told, each under
/// its own name.
pub proof fn law_flight_numbers_are_told(m: MetricsInput)
    ensures
        m.totals matches Some(u) ==> contains_part(
            flight_metrics(m),
            value_line("kinetix_cached_tokens_total"@, signed_decimal(u.cached_tokens as int)),
        ),
        m.totals is None ==> contains_part(
            flight_metrics(m),
            value_line("kinetix_cached_tokens_total"@, "0"@),
        ),
        m.totals matches Some(u) ==> contains_part(
            flight_metrics(m),
            value_line("kinetix_fallback_hops_total"@, signed_decimal(u.fallback_hops as int)),
        ),
        m.totals is None ==> contains_part(
            flight_metrics(m),
            value_line("kinetix_fallback_hops_total"@, "0"@),
        ),
        contains_part(
            flight_metrics(m),
            value_line("kinetix_flight_recorder_requests"@, decimal(m.flight_requests as nat)),
        ),
        contains_part(
            flight_metrics(m),
            value_line("kinetix_flight_recorder_dropped_total"@, decimal(m.flight_dropped as nat)),
        ),
{
    let v0 = total_or_zero(m.totals, |u: UsageTotals| u.cached_tokens as int);
    let p0 = metric(
        "kinetix_cached_tokens_total"@,
        "Provider-reported cached prompt tokens"@,
        "counter"@,
        v0,
    );
    law_metrics_tell_their_values(
        "kinetix_cached_tokens_total"@,
        "Provider-reported cached prompt tokens"@,
        "counter"@,
        v0,
    );
    let v1 = total_or_zero(m.totals, |u: UsageTotals| u.fallback_hops as int);
    let p1 = metric(
        "kinetix_fallback_hops_total"@,
        "Total fallback hops across requests"@,
        "counter"@,
        v1,
    );
    law_metrics_tell_their_values(
        "kinetix_fallback_hops_total"@,
        "Total fallback hops across requests"@,
        "counter"@,
        v1,
    );
    let v2 = decimal(m.flight_requests as nat);
    let p2 = metric(
        "kinetix_flight_recorder_requests"@,
        "Requests tracked by the flight recorder"@,
        "gauge"@,
        v2,
    );
    law_metrics_tell_their_values(
        "kinetix_flight_recorder_requests"@,
        "Requests tracked by the flight recorder"@,
        "gauge"@,
        v2,
    );
    let v3 = decimal(m.flight_dropped as nat);
    let p3 = metric(
        "kinetix_flight_recorder_dropped_total"@,
        "Diagnostics dropped when saturated"@,
        "counter"@,
        v3,
    );
    law_metrics_tell_their_values(
        "kinetix_flight_recorder_dropped_total"@,
        "Diagnostics dropped when saturated"@,
        "counter"@,
        v3,
    );
    lemma_joins(Seq::empty(), p0, value_line("kinetix_cached_tokens_total"@, v0));
    assert(Seq::<char>::empty() + p0 =~= p0);
    lemma_joins(p0, p1, value_line("kinetix_cached_tokens_total"@, v0));
    lemma_joins(p0 + p1, p2, value_line("kinetix_cached_tokens_total"@, v0));
    lemma_joins(p0 + p1 + p2, p3, value_line("kinetix_cached_tokens_total"@, v0));
    lemma_joins(p0, p1, value_line("kinetix_fallback_hops_total"@, v1));
    lemma_joins(p0 + p1, p2, value_line("kinetix_fallback_hops_total"@, v1));
    lemma_joins(p0 + p1 + p2, p3, value_line("kinetix_fallback_hops_total"@, v1));
    lemma_joins(p0 + p1, p2, value_line("kinetix_flight_recorder_requests"@, v2));
    lemma_joins(p0 + p1 + p2, p3, value_line("kinetix_flight_recorder_requests"@, v2));
    lemma_joins(p0 + p1 + p2, p3, value_line("kinetix_flight_recorder_dropped_total"@, v3));
    assert(flight_metrics(m) == p0 + p1 + p2 + p3);
}

/// What is unknown or estimated, the errors and the averages are all told, each
/// under its own name.
pub proof fn law_accounting_numbers_are_told(m: MetricsInput)
    ensures
        m.totals matches Some(u) ==> contains_part(
            accounting_metrics(m),
            value_line("kinetix_usage_unknown_total"@, signed_decimal(u.usage_unknown as int)),
        ),
        m.totals is None ==> contains_part(
            accounting_metrics(m),
            value_line("kinetix_usage_unknown_total"@, "0"@),
        ),
        m.totals matches Some(u) ==> contains_part(
            accounting_metrics(m),
            value_line("kinetix_usage_estimated_total"@, signed_decimal(u.usage_estimated as int)),
        ),
        m.totals is None ==> contains_part(
            accounting_metrics(m),
            value_line("kinetix_usage_estimated_total"@, "0"@),
        ),
        m.totals matches Some(u) ==> contains_part(
            accounting_metrics(m),
            value_line("kinetix_usage_unknown_cost_total"@, signed_decimal(u.unknown_cost as int)),
        ),
        m.totals is None ==> contains_part(
            accounting_metrics(m),
            value_line("kinetix_usage_unknown_cost_total"@, "0"@),
        ),
        m.totals matches Some(u) ==> contains_part(
            accounting_metrics(m),
            value_line("kinetix_error_rate"@, u.error_rate@),
        ),
        m.totals is None ==> contains_part(
            accounting_metrics(m),
            value_line("kinetix_error_rate"@, "0"@),
        ),
        m.totals matches Some(u) ==> contains_part(
            accounting_metrics(m),
            value_line("kinetix_avg_latency_ms"@, u.avg_latency_ms@),
        ),
        m.totals is None ==> contains_part(
            accounting_metrics(m),
            value_line("kinetix_avg_latency_ms"@, "0"@),
        ),
        m.totals matches Some(u) ==> contains_part(
            accounting_metrics(m),
            value_line("kinetix_avg_ttft_ms"@, u.avg_ttft_ms@),
        ),
        m.totals is None ==> contains_part(
            accounting_metrics(m),
            value_line("kinetix_avg_ttft_ms"@, "0"@),
        ),
{
    let v0 = total_or_zero(m.totals, |u: UsageTotals| u.usage_unknown as int);
    let p0 = metric(
        "kinetix_usage_unknown_total"@,
        "Requests without provider-reported usage"@,
        "counter"@,
        v0,
    );
    law_metrics_tell_their_values(
        "kinetix_usage_unknown_total"@,
        "Requests without provider-reported usage"@,
        "counter"@,
        v0,
    );
    let v1 = total_or_zero(m.totals, |u: UsageTotals| u.usage_estimated as int);
    let p1 = metric(
        "kinetix_usage_estimated_total"@,
        "Requests with estimated usage"@,
        "counter"@,
        v1,
    );
    law_metrics_tell_their_values(
        "kinetix_usage_estimated_total"@,
        "Requests with estimated usage"@,
        "counter"@,
        v1,
    );
    let v2 = total_or_zero(m.totals, |u: UsageTotals| u.unknown_cost as int);
    let p2 = metric(
        "kinetix_usage_unknown_cost_total"@,
        "Requests whose cost is unknown"@,
        "counter"@,
        v2,
    );
    law_metrics_tell_their_values(
        "kinetix_usage_unknown_cost_total"@,
        "Requests whose cost is unknown"@,
        "counter"@,
        v2,
    );
    let v3 = text_or_zero(m.totals, |u: UsageTotals| u.error_rate@);
    let p3 = metric(
        "kinetix_error_rate"@,
        "Share of requests that ended in an error"@,
        "gauge"@,
        v3,
    );
    law_metrics_tell_their_values(
        "kinetix_error_rate"@,
        "Share of requests that ended in an error"@,
        "gauge"@,
        v3,
    );
    let v4 = text_or_zero(m.totals, |u: UsageTotals| u.avg_latency_ms@);
    let p4 = metric("kinetix_avg_latency_ms"@, "Average request latency (ms)"@, "gauge"@, v4);
    law_metrics_tell_their_values(
        "kinetix_avg_latency_ms"@,
        "Average request latency (ms)"@,
        "gauge"@,
        v4,
    );
    let v5 = text_or_zero(m.totals, |u: UsageTotals| u.avg_ttft_ms@);
    let p5 = metric("kinetix_avg_ttft_ms"@, "Average time to first token (ms)"@, "gauge"@, v5);
    law_metrics_tell_their_values(
        "kinetix_avg_ttft_ms"@,
        "Average time to first token (ms)"@,
        "gauge"@,
        v5,
    );
    lemma_joins(Seq::empty(), p0, value_line("kinetix_usage_unknown_total"@, v0));
    assert(Seq::<char>::empty() + p0 =~= p0);
    lemma_joins(p0, p1, value_line("kinetix_usage_unknown_total"@, v0));
    lemma_joins(p0 + p1, p2, value_line("kinetix_usage_unknown_total"@, v0));
    lemma_joins(p0 + p1 + p2, p3, value_line("kinetix_usage_unknown_total"@, v0));
    lemma_joins(p0 + p1 + p2 + p3, p4, value_line("kinetix_usage_unknown_total"@, v0));
    lemma_joins(p0 + p1 + p2 + p3 + p4, p5, value_line("kinetix_usage_unknown_total"@, v0));
    lemma_joins(p0, p1, value_line("kinetix_usage_estimated_total"@, v1));
    lemma_joins(p0 + p1, p2, value_line("kinetix_usage_estimated_total"@, v1));
    lemma_joins(p0 + p1 + p2, p3, value_line("kinetix_usage_estimated_total"@, v1));
    lemma_joins(p0 + p1 + p2 + p3, p4, value_line("kinetix_usage_estimated_total"@, v1));
    lemma_joins(p0 + p1 + p2 + p3 + p4, p5, value_line("kinetix_usage_estimated_total"@, v1));
    lemma_joins(p0 + p1, p2, value_line("kinetix_usage_unknown_cost_total"@, v2));
    lemma_joins(p0 + p1 + p2, p3, value_line("kinetix_usage_unknown_cost_total"@, v2));
    lemma_joins(p0 + p1 + p2 + p3, p4, value_line("kinetix_usage_unknown_cost_total"@, v2));
    lemma_joins(p0 + p1 + p2 + p3 + p4, p5, value_line("kinetix_usage_unknown_cost_total"@, v2));
    lemma_joins(p0 + p1 + p2, p3, value_line("kinetix_error_rate"@, v3));
    lemma_joins(p0 + p1 + p2 + p3, p4, value_line("kinetix_error_rate"@, v3));
    lemma_joins(p0 + p1 + p2 + p3 + p4, p5, value_line("kinetix_error_rate"@, v3));
    lemma_joins(p0 + p1 + p2 + p3, p4, value_line("kinetix_avg_latency_ms"@, v4));
    lemma_joins(p0 + p1 + p2 + p3 + p4, p5, value_line("kinetix_avg_latency_ms"@, v4));
    lemma_joins(p0 + p1 + p2 + p3 + p4, p5, value_line("kinetix_avg_ttft_ms"@, v5));
    assert(accounting_metrics(m) == p0 + p1 + p2 + p3 + p4 + p5);
}

/// Streams, rejected addresses and failed credentials are all told, each under its
/// own name.
pub proof fn law_process_numbers_are_told(m: MetricsInput)
    ensures
        contains_part(
            process_metrics(m),
            value_line("kinetix_active_streams"@, decimal(m.active_streams as nat)),
        ),
        contains_part(
            process_metrics(m),
            value_line("kinetix_ip_rate_limited_total"@, decimal(m.ip_rate_limited as nat)),
        ),
        contains_part(
            process_metrics(m),
            value_line("kinetix_credential_failures_total"@, decimal(m.credential_failures as nat)),
        ),
{
    let v0 = decimal(m.active_streams as nat);
    let p0 = metric("kinetix_active_streams"@, "Requests in flight"@, "gauge"@, v0);
    law_metrics_tell_their_values("kinetix_active_streams"@, "Requests in flight"@, "gauge"@, v0);
    let v1 = decimal(m.ip_rate_limited as nat);
    let p1 = metric(
        "kinetix_ip_rate_limited_total"@,
        "Requests rejected by the per-IP limit"@,
        "counter"@,
        v1,
    );
    law_metrics_tell_their_values(
        "kinetix_ip_rate_limited_total"@,
        "Requests rejected by the per-IP limit"@,
        "counter"@,
        v1,
    );
    let v2 = decimal(m.credential_failures as nat);
    let p2 = metric(
        "kinetix_credential_failures_total"@,
        "Credentials that could not be resolved"@,
        "counter"@,
        v2,
    );
    law_metrics_tell_their_values(
        "kinetix_credential_failures_total"@,
        "Credentials that could not be resolved"@,
        "counter"@,
        v2,
    );
    lemma_joins(Seq::empty(), p0, value_line("kinetix_active_streams"@, v0));
    assert(Seq::<char>::empty() + p0 =~= p0);
    lemma_joins(p0, p1, value_line("kinetix_active_streams"@, v0));
    lemma_joins(p0 + p1, p2, value_line("kinetix_active_streams"@, v0));
    lemma_joins(p0, p1, value_line("kinetix_ip_rate_limited_total"@, v1));
    lemma_joins(p0 + p1, p2, value_line("kinetix_ip_rate_limited_total"@, v1));
    lemma_joins(p0 + p1, p2, value_line("kinetix_credential_failures_total"@, v2));
    assert(process_metrics(m) == p0 + p1 + p2);
}

/// The state of the accounts is told state by state.
pub proof fn law_account_numbers_are_told(m: MetricsInput)
    ensures
        contains_part(account_metrics(m), status_line(m.accounts@, "healthy"@)),
        contains_part(account_metrics(m), status_line(m.accounts@, "cooldown"@)),
        contains_part(account_metrics(m), status_line(m.accounts@, "exhausted"@)),
        contains_part(account_metrics(m), status_line(m.accounts@, "disabled"@)),
        status_line(m.accounts@, "healthy"@) == "kinetix_account_status{status=\""@ + "healthy"@
            + "\"} "@ + decimal(with_status(m.accounts@, "healthy"@)) + "\n"@,
{
    let h = metric_head("kinetix_account_status"@, "Account health by status"@, "gauge"@);
    let a = status_line(m.accounts@, "healthy"@);
    let b = status_line(m.accounts@, "cooldown"@);
    let c = status_line(m.accounts@, "exhausted"@);
    let d = status_line(m.accounts@, "disabled"@);
    lemma_itself(a);
    lemma_itself(b);
    lemma_itself(c);
    lemma_itself(d);
    lemma_joins(h, a, a);
    lemma_joins(h + a, b, a);
    lemma_joins(h + a + b, c, a);
    lemma_joins(h + a + b + c, d, a);
    lemma_joins(h + a, b, b);
    lemma_joins(h + a + b, c, b);
    lemma_joins(h + a + b + c, d, b);
    lemma_joins(h + a + b, c, c);
    lemma_joins(h + a + b + c, d, c);
    lemma_joins(h + a + b + c, d, d);
}

proof fn lemma_itself(s: Seq<char>)
    ensures
        contains_part(s, s),
{
    law_parts_occur(Seq::empty(), s, Seq::empty());
    assert(Seq::<char>::empty() + s + Seq::<char>::empty() =~= s);
}

proof fn lemma_joins(a: Seq<char>, b: Seq<char>, part: Seq<char>)
    requires
        contains_part(a, part) || contains_part(b, part),
    ensures
        contains_part(a + b, part),
{
    let none = Seq::<char>::empty();
    if contains_part(a, part) {
        lemma_within(none, a, b, part);
        assert(none + a + b =~= a + b);
    } else {
        lemma_within(a, b, none, part);
        assert(a + b + none =~= a + b);
    }
}

/// Whatever a part of the report tells, the report tells.
pub proof fn law_the_report_tells_all(m: MetricsInput, part: Seq<char>)
    requires
        contains_part(store_metrics(m), part) || contains_part(account_metrics(m), part)
            || contains_part(failure_metrics(m), part) || contains_part(flight_metrics(m), part)
            || contains_part(accounting_metrics(m), part) || contains_part(process_metrics(m), part),
    ensures
        contains_part(metrics_text(m), part),
{
    let a = store_metrics(m);
    let b = account_metrics(m);
    let c = failure_metrics(m);
    let d = flight_metrics(m);
    let e = accounting_metrics(m);
    let f = process_metrics(m);
    if contains_part(a, part) || contains_part(b, part) {
        lemma_joins(a, b, part);
    }
    if contains_part(a + b, part) || contains_part(c, part) {
        lemma_joins(a + b, c, part);
    }
    if contains_part(a + b + c, part) || contains_part(d, part) {
        lemma_joins(a + b + c, d, part);
    }
    if contains_part(a + b + c + d, part) || contains_part(e, part) {
        lemma_joins(a + b + c + d, e, part);
    }
    lemma_joins(a + b + c + d + e, f, part);
}

} // verus!
