//! Alerts, live requests, metrics, the log queue, costs and the capacity rig.

use kinetix::alerts::{
    breach_sustained, count_errors, count_fallbacks, evaluate, record_added_latency, settle,
    AlertState, BudgetStatus, Check, Detail, Evaluation, LatencyWindow, Notice, Rate, RecentUsage,
    RouteStatus, Verdict,
};
use kinetix::bench::{
    content_length, find, merge_stats, parse_size, percentile, reply_frames, reply_head,
    request_text, split_url, RequestReader, Stats,
};
use kinetix::cost::{bill, Bill, BillItem, Prices};
use kinetix::live::LiveRequests;
use kinetix::logqueue::UsageLogQueue;
use kinetix::metrics::{count_status, metrics, MetricsInput, UsageTotals};
use kinetix::number::{at_least, is_below, is_positive};
use kinetix::params::{settle_param, ParamFate, ParamPolicy, ParamRule};
use kinetix::pipeline::UsageLogRow;
use kinetix::registry::Registry;
use kinetix::text::{head, join, lines, split, tail, trim};
use kinetix::types::{AccountRow, Dollars, RouteTargetRow, TokenUsage};

fn dollars(x: f64) -> Dollars {
    Dollars { bits: x.to_bits() }
}

fn account(id: &str, status: &str) -> AccountRow {
    AccountRow {
        id: id.to_string(),
        provider_id: "p".to_string(),
        label: format!("label-{id}"),
        secret_enc: "".to_string(),
        secret_mask: "".to_string(),
        priority: 1,
        weight: 1,
        status: status.to_string(),
        cooldown_until: None,
        quota_type: "none".to_string(),
        quota_window_s: None,
        quota_reset_at: None,
        soft_quota_usd: None,
        last_error: None,
        failures: 0,
    }
}

fn row(id: &str) -> UsageLogRow {
    UsageLogRow {
        id: id.to_string(),
        request_id: "".to_string(),
        ts: "".to_string(),
        key_id: None,
        key_name: None,
        client_format: "openai".to_string(),
        requested_model: "".to_string(),
        effective_model: None,
        route_id: None,
        route_name: None,
        fallback_hops: 0,
        fallback_path: "[]".to_string(),
        status: "success".to_string(),
        status_code: 200,
        latency_ms: None,
        ttft_ms: None,
        input_tokens: None,
        output_tokens: None,
        cached_tokens: None,
        thinking_tokens: None,
        cost_usd: None,
        cost_known: 0,
        price_version_id: None,
        cache_status: "none".to_string(),
        serving_account_id: None,
        serving_account: None,
        serving_provider: None,
        upstream_request_id: None,
        flagged: 0,
        error_message: None,
    }
}

#[test]
fn alerts_are_edge_triggered() {
    let mut a = AlertState::new();
    assert!(a.should_fire("x"));
    assert!(!a.should_fire("x"), "a firing alert does not re-fire");
    assert!(a.should_resolve("x"));
    assert!(!a.should_resolve("x"), "resolving twice is a no-op");
    assert!(a.should_fire("x"), "after resolving it can fire again");
}

fn quiet() -> Evaluation {
    let rate = || Rate {
        bits: 0.0f64.to_bits(),
        percent: "0".to_string(),
        threshold: 0.5f64.to_bits(),
    };
    Evaluation {
        total: 100,
        min_requests: 20,
        fallback: rate(),
        errors: rate(),
        accounts: vec![],
        routes: vec![],
        p95_ms: None,
        latency_threshold_ms: 50,
        latency_sustained: false,
        queue_depth: 0,
        queue_capacity: 100,
        queue_dropped: 0,
        backup_failed: false,
        last_backup_at: None,
        budgets: vec![],
        credential_failures: 0,
        credential_failures_before: 0,
    }
}

fn fired(n: &[Notice]) -> Vec<(String, String)> {
    n.iter()
        .filter_map(|x| match x {
            Notice::Fire { key, message, .. } => Some((key.clone(), message.clone())),
            _ => None,
        })
        .collect()
}

#[test]
fn every_watched_condition_fires_and_resolves() {
    let reg = Registry::new();
    let s = reg.snapshot();
    let mut state = AlertState::new();
    assert!(evaluate(&mut state, &quiet(), s).is_empty());
    let mut e = quiet();
    e.fallback.bits = 0.5f64.to_bits();
    e.fallback.percent = "50".to_string();
    e.errors.bits = 0.9f64.to_bits();
    e.errors.percent = "90".to_string();
    e.accounts = vec![account("a", "exhausted"), account("b", "healthy")];
    e.routes = vec![RouteStatus {
        id: "r".to_string(),
        name: "coder".to_string(),
        enabled: 1,
        targets: vec![RouteTargetRow {
            route_id: "r".to_string(),
            model_id: "gone".to_string(),
            account_id: None,
            priority: 1,
            weight: 1,
        }],
    }];
    e.p95_ms = Some(80);
    e.latency_sustained = true;
    e.queue_depth = 80;
    e.backup_failed = true;
    e.budgets = vec![BudgetStatus {
        id: "k".to_string(),
        name: "dev".to_string(),
        spend: dollars(8.0),
        spend_text: "$8.00".to_string(),
        budget: Some(dollars(10.0)),
        budget_text: "$10.00".to_string(),
        limit: dollars(8.0),
    }];
    e.credential_failures = 7;
    e.credential_failures_before = 4;
    let n = evaluate(&mut state, &e, s);
    let got = fired(&n);
    let has = |k: &str, m: &str| got.contains(&(k.to_string(), m.to_string()));
    assert!(has("high_fallback_rate", "Route fallback rate is 50% over the last 100 requests"));
    assert!(has("high_error_rate", "Error rate is 90% over the last 100 requests"));
    assert!(has("account_unhealthy:a", "Account 'label-a' is exhausted"));
    assert!(has("route_unavailable:r", "Route 'coder' has no healthy target"));
    assert!(has(
        "high_added_latency",
        "p95 added proxy latency is 80 ms (threshold 50 ms for 10m)"
    ));
    assert!(has("usage_queue_saturated", "usage-log queue depth 80/100, dropped 0"));
    assert!(has("backup_failed", "the last scheduled database backup failed"));
    assert!(has(
        "key_budget:k",
        "virtual key 'dev' has spent $8.00 of its $10.00 monthly budget"
    ));
    assert!(has(
        "credential_failures",
        "resolving a credential failed 3 times since the last evaluation"
    ));
    assert_eq!(got.len(), 9);
    assert!(evaluate(&mut state, &e, s).is_empty());
    e.accounts = vec![account("a", "healthy"), account("b", "healthy")];
    e.queue_depth = 79;
    let n = evaluate(&mut state, &e, s);
    assert_eq!(n.len(), 2);
    assert!(n.iter().all(|x| matches!(x, Notice::Resolve { .. })));
    let mut once = quiet();
    once.credential_failures = 1;
    assert!(fired(&evaluate(&mut AlertState::new(), &once, s)).is_empty());
    let mut few = quiet();
    few.total = 19;
    few.errors.bits = 1.0f64.to_bits();
    assert!(fired(&evaluate(&mut AlertState::new(), &few, s)).is_empty());
}

#[test]
fn a_pending_check_changes_nothing() {
    let check = |v| {
        vec![Check {
            key: "k".to_string(),
            verdict: v,
            message: "m".to_string(),
            detail: Detail::Backup { last_at: None },
        }]
    };
    let mut a = AlertState::new();
    assert!(settle(&mut a, check(Verdict::Pending)).is_empty());
    assert_eq!(settle(&mut a, check(Verdict::Firing)).len(), 1);
    assert!(settle(&mut a, check(Verdict::Pending)).is_empty());
    assert_eq!(settle(&mut a, check(Verdict::Clear)).len(), 1);
}

#[test]
fn the_latency_window_slides() {
    let mut w = LatencyWindow::new();
    assert_eq!(w.latency_p95(), None);
    for i in 0..20 {
        record_added_latency(&mut w, 1000, i);
    }
    assert_eq!(w.latency_p95(), Some(19));
    record_added_latency(&mut w, 1000 + 600_001, 7);
    assert_eq!(w.latency_p95(), None);
    let mut since = None;
    assert!(!breach_sustained(&mut since, true, 0));
    assert!(!breach_sustained(&mut since, true, 599_999));
    assert!(breach_sustained(&mut since, true, 600_000));
    assert!(!breach_sustained(&mut since, false, 600_001));
    assert_eq!(since, None);
}

#[test]
fn recent_requests_are_counted() {
    let u = |hops, status: &str, code| RecentUsage {
        fallback_hops: hops,
        status: status.to_string(),
        status_code: code,
    };
    let list = vec![u(0, "success", 200), u(2, "success", 200), u(0, "stream_error", 502)];
    assert_eq!(count_fallbacks(&list), 1);
    assert_eq!(count_errors(&list), 1);
}

#[test]
fn tracks_lifecycle_and_bounds_memory() {
    let mut lr = LiveRequests::new(4);
    for i in 0..10 {
        lr.start(&format!("r{i}"), "openai", "m", None, None);
    }
    assert!(lr.snapshot().len() <= 4);
    assert!(lr.dropped() > 0);

    lr.start("x", "openai", "m", Some("key".into()), Some("route".into()));
    lr.mark_committed("x");
    lr.set_ttft("x", 12);
    lr.set_fallback_hops("x", 1, 1);
    lr.finish("x", "success", 99, Some(10), Some(20));
    let snap = lr.snapshot();
    let x = snap.iter().find(|r| r.request_id == "x").unwrap();
    assert_eq!(x.commit_state, "committed");
    assert_eq!(x.status, "success");
    assert_eq!(x.fallback_hops, 1);
    assert_eq!(x.input_tokens, Some(10));
    assert!(x.finished);
    assert!(lr.live_count() < snap.len());
}

#[test]
fn streaming_is_a_phase() {
    let mut lr = LiveRequests::new(2);
    lr.start("x", "openai", "m", None, None);
    lr.mark_streaming("x");
    lr.mark_streaming("nobody");
    let snap = lr.snapshot_at(5);
    assert_eq!(snap.len(), 1);
    assert_ne!(snap[0].phase, "selecting");
    assert_eq!(lr.live_count(), 1);
}

fn input() -> MetricsInput {
    MetricsInput {
        store_healthy: true,
        totals: Some(UsageTotals {
            requests: 12,
            cost_usd: "0.25".to_string(),
            cached_tokens: 3,
            fallback_hops: 4,
            usage_unknown: 1,
            usage_estimated: 0,
            unknown_cost: 2,
            error_rate: "0.5".to_string(),
            avg_latency_ms: "10".to_string(),
            avg_ttft_ms: "5".to_string(),
        }),
        accounts: vec![account("a", "healthy"), account("b", "healthy"), account("c", "disabled")],
        log_queue_depth: 1,
        log_queue_dropped: 2,
        failures_pre_commit: 3,
        failures_post_commit: 4,
        cancellations: 5,
        avg_cancellation_ms: "1.5".to_string(),
        flight_requests: 6,
        flight_dropped: 7,
        active_streams: 8,
        ip_rate_limited: 9,
        credential_failures: 10,
    }
}

#[test]
fn metrics_have_help_type_and_value() {
    let m = metrics(&input());
    assert!(m.starts_with(
        "# HELP kinetix_control_plane_degraded 1 when the control-plane store is unavailable\n\
         # TYPE kinetix_control_plane_degraded gauge\n\
         kinetix_control_plane_degraded 0\n\
         # HELP kinetix_requests_total Total proxied requests\n\
         # TYPE kinetix_requests_total counter\n\
         kinetix_requests_total 12\n\
         # HELP kinetix_cost_usd_total Total computed cost in USD\n\
         # TYPE kinetix_cost_usd_total counter\n\
         kinetix_cost_usd_total 0.25\n"
    ));
    assert!(m.contains(
        "# HELP kinetix_account_status Account health by status\n\
         # TYPE kinetix_account_status gauge\n\
         kinetix_account_status{status=\"healthy\"} 2\n\
         kinetix_account_status{status=\"cooldown\"} 0\n\
         kinetix_account_status{status=\"exhausted\"} 0\n\
         kinetix_account_status{status=\"disabled\"} 1\n"
    ));
    for line in [
        "kinetix_log_queue_depth 1",
        "kinetix_log_queue_dropped_total 2",
        "kinetix_failures_pre_commit_total 3",
        "kinetix_failures_post_commit_total 4",
        "kinetix_cancellations_total 5",
        "kinetix_cancellation_latency_ms 1.5",
        "kinetix_cached_tokens_total 3",
        "kinetix_fallback_hops_total 4",
        "kinetix_flight_recorder_requests 6",
        "kinetix_flight_recorder_dropped_total 7",
        "kinetix_usage_unknown_total 1",
        "kinetix_usage_unknown_cost_total 2",
        "kinetix_error_rate 0.5",
        "kinetix_active_streams 8",
        "kinetix_ip_rate_limited_total 9",
        "kinetix_credential_failures_total 10",
    ] {
        assert!(m.lines().any(|l| l == line), "{line}");
    }
}

#[test]
fn metrics_survive_a_lost_store() {
    let mut i = input();
    i.store_healthy = false;
    i.totals = None;
    i.accounts = vec![];
    let m = metrics(&i);
    assert!(m.lines().any(|l| l == "kinetix_control_plane_degraded 1"));
    assert!(m.lines().any(|l| l == "kinetix_requests_total 0"));
    assert!(m.lines().any(|l| l == "kinetix_cost_usd_total 0"));
    assert!(m.lines().any(|l| l == "kinetix_log_queue_depth 1"));
    assert_eq!(count_status(&vec![account("a", "cooldown")], "cooldown"), 1);
}

#[test]
fn a_full_log_queue_drops_and_counts() {
    let mut q = UsageLogQueue::new(2);
    q.enqueue(row("1"));
    q.enqueue(row("2"));
    q.enqueue(row("3"));
    assert_eq!(q.depth(), 2);
    assert_eq!(q.dropped(), 1);
    let batch = q.take_batch();
    assert_eq!(batch.iter().map(|r| r.id.as_str()).collect::<Vec<_>>(), vec!["1", "2"]);
    assert_eq!(q.depth(), 2);
    q.enqueue(row("4"));
    assert!(q.take_batch().is_empty());
    q.settle_row(true);
    q.settle_row(false);
    assert_eq!(q.dropped(), 2);
    assert_eq!(q.depth(), 1);
    assert_eq!(q.take_batch().len(), 1);
}

#[test]
fn batches_are_bounded() {
    let mut q = UsageLogQueue::new(1000);
    for i in 0..200 {
        q.enqueue(row(&i.to_string()));
    }
    assert_eq!(q.take_batch().len(), 128);
    for _ in 0..128 {
        q.settle_row(true);
    }
    assert_eq!(q.take_batch().len(), 72);
}

fn amount(i: &BillItem) -> f64 {
    i.tokens as f64 * f64::from_bits(i.price_per_1m.bits)
}

fn total(b: &Bill) -> f64 {
    (amount(&b.input) + amount(&b.cached) + amount(&b.output) + amount(&b.thinking)) / 1_000_000.0
}

#[test]
fn unknown_when_unpriced() {
    let p = Prices::default();
    let u = TokenUsage {
        input: Some(100),
        output: Some(50),
        ..Default::default()
    };
    assert!(bill(&p, &u).is_none());
}

#[test]
fn computes_with_cache_and_thinking() {
    let p = Prices {
        input_per_1m: Some(dollars(1.0)),
        output_per_1m: Some(dollars(2.0)),
        cached_per_1m: Some(dollars(0.1)),
        thinking_per_1m: Some(dollars(2.0)),
    };
    let u = TokenUsage {
        input: Some(1_000_000),
        output: Some(1_000_000),
        cached: Some(500_000),
        thinking: Some(100_000),
    };
    let cost = total(&bill(&p, &u).unwrap());
    assert!((cost - 2.75).abs() < 1e-9, "got {cost}");
}

#[test]
fn prices_fall_back_to_their_kind() {
    let p = Prices { input_per_1m: Some(dollars(3.0)), ..Default::default() };
    let u = TokenUsage {
        input: Some(10),
        output: Some(4),
        cached: Some(20),
        thinking: None,
    };
    let b = bill(&p, &u).unwrap();
    assert_eq!(b.input.tokens, 0);
    assert_eq!(b.cached.price_per_1m, dollars(3.0));
    assert_eq!(b.thinking.price_per_1m, dollars(0.0));
    assert!(bill(&p, &TokenUsage { output: None, ..u }).is_none());
}

#[test]
fn parameters_are_forwarded_clamped_rejected_or_dropped() {
    let b = |x: f64| x.to_bits();
    let rule = |policy| ParamRule {
        supported: true,
        policy,
        min: Some(b(0.0)),
        max: Some(b(1.0)),
        default: Some(b(0.7)),
    };
    assert_eq!(settle_param(None, Some(b(9.0))), ParamFate::Send(b(9.0)));
    assert_eq!(settle_param(None, None), ParamFate::Omit);
    assert_eq!(settle_param(Some(rule(ParamPolicy::Clamp)), None), ParamFate::Send(b(0.7)));
    assert_eq!(settle_param(Some(rule(ParamPolicy::Clamp)), Some(b(2.0))), ParamFate::Send(b(1.0)));
    assert_eq!(settle_param(Some(rule(ParamPolicy::Clamp)), Some(b(-2.0))), ParamFate::Send(b(0.0)));
    assert_eq!(settle_param(Some(rule(ParamPolicy::Reject)), Some(b(2.0))), ParamFate::Reject);
    assert_eq!(settle_param(Some(rule(ParamPolicy::Forward)), Some(b(2.0))), ParamFate::Send(b(2.0)));
    assert_eq!(settle_param(Some(rule(ParamPolicy::Drop)), Some(b(0.5))), ParamFate::Omit);
    let off = ParamRule { supported: false, ..rule(ParamPolicy::Clamp) };
    assert_eq!(settle_param(Some(off), Some(b(0.5))), ParamFate::Omit);
}

#[test]
fn doubles_are_compared_by_their_bits() {
    let b = |x: f64| x.to_bits();
    assert!(at_least(b(1.0), b(1.0)) && at_least(b(0.0), b(-0.0)) && at_least(b(-0.0), b(0.0)));
    assert!(is_below(b(-1.0), b(0.5)) && !is_below(b(f64::NAN), b(1.0)));
    assert!(is_positive(b(f64::MIN_POSITIVE)) && !is_positive(b(0.0)) && !is_positive(b(-3.0)));
    assert!(is_below(b(f64::MAX), b(f64::INFINITY)));
}

#[test]
fn requests_are_read_as_they_arrive() {
    let mut r = RequestReader::new();
    r.push(b"POST / HTTP/1.1\r\nContent-Length: 5\r\n");
    assert!(!r.is_complete());
    r.push(b"\r\nab");
    assert!(!r.is_complete());
    r.push(b"cde");
    assert!(r.is_complete());
    assert_eq!(content_length("x: 1\r\nCONTENT-length:  42 \r\n"), 42);
    assert_eq!(content_length("content-length: many\r\n"), 0);
    assert_eq!(parse_size("+7"), Some(7));
    assert_eq!(parse_size("18446744073709551616"), None);
    assert_eq!(parse_size(""), None);
    assert_eq!(find(b"abcabc", b"ca"), Some(2));
    assert_eq!(find(b"ab", b"abc"), None);
}

#[test]
fn answers_have_one_frame_per_token() {
    assert!(reply_head().ends_with("\r\n\r\n"));
    let whole: String = reply_frames(3).concat();
    assert_eq!(whole.matches("\"content\":\"lorem\"").count(), 3);
    assert_eq!(whole.matches("\"role\":\"assistant\"").count(), 1);
    assert!(whole.ends_with("data: [DONE]\n\n"));
    assert_eq!(reply_frames(0).len(), 1);
    assert_eq!(reply_frames(3).len(), 4);
}

#[test]
fn load_requests_announce_their_bodies() {
    let (host, path) = split_url("http://127.0.0.1:9/v1/chat");
    assert_eq!((host.as_str(), path.as_str()), ("127.0.0.1:9", "/v1/chat"));
    assert_eq!(split_url("h:1"), ("h:1".to_string(), "/".to_string()));
    let t = request_text(&host, &path, 40);
    let (head, body) = t.split_once("\r\n\r\n").unwrap();
    assert!(head.starts_with("POST /v1/chat HTTP/1.1\r\nHost: 127.0.0.1:9\r\n"));
    assert_eq!(content_length(head), body.len());
    assert_eq!(
        body,
        "{\"model\":\"syn\",\"stream\":true,\"max_tokens\":40,\"messages\":[{\"role\":\"user\",\"content\":\"hi\"}]}"
    );
    let mut r = RequestReader::new();
    r.push(t.as_bytes());
    assert!(r.is_complete());
}

#[test]
fn measurements_are_merged_and_ranked() {
    let s = merge_stats(vec![
        Stats { ttft_us: vec![3], total_us: vec![30], errors: 1 },
        Stats { ttft_us: vec![1, 2], total_us: vec![10, 20], errors: 2 },
    ]);
    assert_eq!(s.ttft_us, vec![3, 1, 2]);
    assert_eq!(s.errors, 3);
    assert_eq!(percentile(&s.total_us, 50), 20);
    assert_eq!(percentile(&s.total_us, 99), 30);
    assert_eq!(percentile(&s.total_us, 0), 10);
    assert_eq!(percentile(&vec![], 50), 0);
}

#[test]
fn texts_are_cut_and_joined() {
    assert_eq!(trim(" \t\u{a0}x \n"), "x");
    assert_eq!(lines("a\r\nb\n"), vec!["a", "b"]);
    assert_eq!(split("a,b,,", ','), vec!["a", "b", "", ""]);
    assert_eq!(join(&vec!["a".to_string(), "b".to_string()], "/"), "a/b");
    assert_eq!(head("h\u{e9}llo", 3), "h\u{e9}");
    assert_eq!(tail("h\u{e9}llo", 3), "llo");
}
