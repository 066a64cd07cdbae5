//! Accounts, limits, the registry, ordering, attempts and streams.

use kinetix::affinity::Affinity;
use kinetix::attempt::{
    clock_allows, default_quota_window, failure_to_error, handle_key_failure, read_triggers,
    stored_triggers, Action, Event, Plan, Progress, Triggers,
};
use kinetix::clock::{parse_dt, seconds_between, to_rfc3339, window_start_at, Timestamp};
use kinetix::json::parse_json;
use kinetix::limits::{after_daily_spend, after_monthly_spend, after_usage, begin, enforce, permits_model, LimitStep, SpendReport};
use kinetix::order::{order_by_key, rotate_left};
use kinetix::pipeline::{
    body_log_days, check_param_policy, classify_send_error, extract_upstream_request_id,
    finalize_log, find_destination, make_plan, response_headers, send_failure, single_targets,
    Bound, Destination, Outcome, Param, ParamSpec, RequestMeta,
};
use kinetix::plan::{
    apply_continuity, arrange_accounts, filter_targets, has_opaque_state, max_attempts,
    order_route_targets, order_targets, select_accounts, sum_weights, TargetFit,
};
use kinetix::pool::{
    clear_cooldown, decide_status, effective_status, has_limit, is_available, mark_exhausted,
    mark_healthy, mark_rate_limited, reaches, soft_quota_reached, soonest_recovery, status_at, window_start,
    AccountStatus,
};
use kinetix::registry::{Registry, Resolved, ResolvedTarget, RouteTargets, StoredConfig};
use kinetix::request::{covers, read_capabilities, read_conversation, read_needs};
use kinetix::stream::{Ending, StreamAction, StreamDriver, StreamInput};
use kinetix::types::{
    AccountRow, AliasRow, Dollars, ErrorKind, FailureKind, FrontendFormat, Message, ModelRow, Part,
    ProviderRow, ProxyError, Role, RouteRow, RouteTargetRow, TokenUsage, UpstreamFailure,
    VirtualKeyRow,
};

fn dollars(x: f64) -> Dollars {
    Dollars { bits: x.to_bits() }
}

fn t(text: &str) -> Timestamp {
    parse_dt(text).unwrap()
}

fn account(id: &str, provider: &str, priority: i64) -> AccountRow {
    AccountRow {
        id: id.to_string(),
        provider_id: provider.to_string(),
        label: format!("label-{id}"),
        secret_enc: "".to_string(),
        secret_mask: "".to_string(),
        priority,
        weight: 1,
        status: "healthy".to_string(),
        cooldown_until: None,
        quota_type: "none".to_string(),
        quota_window_s: None,
        quota_reset_at: None,
        soft_quota_usd: None,
        last_error: None,
        failures: 0,
    }
}

fn provider(id: &str, name: &str) -> ProviderRow {
    ProviderRow {
        id: id.to_string(),
        name: name.to_string(),
        base_url: "https://api.example.com".to_string(),
        wire_format: "openai".to_string(),
        auth_scheme: "bearer".to_string(),
        custom_header_name: None,
        custom_param_name: None,
        extra_headers: "{}".to_string(),
        timeout_ms: 1000,
        capability_mode: "permissive".to_string(),
        models_path: None,
        enabled: 1,
    }
}

fn model(id: &str, provider: &str, upstream: &str) -> ModelRow {
    ModelRow {
        id: id.to_string(),
        provider_id: provider.to_string(),
        upstream_id: upstream.to_string(),
        display_name: format!("Model {id}"),
        enabled: 1,
        context_window: Some(1000),
        max_output_tokens: None,
        capabilities: "{}".to_string(),
        prices: "{}".to_string(),
        parameters: "{}".to_string(),
        thinking_map: "{}".to_string(),
        extra_request: "{}".to_string(),
        discovery: "{}".to_string(),
        created_at: "".to_string(),
    }
}

fn route(policy: &str) -> RouteRow {
    RouteRow {
        id: "r1".to_string(),
        name: "coder".to_string(),
        strategy: "priority".to_string(),
        continuity_policy: policy.to_string(),
        max_attempts: None,
        enabled: 1,
    }
}

fn target(n: &str, provider_id: &str, priority: i64, weight: i64) -> ResolvedTarget {
    ResolvedTarget {
        account: account(n, provider_id, 1),
        model: model(&format!("m-{n}"), provider_id, "up"),
        provider: provider(provider_id, &format!("Provider {provider_id}")),
        priority,
        weight,
    }
}

fn key() -> VirtualKeyRow {
    VirtualKeyRow {
        id: "key_1".to_string(),
        key_hash: "h".to_string(),
        name: "dev".to_string(),
        owner: "o".to_string(),
        tag: "".to_string(),
        allowed_models: "[\"*\"]".to_string(),
        allowed_providers: "[]".to_string(),
        rpm_limit: Some(10),
        tpm_limit: Some(1000),
        daily_budget: Some(dollars(5.0)),
        monthly_budget: Some(dollars(50.0)),
        expires_at: None,
        status: "active".to_string(),
        allowed_ips: "[]".to_string(),
        body_logging: 0,
        created_at: "".to_string(),
        revoked_at: None,
    }
}

fn spent(x: f64) -> Option<SpendReport> {
    Some(SpendReport {
        spent: dollars(x),
        spent_text: format!("{x:.2}"),
        budget_text: "5.00".to_string(),
    })
}

fn failure(kind: FailureKind, retry: Option<u64>) -> UpstreamFailure {
    UpstreamFailure {
        kind,
        status: Some(500),
        retry_after_secs: retry,
        message: "upstream said no".to_string(),
        quota_reset_at: None,
    }
}

fn labels(v: &[ResolvedTarget]) -> Vec<String> {
    v.iter().map(|x| x.account.id.clone()).collect()
}

#[test]
fn times_are_read_and_written() {
    let a = t("2026-03-15T10:20:30Z");
    assert_eq!(a.secs, 1773570030);
    assert_eq!(to_rfc3339(a), "2026-03-15T10:20:30+00:00");
    assert_eq!(t("2026-03-15T12:20:30+02:00"), a);
    assert!(parse_dt("yesterday").is_none());
    assert_eq!(seconds_between(t("2026-03-15T10:21:30Z"), a), 60);
    assert_eq!(seconds_between(a, t("2026-03-15T10:21:30Z")), -60);
}

#[test]
fn quota_windows_begin_where_their_kind_says() {
    let now = t("2026-03-15T10:20:30Z");
    let at = |kind, w| to_rfc3339(window_start_at(kind, w, now));
    assert_eq!(at("daily", None), "2026-03-15T00:00:00+00:00");
    assert_eq!(at("monthly", None), "2026-03-01T00:00:00+00:00");
    assert_eq!(at("rolling", Some(3600)), "2026-03-15T09:20:30+00:00");
    assert_eq!(at("none", None), "2026-03-14T10:20:30+00:00");
    assert!(window_start("daily", None).ends_with("T00:00:00+00:00"));
}

#[test]
fn what_is_stored_of_an_account_is_read_back() {
    let now = t("2026-03-15T10:20:30.5Z");
    let mut a = account("a", "p", 1);
    let (change, until) = mark_rate_limited(30, "slow down", now);
    assert_eq!(change.cooldown_until.as_deref(), Some("2026-03-15T10:21:00.500+00:00"));
    a.status = change.status;
    a.cooldown_until = change.cooldown_until;
    assert_eq!(status_at(&a, now), AccountStatus::Cooldown);
    assert_eq!(status_at(&a, t("2026-03-15T10:21:00.499999999Z")), AccountStatus::Cooldown);
    assert_eq!(status_at(&a, until), AccountStatus::Healthy);
    let (change, reset) = mark_exhausted(None, 3600, "no quota", now);
    a.status = change.status;
    a.quota_reset_at = change.quota_reset_at;
    assert_eq!(status_at(&a, t("2026-03-15T11:20:30Z")), AccountStatus::Exhausted);
    assert_eq!(status_at(&a, reset), AccountStatus::Healthy);
}

#[test]
fn cooldowns_and_quotas_end_by_themselves() {
    let now = t("2026-03-15T10:20:30Z");
    let mut a = account("a", "p", 1);
    assert_eq!(status_at(&a, now), AccountStatus::Healthy);
    assert!(is_available(&a));
    assert_eq!(effective_status(&a), AccountStatus::Healthy);
    a.status = "cooldown".to_string();
    a.cooldown_until = Some("2026-03-15T10:20:31Z".to_string());
    assert_eq!(status_at(&a, now), AccountStatus::Cooldown);
    assert_eq!(status_at(&a, t("2026-03-15T10:20:31Z")), AccountStatus::Healthy);
    a.status = "circuit_open".to_string();
    assert_eq!(status_at(&a, now), AccountStatus::CircuitOpen);
    assert_eq!(status_at(&a, t("2026-03-15T10:20:31Z")), AccountStatus::Healthy);
    a.status = "exhausted".to_string();
    assert_eq!(status_at(&a, now), AccountStatus::Exhausted);
    a.quota_reset_at = Some("2026-03-15T10:00:00Z".to_string());
    assert_eq!(status_at(&a, now), AccountStatus::Healthy);
    a.status = "disabled".to_string();
    assert_eq!(status_at(&a, now), AccountStatus::Disabled);
    assert!(!is_available(&a));
    assert_eq!(effective_status(&a), AccountStatus::Disabled);
    assert_eq!(
        decide_status(AccountStatus::Cooldown, None, None, now),
        AccountStatus::Healthy
    );
    assert_eq!(AccountStatus::parse("circuit_open").as_str(), "circuit_open");
    assert_eq!(AccountStatus::parse("whatever"), AccountStatus::Healthy);
}

#[test]
fn changes_of_health_are_stored() {
    let now = t("2026-03-15T10:20:30Z");
    let (c, until) = mark_rate_limited(30, "429 for key AIzaSyABCDEFGHIJKLMNOP", now);
    assert_eq!(c.status, "cooldown");
    assert_eq!(c.cooldown_until.as_deref(), Some("2026-03-15T10:21:00+00:00"));
    assert_eq!(to_rfc3339(until), "2026-03-15T10:21:00+00:00");
    assert!(c.last_error.unwrap().contains("[REDACTED]"));
    let (c, _) = mark_exhausted(None, 86_400, "quota", now);
    assert_eq!(c.status, "exhausted");
    assert_eq!(c.quota_reset_at.as_deref(), Some("2026-03-16T10:20:30+00:00"));
    let (c, _) = mark_exhausted(Some(t("2026-04-01T00:00:00Z")), 86_400, "quota", now);
    assert_eq!(c.quota_reset_at.as_deref(), Some("2026-04-01T00:00:00+00:00"));
    assert_eq!(mark_healthy().status, "healthy");
    assert!(clear_cooldown().cooldown_until.is_none());
}

#[test]
fn soft_quotas_compare_exactly() {
    let mut a = account("a", "p", 1);
    assert!(!soft_quota_reached(&a, dollars(1e9)));
    a.soft_quota_usd = Some(dollars(0.3));
    assert!(!soft_quota_reached(&a, dollars(0.1 + 0.1)));
    assert!(soft_quota_reached(&a, dollars(0.1 + 0.2)));
    assert!(has_limit(Some(dollars(1.0))) && !has_limit(Some(dollars(0.0))) && !has_limit(None));
    assert!(reaches(Some(dollars(2.0)), dollars(2.0)));
    assert!(!reaches(Some(dollars(2.0)), dollars(f64::NAN)));
}

#[test]
fn the_soonest_recovery_is_found() {
    let mut a = account("a", "p", 1);
    a.status = "cooldown".to_string();
    a.cooldown_until = Some("2026-03-15T10:30:00Z".to_string());
    let mut b = account("b", "p", 1);
    b.status = "exhausted".to_string();
    b.quota_reset_at = Some("2026-03-15T10:25:00Z".to_string());
    assert_eq!(soonest_recovery(&vec![a, b]), Some(t("2026-03-15T10:25:00Z")));
    assert_eq!(soonest_recovery(&vec![account("c", "p", 1)]), None);
}

#[test]
fn keys_are_limited_step_by_step() {
    let now = t("2026-03-15T10:20:30Z");
    let k = key();
    assert!(matches!(
        begin(&k, "m", true, now),
        LimitStep::NeedUsage { since } if since == "2026-03-15T10:19:30+00:00"
    ));
    match begin(&k, "m", false, now) {
        LimitStep::Refused(e) => assert_eq!(e.message, "this key is not allowed to use model 'm'"),
        _ => panic!("not permitted"),
    }
    match after_usage(&k, Some((10, 0)), now) {
        LimitStep::Refused(e) => {
            assert_eq!(e.message, "rate limit exceeded: 10 requests per minute");
            assert_eq!(e.retry_after_secs, Some(60));
        }
        _ => panic!("over the limit"),
    }
    match after_usage(&k, Some((0, 1000)), now) {
        LimitStep::Refused(e) => assert_eq!(e.message, "token rate limit exceeded: 1000 tokens per minute"),
        _ => panic!("over the limit"),
    }
    assert!(matches!(
        after_usage(&k, Some((9, 999)), now),
        LimitStep::NeedDailySpend { since } if since == "2026-03-15T00:00:00+00:00"
    ));
    match after_daily_spend(&k, spent(5.0), now) {
        LimitStep::Refused(e) => {
            assert_eq!(e.kind, ErrorKind::BudgetExceeded);
            assert_eq!(e.message, "daily budget exceeded ($5.00 of $5.00); resets at 00:00 UTC");
        }
        _ => panic!("over the budget"),
    }
    assert!(matches!(
        after_daily_spend(&k, spent(4.99), now),
        LimitStep::NeedMonthlySpend { since } if since == "2026-03-01T00:00:00+00:00"
    ));
    assert!(matches!(after_monthly_spend(&k, spent(49.0)), LimitStep::Granted));
    assert!(matches!(after_monthly_spend(&k, spent(50.0)), LimitStep::Refused(_)));
}

#[test]
fn the_first_failed_check_gives_the_error() {
    let now = t("2026-03-15T10:20:30Z");
    let k = key();
    let refused = |usage, daily, monthly| {
        let e = enforce(&k, "m", true, now, usage, daily, monthly).unwrap_err();
        (e.kind, e.message, e.retry_after_secs)
    };
    assert_eq!(
        refused(Some((10, 1000)), spent(5.0), spent(50.0)),
        (
            ErrorKind::RateLimited,
            "rate limit exceeded: 10 requests per minute".to_string(),
            Some(60)
        )
    );
    assert_eq!(
        refused(Some((9, 1000)), spent(5.0), spent(50.0)),
        (
            ErrorKind::RateLimited,
            "token rate limit exceeded: 1000 tokens per minute".to_string(),
            Some(60)
        )
    );
    let (kind, message, retry) = refused(None, spent(5.0), spent(50.0));
    assert_eq!((kind, retry), (ErrorKind::BudgetExceeded, None));
    assert!(message.starts_with("daily budget exceeded ($5.00 of $5.00)"));
    let (kind, message, retry) = refused(None, spent(4.0), spent(50.0));
    assert_eq!((kind, retry), (ErrorKind::BudgetExceeded, None));
    assert!(message.starts_with("monthly budget exceeded ($50.00"));
    assert!(message.ends_with("resets on the 1st"));
    let e = enforce(&k, "m", false, now, Some((10, 0)), None, None).unwrap_err();
    assert_eq!(e.message, "this key is not allowed to use model 'm'");
    let named = vec!["a".to_string(), "m".to_string()];
    assert!(permits_model(&named, "m"));
    assert!(!permits_model(&named, "b"));
    assert!(permits_model(&vec!["*".to_string()], "b"));
    assert!(!permits_model(&vec![], "m"));
}

#[test]
fn limits_fail_open_but_keys_do_not() {
    let now = t("2026-03-15T10:20:30Z");
    let mut k = key();
    assert!(enforce(&k, "m", true, now, None, None, None).is_ok());
    assert!(enforce(&k, "m", true, now, Some((10, 0)), None, None).is_err());
    k.status = "revoked".to_string();
    assert_eq!(
        enforce(&k, "m", true, now, None, None, None).unwrap_err().message,
        "this virtual key has been revoked"
    );
    k.status = "disabled".to_string();
    assert_eq!(
        enforce(&k, "m", true, now, None, None, None).unwrap_err().kind,
        ErrorKind::Forbidden
    );
    k.status = "active".to_string();
    k.expires_at = Some("2026-03-15T10:20:30Z".to_string());
    assert_eq!(
        enforce(&k, "m", true, now, None, None, None).unwrap_err().message,
        "this virtual key expired on 2026-03-15T10:20:30+00:00"
    );
}

fn stored() -> StoredConfig {
    let mut off = provider("p3", "Off");
    off.enabled = 0;
    StoredConfig {
        providers: vec![provider("p1", "One"), provider("p2", "Two"), off],
        accounts: vec![account("a1", "p1", 2), account("a2", "p1", 1), account("b1", "p2", 1)],
        models: vec![
            model("m1", "p1", "gpt"),
            model("m2", "p2", "gpt"),
            model("m3", "p2", "opal"),
        ],
        aliases: vec![
            AliasRow {
                alias: "fast".to_string(),
                target_type: "model".to_string(),
                target_id: "m3".to_string(),
            },
            AliasRow {
                alias: "best".to_string(),
                target_type: "route".to_string(),
                target_id: "r1".to_string(),
            },
        ],
        routes: vec![route("strip")],
        route_targets: vec![RouteTargets {
            route_id: "r1".to_string(),
            targets: vec![
                RouteTargetRow {
                    route_id: "r1".to_string(),
                    model_id: "m1".to_string(),
                    account_id: None,
                    priority: 1,
                    weight: 1,
                },
                RouteTargetRow {
                    route_id: "r1".to_string(),
                    model_id: "gone".to_string(),
                    account_id: None,
                    priority: 1,
                    weight: 1,
                },
            ],
        }],
    }
}

fn single(r: Option<Resolved>) -> (String, String) {
    match r {
        Some(Resolved::Single { provider_id, model_id }) => (provider_id, model_id),
        _ => panic!("not a single model"),
    }
}

#[test]
fn names_are_resolved_in_order() {
    let mut reg = Registry::new();
    assert!(reg.resolve("gpt").is_none());
    reg.reload(stored());
    assert_eq!(single(reg.resolve("fast")), ("p2".to_string(), "m3".to_string()));
    assert_eq!(single(reg.resolve("Two/gpt")), ("p2".to_string(), "m2".to_string()));
    assert_eq!(single(reg.resolve("gpt")), ("p1".to_string(), "m1".to_string()));
    match reg.resolve("best") {
        Some(Resolved::Route { route, targets }) => {
            assert_eq!(route.name, "coder");
            assert_eq!(targets.len(), 1);
            assert_eq!(targets[0].account.id, "a2");
        }
        _ => panic!("a route"),
    }
    assert!(matches!(reg.resolve("coder"), Some(Resolved::Route { .. })));
    assert!(reg.resolve("unknown").is_none());
    assert!(reg.provider("p3").is_none());
    assert_eq!(reg.model("m1").unwrap().upstream_id, "gpt");
    assert_eq!(reg.account("a1").unwrap().priority, 2);
    assert_eq!(reg.route_name("r1").as_deref(), Some("coder"));
    assert_eq!(reg.aliases().len(), 2);
    assert_eq!(reg.enabled_models().len(), 3);
    assert_eq!(reg.snapshot().provider_order.len(), 2);
}

#[test]
fn destinations_and_their_errors() {
    let mut reg = Registry::new();
    reg.reload(stored());
    match find_destination(&reg, "Two/gpt").unwrap() {
        Destination::Model { model, provider } => {
            assert_eq!(model.id, "m2");
            assert_eq!(provider.name, "Two");
        }
        _ => panic!("a model"),
    }
    let e = find_destination(&reg, "nope").unwrap_err();
    assert_eq!(e.kind, ErrorKind::NotFound);
    assert_eq!(
        e.message,
        "model 'nope' is not configured. Use GET /v1/models to list available models."
    );
    let ts = single_targets(
        &vec![account("a", "p1", 1), account("b", "p1", 2)],
        &model("m1", "p1", "gpt"),
        &provider("p1", "One"),
    );
    assert_eq!(labels(&ts), vec!["a", "b"]);
}

#[test]
fn keys_are_sorted_stably() {
    assert_eq!(order_by_key(&vec![3, 1, 2, 1, 0]), vec![4, 1, 3, 2, 0]);
    assert_eq!(rotate_left(vec![1, 2, 3, 4], 1), vec![2, 3, 4, 1]);
    assert_eq!(rotate_left(Vec::<u8>::new(), 0), Vec::<u8>::new());
}

#[test]
fn only_healthy_accounts_are_selected() {
    let now = t("2026-03-15T10:20:30Z");
    let mut off = account("off", "p", 0);
    off.status = "disabled".to_string();
    let list = vec![account("a", "p", 2), off, account("b", "p", 1), account("c", "p", 1)];
    let got = select_accounts(list, Some("a"), now);
    assert_eq!(got.len(), 3);
    assert_eq!(got[0].id, "a");
    let mut rest: Vec<String> = got[1..].iter().map(|a| a.id.clone()).collect();
    rest.sort();
    assert_eq!(rest, vec!["b", "c"]);
    let arranged = arrange_accounts(&vec![account("x", "p", 2), account("y", "p", 1)], &vec![0, 1]);
    assert_eq!(arranged[0].id, "y");
}

#[test]
fn strategies_order_the_targets() {
    let list = || vec![target("a", "p1", 2, 1), target("b", "p1", 1, 3), target("c", "p2", 1, 1)];
    assert_eq!(labels(&order_targets("priority", list(), 0, 0, &vec![])), vec!["b", "c", "a"]);
    assert_eq!(labels(&order_targets("round-robin", list(), 4, 0, &vec![])), vec!["b", "c", "a"]);
    assert_eq!(sum_weights(&list()), 5);
    assert_eq!(labels(&order_targets("weighted", list(), 0, 0, &vec![])), vec!["a", "b", "c"]);
    assert_eq!(labels(&order_targets("weighted", list(), 0, 3, &vec![])), vec!["b", "c", "a"]);
    assert_eq!(labels(&order_targets("weighted", list(), 0, 4, &vec![])), vec!["c", "a", "b"]);
    assert_eq!(
        labels(&order_targets("least-used", list(), 0, 0, &vec![1, 9, 1])),
        vec!["c", "a", "b"]
    );
    let got = order_route_targets("weighted", list(), 0, &vec![]);
    let mut names = labels(&got);
    names.sort();
    assert_eq!(names, vec!["a", "b", "c"]);
}

#[test]
fn targets_that_cannot_serve_are_left_out() {
    let yes = || TargetFit { eligible: true, capable: true };
    let mut strict = target("s", "p2", 1, 1);
    strict.provider.capability_mode = "strict".to_string();
    let list = vec![target("a", "p1", 1, 1), strict, target("c", "p2", 1, 1)];
    let facts = vec![yes(), TargetFit { eligible: true, capable: false }, yes()];
    let got = filter_targets(&list, &facts, &vec![], 500).unwrap();
    assert_eq!(labels(&got), vec!["a", "c"]);
    let got = filter_targets(&list, &facts, &vec!["p2".to_string()], 500).unwrap();
    assert_eq!(labels(&got), vec!["c"]);
    let e = filter_targets(&list, &facts, &vec![], 1001).unwrap_err();
    assert_eq!(e.kind, ErrorKind::Unsupported);
    let none = vec![
        TargetFit { eligible: false, capable: true },
        TargetFit { eligible: false, capable: true },
        TargetFit { eligible: false, capable: true },
    ];
    assert!(make_plan(&list, &none, None, "m".to_string(), &vec![], 1, true, Triggers::default(), false).is_err());
    let all = Triggers::default();
    let plan =
        make_plan(&list, &facts, Some(route("strip")), "m".to_string(), &vec![], 1, true, all, false);
    assert_eq!(plan.unwrap().max_attempts, 2);
    assert_eq!(max_attempts(None, 9), 5);
    assert_eq!(max_attempts(Some(3), 9), 3);
    assert_eq!(max_attempts(Some(0), 9), 1);
    assert_eq!(max_attempts(Some(-1), 9), 5);
}

#[test]
fn opaque_state_is_stripped() {
    let messages = || {
        vec![Message {
            role: Role::Assistant,
            parts: vec![
                Part::Thinking { text: "hm".to_string(), signature: Some("s".to_string()) },
                Part::Text("hi".to_string()),
                Part::ToolCall {
                    id: "1".to_string(),
                    name: "f".to_string(),
                    arguments: "{}".to_string(),
                    signature: Some("s".to_string()),
                },
            ],
        }]
    };
    assert!(has_opaque_state(&messages()));
    let out = apply_continuity(messages(), "strip_with_warning");
    assert!(!has_opaque_state(&out));
    assert_eq!(out[0].parts.len(), 2);
    assert!(has_opaque_state(&apply_continuity(messages(), "keep")));
}

fn plan_of(targets: Vec<ResolvedTarget>, policy: &str, opaque: bool) -> Plan {
    let n = targets.len();
    Plan {
        targets,
        route: Some(route(policy)),
        requested_model: "coder".to_string(),
        max_attempts: n,
        allow_fallback: true,
        triggers: Triggers::default(),
        opaque,
    }
}

#[test]
fn a_request_falls_back_to_the_next_target() {
    let now = t("2026-03-15T10:20:30Z");
    let plan = plan_of(vec![target("a", "p1", 1, 1), target("b", "p2", 1, 1)], "strip", true);
    let (mut p, first) = Progress::begin(&plan, now);
    assert!(matches!(first, Action::AskCredential { target: 0 }));
    assert!(clock_allows(&plan.targets[0].account, now));
    assert!(p.can_take(&Event::CredentialReady(None)));
    assert!(!p.can_take(&Event::Accepted));
    let a = p.step(&plan, Event::CredentialReady(None), now);
    assert!(matches!(a, Action::Send { target: 0, strip: false }));
    let a = p.step(&plan, Event::Answered(failure(FailureKind::RateLimit, Some(7))), now);
    match a {
        Action::Store { target: 0, change: Some(c), reload: true } => {
            assert_eq!(c.status, "cooldown");
            assert_eq!(c.cooldown_until.as_deref(), Some("2026-03-15T10:20:37+00:00"));
        }
        _ => panic!("a change to store"),
    }
    let a = p.step(&plan, Event::Stored, now);
    assert!(matches!(a, Action::AskCredential { target: 1 }));
    let a = p.step(&plan, Event::CredentialReady(None), now);
    assert!(matches!(a, Action::Send { target: 1, strip: true }));
    let a = p.step(&plan, Event::Accepted, now);
    assert!(matches!(a, Action::Respond { target: 1, hops: 1, change: None }));
    assert!(p.is_over());
    assert_eq!(
        *p.path(),
        vec!["route:coder", "label-a:429(cooldown 7s)", "label-b:200"]
    );
}

#[test]
fn bad_requests_are_final() {
    let now = t("2026-03-15T10:20:30Z");
    let plan = plan_of(vec![target("a", "p1", 1, 1), target("b", "p2", 1, 1)], "strip", false);
    let (mut p, _) = Progress::begin(&plan, now);
    p.step(&plan, Event::CredentialReady(None), now);
    match p.step(&plan, Event::Answered(failure(FailureKind::BadRequest, None)), now) {
        Action::Fail(e) => {
            assert_eq!(e.kind, ErrorKind::BadRequest);
            assert_eq!(e.message, "upstream said no");
        }
        _ => panic!("an error"),
    }
}

#[test]
fn opaque_state_is_not_sent_elsewhere_under_reject() {
    let now = t("2026-03-15T10:20:30Z");
    let plan = plan_of(vec![target("a", "p1", 1, 1), target("b", "p2", 1, 1)], "reject", true);
    let (mut p, _) = Progress::begin(&plan, now);
    p.step(&plan, Event::CredentialReady(None), now);
    p.step(&plan, Event::SendFailed(failure(FailureKind::Timeout, None)), now);
    p.step(&plan, Event::Stored, now);
    match p.step(&plan, Event::CredentialReady(None), now) {
        Action::Fail(e) => {
            assert_eq!(e.kind, ErrorKind::AllUnavailable);
            assert_eq!(e.message, "route 'coder': upstream request timed out");
        }
        _ => panic!("nothing left"),
    }
    assert!(p.path().contains(&"label-b:not_portable".to_string()));
}

#[test]
fn skipped_and_exhausted_targets() {
    let now = t("2026-03-15T10:20:30Z");
    let mut cold = target("a", "p1", 1, 1);
    cold.account.status = "cooldown".to_string();
    cold.account.cooldown_until = Some("2026-03-15T10:21:30Z".to_string());
    let mut soft = target("b", "p1", 1, 1);
    soft.account.soft_quota_usd = Some(dollars(1.0));
    let plan = plan_of(vec![cold, soft], "strip", false);
    let (mut p, first) = Progress::begin(&plan, now);
    assert!(matches!(
        first,
        Action::AskSpend { target: 1, since: Some(s) } if s == "2026-03-14T10:20:30+00:00"
    ));
    match p.step(&plan, Event::Spend(Some(dollars(1.0))), now) {
        Action::Store { target: 1, change: Some(c), reload: false } => {
            assert_eq!(c.status, "exhausted");
            assert_eq!(c.last_error.as_deref(), Some("soft quota reached"));
        }
        _ => panic!("a change to store"),
    }
    match p.step(&plan, Event::Stored, now) {
        Action::Fail(e) => {
            assert_eq!(e.retry_after_secs, Some(60));
            assert_eq!(
                e.message,
                "route 'coder': all targets of route 'coder' are currently unavailable"
            );
        }
        _ => panic!("nothing left"),
    }
    assert_eq!(
        *p.path(),
        vec!["route:coder", "label-a:skipped(cooldown)", "label-b:soft_quota"]
    );
}

#[test]
fn routes_fall_back_on_their_triggers() {
    let now = t("2026-03-15T10:20:30Z");
    let off: serde_json::Value =
        serde_json::from_str("{\"on429\":false,\"on5xx\":true,\"onTimeout\":false}").unwrap();
    let triggers = read_triggers(&off);
    assert!(!triggers.on_429 && triggers.on_quota && triggers.on_5xx && !triggers.on_timeout);
    assert_eq!(stored_triggers("{\"onQuota\":false}").on_quota, false);
    assert_eq!(stored_triggers("no json"), Triggers::default());
    let mut plan = plan_of(vec![target("a", "p1", 1, 1), target("b", "p2", 1, 1)], "strip", false);
    plan.triggers = triggers;
    let answer = |kind| {
        let (mut p, _) = Progress::begin(&plan, now);
        p.step(&plan, Event::CredentialReady(None), now);
        p.step(&plan, Event::Answered(failure(kind, None)), now)
    };
    assert!(matches!(answer(FailureKind::RateLimit), Action::Fail(_)));
    assert!(matches!(answer(FailureKind::Timeout), Action::Fail(_)));
    assert!(matches!(answer(FailureKind::ServerError), Action::Store { .. }));
    assert!(matches!(answer(FailureKind::QuotaExhausted), Action::Store { .. }));
    assert!(matches!(answer(FailureKind::AuthError), Action::Store { .. }));
    let (mut p, _) = Progress::begin(&plan, now);
    p.step(&plan, Event::CredentialReady(None), now);
    let a = p.step(&plan, Event::SendFailed(failure(FailureKind::BadRequest, None)), now);
    assert!(matches!(a, Action::Store { change: None, .. }));
}

#[test]
fn a_circuit_opens_is_probed_and_closes() {
    let now = t("2026-03-15T10:20:30Z");
    let mut a = account("a", "p", 1);
    for n in 1..=5 {
        let (c, note) = handle_key_failure(&failure(FailureKind::ServerError, None), &a, now);
        let c = c.unwrap();
        assert_eq!(c.failures, n);
        assert_eq!(c.status, if n < 5 { "cooldown" } else { "circuit_open" });
        assert_eq!(note.unwrap().ends_with("(circuit open)"), n == 5);
        a.failures = c.failures;
        a.status = c.status;
        a.cooldown_until = c.cooldown_until;
    }
    assert_eq!(a.cooldown_until.as_deref(), Some("2026-03-15T10:20:35+00:00"));
    assert_eq!(status_at(&a, t("2026-03-15T10:20:34Z")), AccountStatus::CircuitOpen);
    let later = t("2026-03-15T10:20:35Z");
    let mut only = target("a", "p1", 1, 1);
    only.account = a;
    let plan = plan_of(vec![only], "strip", false);
    let (mut p, first) = Progress::begin(&plan, later);
    match first {
        Action::Store { target: 0, change: Some(c), reload: true } => {
            assert_eq!(c.status, "circuit_open");
            assert_eq!(c.cooldown_until.as_deref(), Some("2026-03-15T10:20:40+00:00"));
            assert_eq!(c.failures, 5);
        }
        _ => panic!("a probe to store"),
    }
    assert!(p.can_take(&Event::Stored));
    assert!(matches!(p.step(&plan, Event::Stored, later), Action::AskCredential { target: 0 }));
    p.step(&plan, Event::CredentialReady(None), later);
    match p.step(&plan, Event::Accepted, later) {
        Action::Respond { target: 0, hops: 0, change: Some(c) } => {
            assert_eq!((c.status.as_str(), c.failures), ("healthy", 0));
            assert_eq!(c.cooldown_until, None);
        }
        _ => panic!("back in service"),
    }
    let mut rested = target("a", "p1", 1, 1);
    rested.account.status = "cooldown".to_string();
    rested.account.cooldown_until = Some("2026-03-15T10:20:00+00:00".to_string());
    let plan = plan_of(vec![rested], "strip", false);
    let (mut p, first) = Progress::begin(&plan, now);
    assert!(matches!(first, Action::AskCredential { target: 0 }));
    p.step(&plan, Event::CredentialReady(None), now);
    let last = p.step(&plan, Event::Accepted, now);
    assert!(matches!(last, Action::Respond { target: 0, hops: 0, change: None }));
}

#[test]
fn failures_and_what_they_change() {
    let now = t("2026-03-15T10:20:30Z");
    let mut a = account("a", "p", 1);
    a.quota_type = "monthly".to_string();
    assert_eq!(default_quota_window(&a), 2_592_000);
    let (c, note) = handle_key_failure(&failure(FailureKind::QuotaExhausted, None), &a, now);
    assert_eq!(c.unwrap().quota_reset_at.as_deref(), Some("2026-04-14T10:20:30+00:00"));
    assert_eq!(note.as_deref(), Some("label-a:quota_exhausted"));
    let (c, note) = handle_key_failure(&failure(FailureKind::AuthError, None), &a, now);
    assert_eq!(c.unwrap().status, "disabled");
    assert_eq!(note.as_deref(), Some("label-a:auth_error(disabled)"));
    let (c, note) = handle_key_failure(&failure(FailureKind::ServerError, None), &a, now);
    assert_eq!(c.unwrap().cooldown_until.as_deref(), Some("2026-03-15T10:20:40+00:00"));
    assert_eq!(note.as_deref(), Some("label-a:5xx(cooldown 10s)"));
    let (c, note) = handle_key_failure(&failure(FailureKind::BadRequest, None), &a, now);
    assert!(c.is_none() && note.is_none());
    assert_eq!(
        failure_to_error(&failure(FailureKind::AuthError, None), "P").message,
        "upstream authentication failed for provider 'P'"
    );
    assert!(FailureKind::RateLimit.is_key_level());
    assert!(!FailureKind::BadRequest.is_key_level());
    let f = send_failure(true, false, "x");
    assert_eq!(f.kind, FailureKind::Timeout);
    assert_eq!(classify_send_error(false, true, "x"), "connect error");
    assert_eq!(classify_send_error(false, false, "boom"), "boom");
}

#[test]
fn parameters_outside_their_bounds_are_rejected() {
    let p = |v: f64, supported, reject| {
        vec![Param {
            name: "temperature".to_string(),
            value: Some(v.to_bits()),
            spec_of: Some(ParamSpec {
                supported,
                reject,
                min: Some(Bound { bits: 0.0f64.to_bits(), text: "0".to_string() }),
                max: Some(Bound { bits: 2.0f64.to_bits(), text: "2".to_string() }),
            }),
        }]
    };
    assert!(check_param_policy(&p(1.0, true, true), "M").is_ok());
    assert!(check_param_policy(&p(3.0, true, false), "M").is_ok());
    assert_eq!(
        check_param_policy(&p(3.0, true, true), "M").unwrap_err().message,
        "parameter 'temperature' above maximum 2"
    );
    assert_eq!(
        check_param_policy(&p(-1.0, true, true), "M").unwrap_err().message,
        "parameter 'temperature' below minimum 0"
    );
    assert_eq!(
        check_param_policy(&p(1.0, false, true), "M").unwrap_err().message,
        "parameter 'temperature' is not supported by model 'M'"
    );
}

#[test]
fn responses_do_not_name_who_serves() {
    let mut meta = RequestMeta::new("req_1".to_string(), FrontendFormat::OpenAi, "m".to_string());
    meta.fallback_hops = 2;
    let h = response_headers(&meta, "krt_1", Some("stripped"), true);
    let find = |n: &str| h.iter().find(|x| x.0 == n).map(|x| x.1.clone());
    assert_eq!(find("x-request-id").as_deref(), Some("req_1"));
    assert_eq!(find("x-kinetix-route-id").as_deref(), Some("krt_1"));
    assert_eq!(find("x-kinetix-fallback").as_deref(), Some("2"));
    assert_eq!(find("x-kinetix-warning").as_deref(), Some("stripped"));
    assert_eq!(find("content-type").as_deref(), Some("text/event-stream"));
    assert!(!h.iter().any(|x| x.0.contains("account") || x.0.contains("provider")));
    assert_eq!(
        extract_upstream_request_id(None, Some(Some("u".to_string()))).as_deref(),
        Some("u")
    );
}

#[test]
fn unknown_counts_are_logged_as_unknown() {
    let meta = RequestMeta::new("req_1".to_string(), FrontendFormat::Anthropic, "m".to_string());
    let row = finalize_log(
        &meta,
        Some(&key()),
        &target("a", "p1", 1, 1),
        "Shown",
        "2026-03-15T10:20:30Z",
        Outcome {
            ending: Ending::Success,
            usage: TokenUsage { output: Some(3), ..Default::default() },
            latency_ms: 12,
            ttft_ms: Some(4),
            cost: None,
            error_message: None,
            upstream_request_id: None,
        },
    );
    assert!(row.id.starts_with("usage_"));
    assert_eq!(row.input_tokens, None);
    assert_eq!(row.output_tokens, Some(3));
    assert_eq!(row.cost_usd, None);
    assert_eq!(row.cost_known, 0);
    assert_eq!(row.flagged, 1);
    assert_eq!(row.status, "success");
    assert_eq!(row.status_code, 200);
    assert_eq!(row.key_name.as_deref(), Some("dev"));
    assert_eq!(row.client_format, "anthropic");
    assert_eq!(row.fallback_path, "[]");
    let mut k = key();
    assert_eq!(body_log_days(Some(&k)), None);
    k.body_logging = 1;
    assert_eq!(body_log_days(Some(&k)), Some(7));
}

#[test]
fn a_stream_runs_to_its_end() {
    let mut d = StreamDriver::new();
    assert!(d.can_take(&StreamInput::Keepalive { delivered: true }));
    let a = d.step(StreamInput::Chunk(b"data: {\"x\"".to_vec()));
    assert!(matches!(a, StreamAction::Read));
    let a = d.step(StreamInput::Chunk(b":1}\n\n".to_vec()));
    assert!(matches!(a, StreamAction::Parse(ref p) if p == "{\"x\":1}"));
    let usage = TokenUsage { input: Some(5), ..Default::default() };
    let a = d.step(StreamInput::Decoded {
        usage: Some(usage),
        frames: 1,
        elapsed_ms: 7,
        delivered: true,
    });
    assert!(matches!(a, StreamAction::Continue));
    let a = d.step(StreamInput::PayloadDone);
    assert!(matches!(a, StreamAction::Read));
    let a = d.step(StreamInput::UpstreamEnd);
    assert!(matches!(a, StreamAction::Close));
    let a = d.step(StreamInput::Closed { delivered: true });
    assert!(matches!(a, StreamAction::Finish));
    assert_eq!(d.ending(), Ending::Success);
    assert_eq!(d.usage().input, Some(5));
    assert_eq!(d.ttft_ms(), Some(7));
    assert_eq!(d.error_message(), None);
    assert_eq!(d.aggregate_error(), None);
}

#[test]
fn a_broken_stream_ends_with_an_error() {
    let mut d = StreamDriver::new();
    let a = d.step(StreamInput::UpstreamError("reset".to_string()));
    assert!(matches!(a, StreamAction::SendError(_)));
    assert_eq!(d.ending(), Ending::StreamError);
    assert_eq!(d.ending().code(), 502);
    assert_eq!(d.ending().name(), "stream_error");
    assert_eq!(d.aggregate_error(), d.error_message());
    assert!(d.aggregate_error().is_some());
    let mut d = StreamDriver::new();
    d.step(StreamInput::Chunk(b"data: x\n\n".to_vec()));
    let a = d.step(StreamInput::ParseFailed("bad".to_string()));
    assert!(matches!(a, StreamAction::SendError(_)));
    assert!(d.error_message().is_some());
}

#[test]
fn a_client_that_leaves_ends_the_stream() {
    let mut d = StreamDriver::new();
    let a = d.step(StreamInput::Keepalive { delivered: false });
    assert!(matches!(a, StreamAction::Finish));
    assert_eq!(d.ending(), Ending::ClientDisconnect);
    assert_eq!(d.ending().code(), 499);
    assert_eq!(d.aggregate_error().as_deref(), Some("upstream stream interrupted"));
}

#[test]
fn sessions_stick_for_a_while() {
    let mut a = Affinity::new();
    a.sticky_remember("s", "r/a/m".to_string(), 100);
    assert_eq!(a.sticky_lookup("s", 50, 150).as_deref(), Some("r/a/m"));
    assert_eq!(a.sticky_lookup("s", 50, 151), None);
    assert_eq!(a.sticky_lookup("other", 50, 100), None);
    a.sticky_remember("t", "x".to_string(), 200);
    a.sticky_sweep(50, 210);
    assert_eq!(a.sticky_lookup("s", 1000, 210), None);
    assert_eq!(a.sticky_lookup("t", 1000, 210).as_deref(), Some("x"));
    assert_eq!(a.rr_counter("r1"), 0);
    assert_eq!(a.rr_counter("r1"), 1);
    assert_eq!(a.rr_counter("r2"), 0);
    assert!(a.now_ns() <= a.now_ns());
}

#[test]
fn errors_carry_their_waiting_time() {
    let e = ProxyError::with_retry(ErrorKind::RateLimited, "slow down".to_string(), Some(5));
    assert_eq!(e.retry_after_secs, Some(5));
    assert!(e.headers.is_empty());
    assert_eq!(FrontendFormat::OpenAi.as_str(), "openai");
}

#[test]
fn what_a_request_needs_of_a_model() {
    let read = |text: &str| parse_json(text.as_bytes()).unwrap();
    let n = read_needs(&read(
        r#"{"tools":[{}],"thinking":{},"messages":[{"content":[{"source":{"type":"image"}}]}]}"#,
    ));
    assert!(n.tools && n.images && n.reasoning);
    assert_eq!(n.input_tokens, 10);
    let n = read_needs(&read(r#"{"tools":[],"messages":[{"content":"image","type":"text"}]}"#));
    assert!(!n.tools && !n.images && !n.reasoning);
    let n = read_needs(&read("[]"));
    assert_eq!((n.tools, n.images, n.reasoning, n.input_tokens), (false, false, false, 0));
    let seeing = read_capabilities(&read(r#"{"vision":true,"tool_calling":1}"#));
    assert!(seeing.vision && !seeing.tool_calling && !seeing.text);
    let wants = read_needs(&read(r#"{"messages":[{"type":"image_url"}]}"#));
    assert!(wants.images);
    assert!(covers(&seeing, &wants));
    assert!(!covers(&read_capabilities(&read("{}")), &wants));
}

#[test]
fn the_state_of_a_conversation_is_read() {
    let body = r#"{"messages":[{"content":"plain"},{"content":[
        {"type":"thinking","thinking":"t","signature":"s"},
        {"type":"tool_use","id":"i","name":"n","input":{"a":1}},
        {"type":"text","text":"x"},{"text":5}]}]}"#;
    let m = read_conversation(&parse_json(body.as_bytes()).unwrap());
    assert_eq!(m.len(), 2);
    assert!(m[0].parts.is_empty());
    assert_eq!(m[1].parts.len(), 4);
    match &m[1].parts[0] {
        Part::Thinking { text, signature } => {
            assert_eq!((text.as_str(), signature.as_deref()), ("t", Some("s")));
        }
        _ => panic!("thinking"),
    }
    match &m[1].parts[1] {
        Part::ToolCall { id, name, arguments, signature } => {
            assert_eq!((id.as_str(), name.as_str(), arguments.as_str()), ("i", "n", "{\"a\":1}"));
            assert_eq!(*signature, None);
        }
        _ => panic!("a tool call"),
    }
    assert!(matches!(&m[1].parts[2], Part::Text(t) if t == "x"));
    assert!(matches!(&m[1].parts[3], Part::Text(t) if t.is_empty()));
    assert!(has_opaque_state(&m));
}
