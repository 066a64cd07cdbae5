//! The configuration, the admin interface, probes and the dashboard.

use kinetix::admin::{
    account_credential, admin_gate, alias_display, alias_row, check_provider, count_provider,
    create_key, default_limit, endpoint_report, enroll, login, lookup_of, mask_hash, name_target,
    overview, provider_created, provider_row, route_triggers, tester_request, update_account,
    update_key, validate_endpoint, write_route_targets, AccountBody, AliasBody, Connectivity,
    CreateKeyBody, LimitQuery, LoginBody, ProviderBody, RouteBody, RouteTargetBody,
    TestStreamBody, UpdateKeyBody, ValidateBody,
};
use kinetix::api::{
    error_headers, healthz, http_status, invalid_body, models_format, read_body, require_key,
    require_list_key,
};
use kinetix::assets::{asset_path, cache_control, serve, Served};
use kinetix::config::{
    choose_key, decode_master_key, default_bearer, default_permissive, default_priority,
    default_priority_strategy, default_quota_type, default_timeout, default_wildcard, Config,
    ConfigError, Environment,
};
use kinetix::cost::Prices;
use kinetix::credentials::{CredentialStrategy, StaticKeyStrategy};
use kinetix::crypto::{hash_virtual_key, Crypto};
use kinetix::inventory::{
    create_account, create_model, create_provider, create_route, update_model, update_provider,
    update_route, ModelBody,
};
use kinetix::json::{get_text, parse_json, stored_json, stored_texts};
use kinetix::outbound::{OutboundPolicy, UrlParts};
use kinetix::probe::{
    answer_discovery, begin_probe, discover_models, discovery_url, judge_discovery, judge_test,
    parse_model_list, read_model_list, record_observation, test_request, truncate,
    DiscoveredModel, Purpose, Reply, TestBody,
};
use kinetix::upstream::{
    classify_status, default_models_path, failure_message, place_credential, request_url, said,
    Placement,
};
use kinetix::types::{
    AccountRow, AliasRow, Dollars, ErrorKind, FailureKind, FrontendFormat, ModelRow, Part, ProviderRow,
    ProxyError, Role, RouteRow, RouteTargetRow, VirtualKeyRow,
};

fn env() -> Environment {
    Environment {
        bind: None,
        public_base_url: None,
        database_url: None,
        master_key: Some("a passphrase of some length".to_string()),
        admin_token: Some("admin-token".to_string()),
        cf_access_aud: None,
        cf_access_team_domain: None,
        log_json: None,
        bootstrap_file: None,
        allow_private_upstreams: None,
        allow_insecure_tls: None,
        data_dir: None,
    }
}

const STRICT: OutboundPolicy = OutboundPolicy { allow_private: false, allow_insecure_tls: false };

fn account(id: &str, provider: &str) -> AccountRow {
    AccountRow {
        id: id.to_string(),
        provider_id: provider.to_string(),
        label: format!("label-{id}"),
        secret_enc: "".to_string(),
        secret_mask: "old".to_string(),
        priority: 1,
        weight: 1,
        status: "healthy".to_string(),
        cooldown_until: None,
        quota_type: "none".to_string(),
        quota_window_s: None,
        quota_reset_at: None,
        soft_quota_usd: None,
        last_error: None,
        failures: 0,
    }
}

fn model(id: &str, provider: &str, upstream: &str) -> ModelRow {
    ModelRow {
        id: id.to_string(),
        provider_id: provider.to_string(),
        upstream_id: upstream.to_string(),
        display_name: format!("Model {id}"),
        enabled: 1,
        context_window: None,
        max_output_tokens: None,
        capabilities: "{}".to_string(),
        prices: "{}".to_string(),
        parameters: "{}".to_string(),
        thinking_map: "{}".to_string(),
        extra_request: "{}".to_string(),
        discovery: "{}".to_string(),
        created_at: "".to_string(),
    }
}

fn provider(id: &str) -> ProviderRow {
    ProviderRow {
        id: id.to_string(),
        name: "One".to_string(),
        base_url: "https://api.example.com".to_string(),
        wire_format: "openai".to_string(),
        auth_scheme: "bearer".to_string(),
        custom_header_name: None,
        custom_param_name: None,
        extra_headers: "{}".to_string(),
        timeout_ms: 1000,
        capability_mode: "permissive".to_string(),
        models_path: None,
        enabled: 1,
    }
}

#[test]
fn defaults_of_the_environment() {
    let c = Config::from_env(env()).unwrap();
    assert_eq!(c.bind, "127.0.0.1:8080");
    assert_eq!(c.public_base_url, "http://127.0.0.1:8080");
    assert_eq!(c.database_url, "sqlite://kinetix.db?mode=rwc");
    assert_eq!(c.data_dir, ".");
    assert!(!c.log_json && !c.allow_private_upstreams && !c.allow_insecure_tls);
    assert!(c.cf_access_aud.is_none() && c.bootstrap_file.is_none());
    let mut e = env();
    e.cf_access_aud = Some("".to_string());
    e.bootstrap_file = Some("  ".to_string());
    e.log_json = Some("true".to_string());
    e.allow_private_upstreams = Some("yes".to_string());
    let c = Config::from_env(e).unwrap();
    assert!(c.cf_access_aud.is_none() && c.bootstrap_file.is_none());
    assert!(c.log_json && !c.allow_private_upstreams);
}

#[test]
fn environments_that_are_refused() {
    let mut e = env();
    e.master_key = None;
    e.admin_token = None;
    assert_eq!(Config::from_env(e).unwrap_err(), ConfigError::MissingMasterKey);
    let mut e = env();
    e.master_key = Some("short".to_string());
    assert_eq!(Config::from_env(e).unwrap_err(), ConfigError::InvalidMasterKey);
    let mut e = env();
    e.admin_token = Some("  1234567  ".to_string());
    let err = Config::from_env(e).unwrap_err();
    assert_eq!(err, ConfigError::WeakAdminToken);
    assert!(err.message().starts_with("KINETIX_ADMIN_TOKEN"));
}

#[test]
fn master_keys_in_three_forms() {
    let hex = "00".repeat(31) + "Ff";
    let mut want = [0u8; 32];
    want[31] = 255;
    assert_eq!(decode_master_key(&format!(" {hex}\n")), Some(want));
    assert_eq!(
        decode_master_key("AAAAAAAAAAAAAAAAAAAAAAAAAAAAAAAAAAAAAAAAAAA="),
        Some([0u8; 32])
    );
    let digest = decode_master_key("a passphrase of some length").unwrap();
    let text: String = digest.iter().map(|b| format!("{b:02x}")).collect();
    assert_eq!(text, hash_virtual_key("a passphrase of some length"));
    assert_eq!(decode_master_key("fifteen bytes.."), None);
    assert_eq!(choose_key("x", Some(vec![1u8; 32]), &vec![2u8; 32]), Some([1u8; 32]));
    assert_eq!(choose_key("x", Some(vec![1u8; 31]), &vec![2u8; 32]), None);
}

#[test]
fn defaults_of_the_bootstrap_file() {
    assert_eq!(default_wildcard(), vec!["*"]);
    assert_eq!(default_bearer(), "bearer");
    assert_eq!(default_timeout(), 120_000);
    assert_eq!(default_permissive(), "permissive");
    assert_eq!(default_priority(), 1);
    assert_eq!(default_quota_type(), "none");
    assert_eq!(default_priority_strategy(), "priority");
}

fn body(password: &str) -> LoginBody {
    LoginBody { username: None, password: password.to_string() }
}

#[test]
fn logins_fail_closed() {
    let key = [1u8; 32];
    let (r, audit) = login(false, &key, "admin-token", body("admin-token"));
    assert_eq!(r.unwrap_err().status, 503);
    assert!(audit.is_none());
    let (r, audit) = login(true, &key, "admin-token", body("wrong"));
    assert_eq!(r.unwrap_err().status, 401);
    let a = audit.unwrap();
    assert_eq!((a.actor.as_str(), a.action.as_str()), ("unknown", "admin_login_failed"));
    let (r, audit) = login(true, &key, "admin-token", body("admin-token"));
    let g = r.unwrap();
    assert_eq!(g.actor, "admin");
    assert_eq!(g.token, kinetix::auth::session_token(&key, "admin-token"));
    assert_eq!(audit.unwrap().action, "admin_login");
    assert!(admin_gate(true, false).is_ok() && admin_gate(false, true).is_ok());
    assert_eq!(admin_gate(false, false).unwrap_err().status, 503);
}

fn form(system: Option<&str>) -> TestStreamBody {
    TestStreamBody {
        key_id: "k".to_string(),
        model: "m".to_string(),
        prompt: "hi".to_string(),
        system: system.map(|s| s.to_string()),
        format: Some("anthropic".to_string()),
        stream: None,
        max_tokens: Some(5),
        temperature: None,
    }
}

#[test]
fn the_tester_form_becomes_a_request() {
    let r = tester_request(form(Some("be brief")));
    assert_eq!(r.format, FrontendFormat::Anthropic);
    assert!(r.stream);
    assert_eq!(r.messages.len(), 2);
    assert_eq!(r.messages[0].role, Role::System);
    assert!(matches!(&r.messages[1].parts[0], Part::Text(t) if t == "hi"));
    assert_eq!(tester_request(form(Some("  "))).messages.len(), 1);
}

fn new_key(models: Vec<String>) -> CreateKeyBody {
    CreateKeyBody {
        name: "dev".to_string(),
        owner: "ops".to_string(),
        tag: "".to_string(),
        allowed_models: models,
        allowed_providers: vec![],
        rpm_limit: Some(5),
        tpm_limit: None,
        daily_budget: None,
        monthly_budget: Some(Dollars { bits: 1.0f64.to_bits() }),
        expires_at: None,
        allowed_ips: vec!["10.0.0.0/8".to_string()],
        body_logging: true,
    }
}

#[test]
fn issued_keys_are_stored_hashed() {
    let k = create_key(new_key(vec![]), "now".to_string());
    assert_eq!(k.row.key_hash, hash_virtual_key(&k.full_key));
    assert_eq!(k.row.allowed_models, "[\"*\"]");
    assert_eq!(k.row.allowed_providers, "[]");
    assert_eq!(k.row.allowed_ips, "[\"10.0.0.0/8\"]");
    assert_eq!(k.row.body_logging, 1);
    assert_eq!(k.row.status, "active");
    assert_eq!(k.audit.details, "Issued virtual key for dev (owner ops)");
    let k = create_key(new_key(vec!["a\"b".to_string()]), "now".to_string());
    assert_eq!(k.row.allowed_models, "[\"a\\\"b\"]");
    assert!(!mask_hash(&k.row.key_hash).contains(&k.row.key_hash));
}

fn no_change() -> UpdateKeyBody {
    UpdateKeyBody {
        status: None,
        name: None,
        owner: None,
        tag: None,
        allowed_models: None,
        allowed_providers: None,
        rpm_limit: None,
        tpm_limit: None,
        daily_budget: None,
        monthly_budget: None,
        expires_at: None,
        allowed_ips: None,
        body_logging: None,
    }
}

#[test]
fn keys_are_changed_field_by_field() {
    let keys: Vec<VirtualKeyRow> = vec![create_key(new_key(vec![]), "now".to_string()).row];
    let id = keys[0].id.clone();
    let u = update_key(&keys, &id, no_change());
    let row = u.result.unwrap();
    assert_eq!(row.name, "dev");
    assert_eq!(row.rpm_limit, Some(5));
    assert!(u.status_audit.is_none());
    assert_eq!(u.update_audit.unwrap().action, "key_updated");
    let mut b = no_change();
    b.status = Some("disabled".to_string());
    b.allowed_ips = Some(vec![]);
    b.tpm_limit = Some(9);
    b.body_logging = Some(false);
    let u = update_key(&keys, &id, b);
    let row = u.result.unwrap();
    assert_eq!(row.status, "disabled");
    assert_eq!(row.allowed_ips, "[]");
    assert_eq!(row.tpm_limit, Some(9));
    assert_eq!(row.body_logging, 0);
    assert_eq!(row.key_hash, keys[0].key_hash);
    let a = u.status_audit.unwrap();
    assert_eq!(a.action, "key_status_disabled");
    assert_eq!(a.details, "Changed key status to disabled.");
    let u = update_key(&keys, "nobody", no_change());
    assert_eq!(u.result.unwrap_err().message, "key not found");
    assert!(u.update_audit.is_none());
}

fn provider_body() -> ProviderBody {
    ProviderBody {
        name: "One".to_string(),
        base_url: "https://api.example.com/v1".to_string(),
        wire_format: "openai".to_string(),
        auth_scheme: "bearer".to_string(),
        custom_header_name: None,
        custom_param_name: None,
        extra_headers: serde_json::from_str("{\"b\":\"2\",\"a\":\"1\"}").unwrap(),
        timeout_ms: 1000,
        capability_mode: "permissive".to_string(),
        models_path: None,
        follow_redirects: false,
        credential_hosts: "".to_string(),
        allow_insecure_tls: false,
        api_key: Some("AIzaSyABCDEFGHIJKLMNOP".to_string()),
        account_label: None,
    }
}

#[test]
fn providers_are_checked_before_they_are_stored() {
    assert!(check_provider(&provider_body(), STRICT).is_ok());
    let mut b = provider_body();
    b.base_url = "http://api.example.com".to_string();
    b.wire_format = "smoke".to_string();
    assert!(check_provider(&b, STRICT).unwrap_err().message.starts_with("endpoint must use https"));
    b.allow_insecure_tls = true;
    assert_eq!(check_provider(&b, STRICT).unwrap_err().message, "invalid wire_format");
    b.wire_format = "gemini".to_string();
    b.auth_scheme = "magic".to_string();
    assert_eq!(check_provider(&b, STRICT).unwrap_err().message, "invalid auth_scheme");
    let r = provider_row("p1", &provider_body());
    assert_eq!(r.extra_headers, "{\"a\":\"1\",\"b\":\"2\"}");
    assert_eq!(r.enabled, 1);
    assert_eq!(
        provider_created("p1", &provider_body()).details,
        "Added One upstream (openai wire format at https://api.example.com/v1)."
    );
}

#[test]
fn credentials_are_enrolled_encrypted() {
    let c = Crypto::new(&[9u8; 32]);
    let key = Some("AIzaSyABCDEFGHIJKLMNOP".to_string());
    let e = enroll(&c, &key, &None).unwrap().unwrap();
    assert_eq!(e.label, "Default key");
    assert_eq!(e.key_mask, "AIza...MNOP");
    let mut a = account("a", "p");
    a.secret_enc = e.secret_enc;
    let s = StaticKeyStrategy::new(Crypto::new(&[9u8; 32]));
    assert_eq!(s.name(), "static_api_key");
    assert_eq!(s.credential(&a).unwrap(), "AIzaSyABCDEFGHIJKLMNOP");
    assert!(enroll(&c, &Some("  ".to_string()), &None).unwrap().is_none());
    assert!(enroll(&c, &None, &None).unwrap().is_none());
}

fn account_body(api_key: Option<&str>) -> AccountBody {
    AccountBody {
        provider_id: "p".to_string(),
        label: "main".to_string(),
        api_key: api_key.map(|s| s.to_string()),
        priority: 3,
        weight: 4,
        soft_quota_usd: None,
        quota_type: "daily".to_string(),
        status: None,
    }
}

#[test]
fn accounts_need_a_key_and_keep_it() {
    let c = Crypto::new(&[9u8; 32]);
    let e = account_credential(&c, &account_body(None)).unwrap_err();
    assert_eq!((e.status, e.message.as_str()), (400, "api_key is required"));
    let fresh = account_credential(&c, &account_body(Some("secret-key-1234"))).unwrap();
    assert_eq!(fresh.label, "main");
    let mut old = account("a", "p");
    old.status = "cooldown".to_string();
    let kept = update_account(&old, &account_body(None), None);
    assert_eq!(kept.status, "healthy");
    assert_eq!(kept.secret_mask, "old");
    assert_eq!((kept.priority, kept.weight), (3, 4));
    let rotated = update_account(&old, &account_body(None), Some(fresh));
    assert_eq!(rotated.secret_mask, "secr...1234");
}

#[test]
fn counts_for_the_dashboard() {
    let mut sick = account("b", "p1");
    sick.status = "disabled".to_string();
    let accounts = vec![account("a", "p1"), sick, account("c", "p2")];
    let models = vec![model("m1", "p1", "x"), model("m2", "p2", "y")];
    let n = count_provider("p1", &accounts, &models);
    assert_eq!((n.accounts, n.healthy_accounts, n.models), (2, 1, 1));
    let mut off = create_key(new_key(vec![]), "now".to_string()).row;
    off.status = "revoked".to_string();
    let keys = vec![create_key(new_key(vec![]), "now".to_string()).row, off];
    let o = overview(&keys, &accounts, 5, 7);
    assert_eq!((o.keys_active, o.keys_total), (1, 2));
    assert_eq!((o.accounts_healthy, o.accounts_total), (2, 3));
    assert_eq!(o.total_tokens, 12);
    assert_eq!(default_limit(), 200);
    assert_eq!(LimitQuery { limit: 5000 }.rows(), 2000);
    assert_eq!(LimitQuery { limit: -1 }.rows(), -1);
}

#[test]
fn targets_without_a_predicate_get_the_empty_one() {
    let null = || serde_json::Value::Null;
    let t = |predicate| RouteTargetBody {
        account_id: Some("a".to_string()),
        model_id: "m1".to_string(),
        priority: 1,
        weight: 2,
        predicate,
        param_overrides: serde_json::Value::Null,
    };
    let stored = write_route_targets(
        "r1",
        &vec![t(null()), t(serde_json::from_str("{\"expr\": true}").unwrap())],
    );
    assert_eq!(stored[0].predicate, "{}");
    assert_eq!(stored[1].predicate, "{\"expr\":true}");
    assert_eq!(stored[1].param_overrides, "{}");
    assert_eq!(stored[0].target.route_id, "r1");
    let b = |fallback_triggers| RouteBody {
        name: "coder".to_string(),
        description: "".to_string(),
        strategy: "priority".to_string(),
        fallback_triggers,
        continuity_policy: "strip".to_string(),
        portability_policy: "strip_with_warning".to_string(),
        sticky_routing: false,
        cache_affinity: false,
        max_attempts: None,
        targets: vec![],
    };
    let defaults: serde_json::Value = serde_json::from_str(&route_triggers(&b(null()))).unwrap();
    for k in ["on429", "onQuota", "on5xx", "onTimeout"] {
        assert_eq!(defaults[k], true);
    }
    assert_eq!(route_triggers(&b(serde_json::from_str("{}").unwrap())), "{}");
}

#[test]
fn names_are_shown_where_they_are_known() {
    let t = RouteTargetRow {
        route_id: "r".to_string(),
        model_id: "m1".to_string(),
        account_id: Some("a".to_string()),
        priority: 1,
        weight: 1,
    };
    let n = name_target(&t, &vec![model("m1", "p1", "x")], &vec![account("a", "p1")]);
    assert_eq!(n.model_display_name.as_deref(), Some("Model m1"));
    assert_eq!(n.account_label.as_deref(), Some("label-a"));
    let n = name_target(&t, &vec![], &vec![]);
    assert!(n.model_display_name.is_none() && n.account_label.is_none());
    let route = RouteRow {
        id: "r1".to_string(),
        name: "coder".to_string(),
        strategy: "priority".to_string(),
        continuity_policy: "strip".to_string(),
        max_attempts: None,
        enabled: 1,
    };
    let a = |kind: &str, id: &str| AliasRow {
        alias: "x".to_string(),
        target_type: kind.to_string(),
        target_id: id.to_string(),
    };
    let routes = vec![route];
    let models = vec![model("m1", "p1", "x")];
    assert_eq!(alias_display(&a("route", "r1"), &routes, &models).as_deref(), Some("Route: coder"));
    assert_eq!(
        alias_display(&a("model", "m1"), &routes, &models).as_deref(),
        Some("Model: Model m1")
    );
    assert!(alias_display(&a("route", "m1"), &routes, &models).is_none());
    let row = alias_row(&AliasBody {
        alias: "fast".to_string(),
        target_type: "model".to_string(),
        target_id: "m1".to_string(),
        description: "".to_string(),
    });
    assert_eq!(row.alias, "fast");
}

#[test]
fn endpoints_are_validated_without_guessing() {
    let b = |u: &str| ValidateBody { base_url: u.to_string(), check_connectivity: true };
    let l = validate_endpoint(&b("https://api.example.com/v1"), STRICT).unwrap();
    assert_eq!((l.scheme.as_str(), l.host.as_str(), l.port), ("https", "api.example.com", 443));
    let r = endpoint_report(l, Some(Ok(vec!["93.184.216.34".to_string()])));
    assert_eq!(r.asn, "unknown");
    assert!(matches!(r.connectivity, Connectivity::Reachable));
    let l = validate_endpoint(&b("https://api.example.com:8443/v1"), STRICT).unwrap();
    assert_eq!(l.port, 8443);
    let r = endpoint_report(l, Some(Err("no such host".to_string())));
    assert!(matches!(r.connectivity, Connectivity::DnsError(e) if e == "dns_error: no such host"));
    assert_eq!(validate_endpoint(&b("https://localhost"), STRICT).unwrap_err().status, 400);
    let l = lookup_of(UrlParts { scheme: "foo".to_string(), host: None, port: None });
    assert_eq!((l.host.as_str(), l.port), ("", 443));
    let r = endpoint_report(l, None);
    assert!(matches!(r.connectivity, Connectivity::NotChecked));
}

#[test]
fn probes_begin_with_the_first_account() {
    let crypto = Crypto::new(&[9u8; 32]);
    let secret = crypto.encrypt("key-1").unwrap();
    let s = StaticKeyStrategy::new(crypto);
    let e = begin_probe(Purpose::Test, None, &vec![], &s).unwrap_err();
    assert_eq!((e.status, e.message.as_str()), (404, "provider not found"));
    let e = begin_probe(Purpose::Discover, Some(provider("p")), &vec![], &s).unwrap_err();
    assert_eq!(e.message, "provider has no credentials to discover with");
    let e = begin_probe(Purpose::Test, Some(provider("p")), &vec![], &s).unwrap_err();
    assert_eq!(e.message, "provider has no credentials to test with");
    let mut a = account("a", "p");
    let e = begin_probe(Purpose::Test, Some(provider("p")), &vec![a.clone()], &s).unwrap_err();
    assert_eq!((e.status, e.message.as_str()), (500, "ciphertext too short"));
    a.secret_enc = secret;
    let p = begin_probe(Purpose::Test, Some(provider("p")), &vec![a], &s).unwrap();
    assert_eq!(p.credential, "key-1");
}

#[test]
fn model_lists_are_fetched_and_compared() {
    assert_eq!(discovery_url("https://a/v1//", &None, "/models"), "https://a/v1/models");
    assert_eq!(
        discovery_url("https://a/v1", &Some("list".to_string()), "/models"),
        "https://a/v1/list"
    );
    let ok = Reply::Answer { status: 200, body: "[]".to_string() };
    assert_eq!(judge_discovery(ok).unwrap(), "[]");
    let e = judge_discovery(Reply::Answer { status: 403, body: "no AIzaSyABCDEFGHIJKLMNOP".to_string() });
    assert_eq!(e.unwrap_err().message, "upstream returned HTTP 403: no [REDACTED]");
    let e = judge_discovery(Reply::Failed("refused".to_string())).unwrap_err();
    assert_eq!(e.message, "discovery request failed: refused");
    let found = |id: &str| DiscoveredModel {
        id: id.to_string(),
        display_name: id.to_string(),
        context_window: None,
        max_output_tokens: None,
    };
    let d = discover_models(
        vec![found("new"), found("kept")],
        &vec![model("m1", "p", "kept"), model("m2", "p", "lost")],
        "now",
    );
    assert_eq!(d.already_imported, vec![false, true]);
    assert_eq!(d.disappeared, vec!["lost"]);
    assert_eq!(d.models.len(), 2);
    assert_eq!(d.observations.len(), 2);
    assert_eq!(d.observations[0].model_id, "m1");
    assert!(d.observations[0].advertised && !d.observations[1].advertised);
}

#[test]
fn model_lists_are_read() {
    let list = |text: &str| parse_model_list(&read_model_list(text).unwrap());
    let found = list(
        r#"{"data":[{"id":"a","context_window":10,"max_output_tokens":5},{"object":"x"},
            {"id":"b","display_name":"B","context_window":1.5}]}"#,
    );
    assert_eq!(found.len(), 2);
    assert_eq!((found[0].id.as_str(), found[0].display_name.as_str()), ("a", "a"));
    assert_eq!((found[0].context_window, found[0].max_output_tokens), (Some(10), Some(5)));
    assert_eq!((found[1].display_name.as_str(), found[1].context_window), ("B", None));
    let found = list(
        r#"{"models":[{"name":"models/g","displayName":"G","inputTokenLimit":-1,
            "outputTokenLimit":18446744073709551615}]}"#,
    );
    assert_eq!((found[0].id.as_str(), found[0].display_name.as_str()), ("g", "G"));
    assert_eq!((found[0].context_window, found[0].max_output_tokens), (Some(-1), None));
    assert!(list("[]").is_empty());
    assert!(list(r#"{"data":{},"models":[{"id":"x"}]}"#).is_empty());
    let e = read_model_list("{").unwrap_err();
    assert_eq!(e.status, 400);
    assert_eq!(
        e.message,
        "invalid discovery response: EOF while parsing an object at line 1 column 1"
    );
}

#[test]
fn a_discovery_goes_from_the_reply_to_the_observations() {
    let stored = vec![model("m1", "p", "a"), model("m2", "p", "lost")];
    let answer = |status, body: &str| Reply::Answer { status, body: body.to_string() };
    let reply = answer(200, r#"{"data":[{"id":"a","context_window":8},{"id":"n"}]}"#);
    let d = answer_discovery(reply, &stored, "now").unwrap();
    assert_eq!(d.already_imported, vec![true, false]);
    assert_eq!(d.disappeared, vec!["lost"]);
    assert_eq!(d.observations[0].context_window, Some(8));
    assert_eq!(d.observations[0].observed_at, "now");
    assert_eq!((d.observations[1].model_id.as_str(), d.observations[1].advertised), ("m2", false));
    let e = answer_discovery(answer(200, "no list"), &stored, "now").unwrap_err();
    assert!(e.message.starts_with("invalid discovery response: expected"));
    let e = answer_discovery(answer(500, "down"), &stored, "now").unwrap_err();
    assert_eq!(e.message, "upstream returned HTTP 500: down");
    let kept = record_observation(model("m1", "p", "a"), "{\"advertised\":true}".to_string());
    assert_eq!(kept.discovery, "{\"advertised\":true}");
    assert_eq!((kept.id.as_str(), kept.upstream_id.as_str(), kept.enabled), ("m1", "a", 1));
}

#[test]
fn json_texts_are_read_or_stood_in_for() {
    let v = read_body(b"{\"model\":\"m\"}").unwrap();
    assert_eq!(get_text(&v, "model").as_deref(), Some("m"));
    let e = read_body(b"{\"model\":").unwrap_err();
    assert_eq!(e.kind, ErrorKind::BadRequest);
    assert_eq!(e.message, "invalid JSON body: EOF while parsing a value at line 1 column 9");
    let default = || parse_json(b"[]").unwrap();
    assert_eq!(stored_json("{\"a\":1}", default()).to_string(), "{\"a\":1}");
    assert_eq!(stored_json("", default()).to_string(), "[]");
    assert!(parse_json(b"\xff").is_none());
    assert_eq!(stored_texts("[\"a\",\"b\"]"), vec!["a", "b"]);
    assert!(stored_texts("[\"a\",1]").is_empty());
    assert!(stored_texts("{}").is_empty());
    assert!(stored_texts("").is_empty());
    let body = r#"{"error":{"message":"no AIzaSyABCDEFGHIJKLMNOP"},"message":"x"}"#;
    assert_eq!(said(body).as_deref(), Some("no [REDACTED]"));
    assert_eq!(said(r#"{"error":"e","message":"x"}"#).as_deref(), Some("x"));
    assert_eq!(said("plain"), None);
}

#[test]
fn tests_of_a_provider() {
    let e = test_request("p", &TestBody { model: None }, None, "now").unwrap_err();
    assert_eq!(e.message, "provide a model to test");
    let b = TestBody { model: Some("gpt".to_string()) };
    let r = test_request("p", &b, None, "now").unwrap();
    assert_eq!(r.model.id, "probe");
    assert_eq!(r.model.max_output_tokens, Some(64));
    assert_eq!(r.max_tokens, 16);
    let r = test_request("p", &b, Some(model("m1", "p", "gpt")), "now").unwrap();
    assert_eq!(r.model.id, "m1");
    let t = judge_test(Reply::Answer { status: 204, body: "x".repeat(500) }, 12, "");
    assert!(t.ok);
    assert_eq!(t.response_preview.unwrap(), "x".repeat(400) + "\u{2026}");
    let t = judge_test(Reply::Answer { status: 500, body: "oops".to_string() }, 12, "server error");
    assert!(!t.ok);
    assert_eq!((t.status, t.error.as_deref()), (500, Some("server error")));
    let t = judge_test(Reply::Failed("timeout".to_string()), 12, "");
    assert_eq!((t.status, t.latency_ms), (0, None));
    assert_eq!(truncate("abc", 3), "abc");
    assert_eq!(truncate("abcd", 3), "abc\u{2026}");
}

#[test]
fn formats_errors_and_health() {
    assert_eq!(models_format(true, None), FrontendFormat::Anthropic);
    assert_eq!(models_format(false, Some("2023-06-01")), FrontendFormat::Anthropic);
    assert_eq!(models_format(false, Some("")), FrontendFormat::OpenAi);
    assert_eq!(require_key(Some("Bearer k"), None).unwrap(), "k");
    assert_eq!(require_key(None, None).unwrap_err().kind, ErrorKind::Unauthorized);
    assert_eq!(invalid_body("eof").message, "invalid JSON body: eof");
    for (k, s) in [
        (ErrorKind::BadRequest, 400),
        (ErrorKind::Unauthorized, 401),
        (ErrorKind::Forbidden, 403),
        (ErrorKind::NotFound, 404),
        (ErrorKind::RateLimited, 429),
        (ErrorKind::Upstream, 502),
        (ErrorKind::AllUnavailable, 503),
        (ErrorKind::Internal, 500),
    ] {
        assert_eq!(http_status(k), s);
    }
    let mut e = ProxyError::with_retry(ErrorKind::RateLimited, "m".to_string(), Some(7));
    e.headers.push(("x-own".to_string(), "1".to_string()));
    let h = error_headers("req_1", &e);
    let names: Vec<&str> = h.iter().map(|x| x.0.as_str()).collect();
    assert_eq!(names, vec!["content-type", "x-request-id", "retry-after", "x-own"]);
    assert_eq!(h[2].1, "7");
    let up = healthz(true, false);
    assert_eq!((up.http_status, up.status, up.control_plane), (200, "degraded", "degraded"));
    assert_eq!(healthz(false, true).http_status, 503);
    assert_eq!(healthz(true, true).status, "ok");
}

#[test]
fn the_dashboard_is_served_from_its_files() {
    assert_eq!(asset_path("/admin/assets/app.js"), "assets/app.js");
    assert_eq!(asset_path("//"), "index.html");
    assert_eq!(asset_path("/admin/"), "index.html");
    assert_eq!(asset_path("/adminx"), "adminx");
    assert_eq!(cache_control("assets/a.js"), "public, max-age=31536000, immutable");
    assert_eq!(cache_control("index.html"), "no-cache");
    match serve("/admin/assets/app.css", true, true) {
        Served::File { path, content_type, cache } => {
            assert_eq!(path, "assets/app.css");
            assert_eq!(content_type, "text/css");
            assert!(cache.contains("immutable"));
        }
        _ => panic!("a file"),
    }
    match serve("/admin/keys", false, true) {
        Served::File { path, content_type, .. } => {
            assert_eq!((path.as_str(), content_type.as_str()), ("index.html", "text/html"));
        }
        _ => panic!("the index"),
    }
    assert!(matches!(serve("/", false, false), Served::NotBuilt));
}

#[test]
fn upstreams_are_spoken_to_in_their_format() {
    assert_eq!(
        request_url("openai", "https://a/v1/", "m").as_deref(),
        Some("https://a/v1/chat/completions")
    );
    assert_eq!(request_url("anthropic", "https://a", "m").as_deref(), Some("https://a/messages"));
    assert_eq!(
        request_url("gemini", "https://a", "m").as_deref(),
        Some("https://a/models/m:streamGenerateContent?alt=sse")
    );
    assert_eq!(request_url("smoke", "https://a", "m"), None);
    assert_eq!(default_models_path(), "/models");
    let mut p = provider("p");
    assert!(matches!(place_credential(&p, "k"),
        Some(Placement::Header { name, value }) if name == "authorization" && value == "Bearer k"));
    p.auth_scheme = "custom_header".to_string();
    assert!(place_credential(&p, "k").is_none());
    p.custom_header_name = Some("x-key".to_string());
    assert!(matches!(place_credential(&p, "k"),
        Some(Placement::Header { name, value }) if name == "x-key" && value == "k"));
    p.auth_scheme = "query_param".to_string();
    p.custom_param_name = Some("key".to_string());
    assert!(matches!(place_credential(&p, "k"), Some(Placement::Query { name, .. }) if name == "key"));
}

#[test]
fn statuses_say_who_is_to_blame() {
    for (s, k) in [
        (401, FailureKind::AuthError),
        (403, FailureKind::AuthError),
        (408, FailureKind::Timeout),
        (429, FailureKind::RateLimit),
        (500, FailureKind::ServerError),
        (400, FailureKind::BadRequest),
    ] {
        assert_eq!(classify_status(s, "no"), k);
    }
    assert_eq!(classify_status(429, "QUOTA used up"), FailureKind::QuotaExhausted);
    assert_eq!(failure_message(502, None), "upstream returned HTTP 502");
    assert_eq!(failure_message(502, Some("down".to_string())), "down");
}

fn model_body(display_name: Option<&str>) -> ModelBody {
    ModelBody {
        upstream_id: "m-1".to_string(),
        display_name: display_name.map(|s| s.to_string()),
        enabled: true,
        context_window: Some(8192),
        max_output_tokens: None,
        capabilities: "{\"vision\":true}".to_string(),
        prices: "{}".to_string(),
        parameters: serde_json::Value::Null,
        thinking_map: serde_json::from_str("{}").unwrap(),
        extra_request: serde_json::from_str("{}").unwrap(),
    }
}

#[test]
fn models_are_added_to_a_provider() {
    let p = provider("p");
    let none = Prices::default();
    let e = create_model(None, "m".to_string(), &model_body(None), &none, "t".to_string());
    let e = e.unwrap_err();
    assert_eq!((e.status, e.message.as_str()), (404, "provider not found"));
    let m = create_model(Some(&p), "m".to_string(), &model_body(None), &none, "t".to_string());
    let m = m.unwrap();
    assert_eq!(m.row.id, "m");
    assert_eq!(m.row.provider_id, "p");
    assert_eq!(m.row.upstream_id, "m-1");
    assert_eq!(m.row.display_name, "m-1");
    assert_eq!(m.row.enabled, 1);
    assert_eq!(m.row.context_window, Some(8192));
    assert_eq!(m.row.capabilities, "{\"vision\":true}");
    assert_eq!(m.row.prices, "{}");
    assert_eq!(m.row.parameters, "null");
    assert_eq!(m.row.discovery, "{}");
    assert_eq!(m.row.created_at, "t");
    assert!(!m.new_prices);
    assert_eq!(m.audit.action, "model_configured");
    let mut body = model_body(Some("Shown"));
    body.upstream_id = "other".to_string();
    body.enabled = false;
    let prices = Prices { input_per_1m: Some(Dollars { bits: 1.5f64.to_bits() }), ..none };
    let u = update_model(m.row, &body, &prices);
    assert_eq!(u.row.upstream_id, "m-1");
    assert_eq!(u.row.display_name, "Shown");
    assert_eq!(u.row.enabled, 0);
    assert_eq!(u.row.created_at, "t");
    assert!(u.new_prices);
    assert_eq!(u.audit.details, "Updated model configuration.");
    let again = update_model(u.row, &model_body(None), &none);
    assert_eq!(again.row.display_name, "m-1");
    assert!(!again.new_prices);
}

#[test]
fn providers_come_with_their_first_account() {
    let crypto = Crypto::new(&[7u8; 32]);
    let mut body = provider_body();
    body.api_key = Some("sk-first-key-123456".to_string());
    body.account_label = None;
    let p = create_provider(&crypto, STRICT, "p1", "a1".to_string(), &body).unwrap();
    assert_eq!(p.row.id, "p1");
    assert_eq!(p.row.enabled, 1);
    assert_eq!(p.audit.action, "provider_created");
    assert_eq!(p.follow_redirects, body.follow_redirects);
    assert_eq!(p.credential_hosts, body.credential_hosts);
    assert_eq!(p.allow_insecure_tls, body.allow_insecure_tls);
    let a = p.account.unwrap().unwrap();
    assert_eq!(a.id, "a1");
    assert_eq!(a.provider_id, "p1");
    assert_eq!(a.label, "Default key");
    assert_eq!(a.status, "healthy");
    assert_eq!(a.quota_type, "none");
    assert_eq!(crypto.decrypt(&a.secret_enc).unwrap(), "sk-first-key-123456");
    body.api_key = Some("  ".to_string());
    let mut stored = p.row;
    stored.enabled = 0;
    let u = update_provider(&crypto, STRICT, &stored, "a2".to_string(), &body).unwrap();
    assert_eq!(u.row.id, "p1");
    assert_eq!(u.row.enabled, 0);
    assert!(u.account.unwrap().is_none());
    assert_eq!(u.audit.details, "Updated provider configuration.");
    body.wire_format = "smoke".to_string();
    let e = create_provider(&crypto, STRICT, "p2", "a3".to_string(), &body).unwrap_err();
    assert_eq!((e.status, e.message.as_str()), (400, "invalid wire_format"));
}

#[test]
fn accounts_are_added_with_a_key() {
    let crypto = Crypto::new(&[7u8; 32]);
    let e = create_account(&crypto, "a".to_string(), &account_body(None)).unwrap_err();
    assert_eq!((e.status, e.message.as_str()), (400, "api_key is required"));
    let mut body = account_body(Some("sk-abcdef-123456"));
    body.priority = 4;
    body.weight = 9;
    let a = create_account(&crypto, "a".to_string(), &body).unwrap();
    assert_eq!(a.row.id, "a");
    assert_eq!(a.row.label, body.label);
    assert_eq!((a.row.priority, a.row.weight), (4, 9));
    assert_eq!(a.row.quota_type, body.quota_type);
    assert_eq!(crypto.decrypt(&a.row.secret_enc).unwrap(), "sk-abcdef-123456");
    assert_eq!(a.audit.action, "account_credential_added");
}

#[test]
fn routes_keep_their_name() {
    let mut body = RouteBody {
        name: "fast".to_string(),
        description: "quick".to_string(),
        strategy: "priority".to_string(),
        fallback_triggers: serde_json::Value::Null,
        continuity_policy: "strip".to_string(),
        portability_policy: "strip".to_string(),
        sticky_routing: true,
        cache_affinity: false,
        max_attempts: Some(2),
        targets: Vec::new(),
    };
    let r = create_route("r1".to_string(), &body);
    assert_eq!(r.row.name, "fast");
    assert_eq!(r.row.enabled, 1);
    assert_eq!(
        r.triggers,
        "{\"on429\":true,\"on5xx\":true,\"onQuota\":true,\"onTimeout\":true}"
    );
    assert_eq!(r.audit.details, "Created route with 0 targets.");
    assert_eq!((r.description.as_str(), r.portability_policy.as_str()), ("quick", "strip"));
    assert!(r.sticky_routing && !r.cache_affinity);
    body.name = "slow".to_string();
    body.strategy = "weighted".to_string();
    let mut stored = r.row;
    stored.enabled = 0;
    let u = update_route(&stored, &body);
    assert_eq!(u.row.id, "r1");
    assert_eq!(u.row.name, "fast");
    assert_eq!(u.row.strategy, "weighted");
    assert_eq!(u.row.enabled, 0);
    assert_eq!(u.triggers, "null");
    assert_eq!(u.description, "quick");
    assert!(u.sticky_routing);
    assert_eq!(u.audit.target_name, "slow");
}

#[test]
fn the_list_of_models_needs_a_key() {
    assert_eq!(require_list_key(None, Some("k")).unwrap(), "k");
    let e = require_list_key(None, None).unwrap_err();
    assert_eq!((e.kind, e.message.as_str()), (ErrorKind::Unauthorized, "missing API key"));
}
