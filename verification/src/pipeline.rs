//! A request on its way: resolution, the plan of its targets, the parameter
//! check, the headers of its response, and its row in the usage log.

use crate::attempt::{Plan, Triggers};
use crate::crypto::{redact, redacted};
use crate::ids::{is_id, new_id};
use crate::json::{json_list_text, write_list};
use crate::number::{double_below, is_below};
use crate::plan::{attempts_allowed, filter_targets, fitting, max_attempts, TargetFit};
use crate::registry::{resolution, row_of, Registry, Resolution, Resolved, ResolvedTarget, RowKey};
use crate::stream::{ending_code, ending_name, Ending};
use crate::text::{signed_decimal, signed_text, text2, text3, text5, views};
use crate::types::{
    copy_text, fault, format_name, text_in, AccountRow, Dollars, ErrorKind, FailureKind, FrontendFormat,
    ModelRow, ProviderRow, ProxyError, RouteRow, TokenUsage, UpstreamFailure, VirtualKeyRow,
};
use vstd::prelude::*;

verus! {

/// What the usage log says of a request, besides its outcome.
#[derive(Debug)]
pub struct RequestMeta {
    pub request_id: String,
    pub key_id: Option<String>,
    pub key_name: Option<String>,
    pub client_format: &'static str,
    pub requested_model: String,
    pub route_id: Option<String>,
    pub route_name: Option<String>,
    pub fallback_hops: i64,
    pub fallback_path: Vec<String>,
    pub cache_status: &'static str,
}

impl RequestMeta {
    /// A request that has not been routed.
    pub fn new(request_id: String, format: FrontendFormat, requested_model: String) -> (r: Self)
        ensures
            r.request_id == request_id,
            r.requested_model == requested_model,
            r.client_format@ == format_name(format),
            r.key_id is None && r.key_name is None,
            r.route_id is None && r.route_name is None,
            r.fallback_hops == 0,
            r.fallback_path@ == Seq::<String>::empty(),
            r.cache_status@ == "bypass"@,
    {
        RequestMeta {
            request_id,
            key_id: None,
            key_name: None,
            client_format: format.as_str(),
            requested_model,
            route_id: None,
            route_name: None,
            fallback_hops: 0,
            fallback_path: Vec::new(),
            cache_status: "bypass",
        }
    }
}

/// What a requested model name leads to.
#[derive(Debug)]
pub enum Destination {
    /// One model, served by the accounts of its provider.
    Model { model: ModelRow, provider: ProviderRow },
    /// A Route with its targets, not yet in the order of its strategy.
    Route { route: RouteRow, targets: Vec<ResolvedTarget> },
}

/// What a client is told of a model name that stands for nothing.
pub open spec fn unknown_model(requested: Seq<char>) -> Seq<char> {
    "model '"@ + requested
        + "' is not configured. Use GET /v1/models to list available models."@
}

/// Looks up what a requested model name leads to. A name that stands for
/// nothing, a model that is gone and a provider that is disabled are not found.
pub fn find_destination(registry: &Registry, requested: &str) -> (r: Result<Destination, ProxyError>)
    ensures
        match resolution(registry@, requested@) {
            None => r matches Err(e) && e@ == fault(
                ErrorKind::NotFound,
                unknown_model(requested@),
                None,
            ),
            Some(Resolution::Route { route, targets }) => r matches Ok(
                Destination::Route { route: got, targets: list },
            ) && got == route && list@ == targets,
            Some(Resolution::Single { provider_id, model_id }) => match row_of(
                registry@.models@,
                RowKey::One(model_id),
            ) {
                None => r matches Err(e) && e@ == fault(
                    ErrorKind::NotFound,
                    "model not found"@,
                    None,
                ),
                Some(m) => match row_of(registry@.providers@, RowKey::One(provider_id)) {
                    None => r matches Err(e) && e@ == fault(
                        ErrorKind::NotFound,
                        "provider not found"@,
                        None,
                    ),
                    Some(p) => r == Ok::<Destination, ProxyError>(
                        Destination::Model { model: m, provider: p },
                    ),
                },
            },
        },
{
    match registry.resolve(requested) {
        None => Err(
            ProxyError::new(
                ErrorKind::NotFound,
                text3(
                    "model '",
                    requested,
                    "' is not configured. Use GET /v1/models to list available models.",
                ),
            ),
        ),
        Some(Resolved::Route { route, targets }) => Ok(Destination::Route { route, targets }),
        Some(Resolved::Single { provider_id, model_id }) => {
            let model = match registry.model(model_id.as_str()) {
                Some(m) => m,
                None => {
                    return Err(
                        ProxyError::new(ErrorKind::NotFound, "model not found".to_owned()),
                    );
                },
            };
            match registry.provider(provider_id.as_str()) {
                Some(provider) => Ok(Destination::Model { model, provider }),
                None => Err(ProxyError::new(ErrorKind::NotFound, "provider not found".to_owned())),
            }
        },
    }
}

/// A model served by one account.
pub open spec fn account_target(a: AccountRow, model: ModelRow, provider: ProviderRow) -> ResolvedTarget {
    ResolvedTarget { account: a, model, provider, priority: 1, weight: 1 }
}

/// One target for each account of a model's provider, in order.
pub fn single_targets(accounts: &Vec<AccountRow>, model: &ModelRow, provider: &ProviderRow) -> (r:
    Vec<ResolvedTarget>)
    ensures
        r@ == accounts@.map_values(|a: AccountRow| account_target(a, *model, *provider)),
{
    let mut out: Vec<ResolvedTarget> = Vec::new();
    let mut i: usize = 0;
    while i < accounts.len()
        invariant
            i <= accounts@.len(),
            out@.len() == i,
            forall|k: int|
                0 <= k < i ==> (#[trigger] out@[k]) == account_target(
                    accounts@[k],
                    *model,
                    *provider,
                ),
        decreases accounts@.len() - i,
    {
        out.push(
            ResolvedTarget {
                account: accounts[i].clone(),
                model: model.clone(),
                provider: provider.clone(),
                priority: 1,
                weight: 1,
            },
        );
        i = i + 1;
    }
    assert(out@ =~= accounts@.map_values(|a: AccountRow| account_target(a, *model, *provider)));
    out
}

/// Plans a request over its ordered targets: those that may not be tried are
/// left out, and the number of attempts is bounded. An error where no target is
/// left.
pub fn make_plan(
    targets: &Vec<ResolvedTarget>,
    facts: &Vec<TargetFit>,
    route: Option<RouteRow>,
    requested_model: String,
    allowed_providers: &Vec<String>,
    input_tokens: u64,
    allow_fallback: bool,
    triggers: Triggers,
    opaque: bool,
) -> (r: Result<Plan, ProxyError>)
    requires
        facts@.len() == targets@.len(),
    ensures
        ({
            let left = fitting(targets@, facts@, views(allowed_providers@), input_tokens);
            match r {
                Ok(p) => {
                    &&& left.len() > 0
                    &&& p.targets@ == left
                    &&& p.route == route
                    &&& p.requested_model == requested_model
                    &&& p.max_attempts == attempts_allowed(
                        match route {
                            Some(c) => c.max_attempts,
                            None => None,
                        },
                        left.len() as int,
                    )
                    &&& 1 <= p.max_attempts <= 5
                    &&& p.allow_fallback == allow_fallback
                    &&& p.triggers == triggers
                    &&& p.opaque == opaque
                },
                Err(e) => left.len() == 0 && e@ == fault(
                    ErrorKind::Unsupported,
                    "no configured target can satisfy this request (capabilities or limits mismatch)"@,
                    None,
                ),
            }
        }),
{
    match filter_targets(targets, facts, allowed_providers, input_tokens) {
        Err(e) => Err(e),
        Ok(left) => {
            let configured = match &route {
                Some(c) => c.max_attempts,
                None => None,
            };
            let n = max_attempts(configured, left.len());
            Ok(
                Plan {
                    targets: left,
                    route,
                    requested_model,
                    max_attempts: n,
                    allow_fallback,
                    triggers,
                    opaque,
                },
            )
        },
    }
}

/// A bound of a parameter: the bits of the double, and how it is written.
#[derive(Debug)]
pub struct Bound {
    pub bits: u64,
    pub text: String,
}

/// What a model's configuration says of a parameter.
#[derive(Debug)]
pub struct ParamSpec {
    pub supported: bool,
    /// A value that is not supported is rejected, not dropped or clamped.
    pub reject: bool,
    pub min: Option<Bound>,
    pub max: Option<Bound>,
}

/// A parameter of a request: its name, the bits of its value where the client
/// gave one, and what the model's configuration says of it.
#[derive(Debug)]
pub struct Param {
    pub name: String,
    pub value: Option<u64>,
    pub spec_of: Option<ParamSpec>,
}

/// The error that a parameter is rejected with, where it is.
pub open spec fn param_fault(p: Param, model: Seq<char>) -> Option<crate::types::Fault> {
    if p.value is None || p.spec_of is None || !p.spec_of->0.reject {
        None
    } else {
        let v = p.value->0;
        let s = p.spec_of->0;
        if !s.supported {
            Some(
                fault(
                    ErrorKind::Unsupported,
                    "parameter '"@ + p.name@ + "' is not supported by model '"@ + model + "'"@,
                    None,
                ),
            )
        } else if s.min is Some && double_below(v, s.min->0.bits) {
            Some(
                fault(
                    ErrorKind::BadRequest,
                    "parameter '"@ + p.name@ + "' below minimum "@ + s.min->0.text@,
                    None,
                ),
            )
        } else if s.max is Some && double_below(s.max->0.bits, v) {
            Some(
                fault(
                    ErrorKind::BadRequest,
                    "parameter '"@ + p.name@ + "' above maximum "@ + s.max->0.text@,
                    None,
                ),
            )
        } else {
            None
        }
    }
}

/// The error of the first parameter that is rejected.
pub open spec fn params_fault(params: Seq<Param>, model: Seq<char>) -> Option<crate::types::Fault>
    decreases params.len(),
{
    if params.len() == 0 {
        None
    } else {
        let before = params_fault(params.drop_last(), model);
        if before is Some {
            before
        } else {
            param_fault(params.last(), model)
        }
    }
}

fn check_param(p: &Param, model: &str) -> (r: Result<(), ProxyError>)
    ensures
        match r {
            Ok(_) => param_fault(*p, model@) is None,
            Err(e) => param_fault(*p, model@) == Some(e@),
        },
{
    let v: u64 = match p.value {
        Some(v) => v,
        None => {
            return Ok(());
        },
    };
    let s = match &p.spec_of {
        Some(s) => s,
        None => {
            return Ok(());
        },
    };
    if !s.reject {
        return Ok(());
    }
    if !s.supported {
        return Err(
            ProxyError::new(
                ErrorKind::Unsupported,
                text5(
                    "parameter '",
                    p.name.as_str(),
                    "' is not supported by model '",
                    model,
                    "'",
                ),
            ),
        );
    }
    if let Some(min) = &s.min {
        if is_below(v, min.bits) {
            let head = text3("parameter '", p.name.as_str(), "' below minimum ");
            return Err(
                ProxyError::new(ErrorKind::BadRequest, text2(head.as_str(), min.text.as_str())),
            );
        }
    }
    if let Some(max) = &s.max {
        if is_below(max.bits, v) {
            let head = text3("parameter '", p.name.as_str(), "' above maximum ");
            return Err(
                ProxyError::new(ErrorKind::BadRequest, text2(head.as_str(), max.text.as_str())),
            );
        }
    }
    Ok(())
}

/// Checks the parameters of a request, in order, against a model's
/// configuration: under the policy "reject" a parameter that is not supported
/// or out of its bounds is an error.
pub fn check_param_policy(params: &Vec<Param>, model_display: &str) -> (r: Result<(), ProxyError>)
    ensures
        match r {
            Ok(_) => params_fault(params@, model_display@) is None,
            Err(e) => params_fault(params@, model_display@) == Some(e@),
        },
{
    let mut i: usize = 0;
    assert(params@.take(0).len() == 0);
    while i < params.len()
        invariant
            i <= params@.len(),
            params_fault(params@.take(i as int), model_display@) is None,
        decreases params@.len() - i,
    {
        proof {
            assert(params@.take(i + 1).drop_last() =~= params@.take(i as int));
        }
        if let Err(e) = check_param(&params[i], model_display) {
            proof {
                lemma_first_fault(params@, i + 1, model_display@);
            }
            return Err(e);
        }
        i = i + 1;
    }
    assert(params@.take(params@.len() as int) =~= params@);
    Ok(())
}

proof fn lemma_first_fault(params: Seq<Param>, n: int, model: Seq<char>)
    requires
        0 <= n <= params.len(),
        params_fault(params.take(n), model) is Some,
    ensures
        params_fault(params, model) == params_fault(params.take(n), model),
    decreases params.len(),
{
    if n < params.len() {
        assert(params.drop_last().take(n) =~= params.take(n));
        lemma_first_fault(params.drop_last(), n, model);
    } else {
        assert(params.take(n) =~= params);
    }
}

/// Why a request could not be sent, in words that hold no secret.
pub open spec fn send_error_text(timed_out: bool, unreachable: bool, error: Seq<char>) -> Seq<char> {
    if timed_out {
        "timeout"@
    } else if unreachable {
        "connect error"@
    } else {
        redacted(error)
    }
}

/// Why a request could not be sent, in words that hold no secret.
pub fn classify_send_error(timed_out: bool, unreachable: bool, error: &str) -> (r: String)
    ensures
        r@ == send_error_text(timed_out, unreachable, error@),
{
    if timed_out {
        "timeout".to_owned()
    } else if unreachable {
        "connect error".to_owned()
    } else {
        redact(error)
    }
}

/// The failure of a request that could not be sent.
pub fn send_failure(timed_out: bool, unreachable: bool, error: &str) -> (r: UpstreamFailure)
    ensures
        r.kind == (if timed_out {
            FailureKind::Timeout
        } else {
            FailureKind::ConnectionError
        }),
        r.status is None && r.retry_after_secs is None && r.quota_reset_at is None,
        r.message@ == "connection to upstream failed: "@ + send_error_text(
            timed_out,
            unreachable,
            error@,
        ),
{
    let text = classify_send_error(timed_out, unreachable, error);
    UpstreamFailure {
        kind: if timed_out {
            FailureKind::Timeout
        } else {
            FailureKind::ConnectionError
        },
        status: None,
        retry_after_secs: None,
        message: text2("connection to upstream failed: ", text.as_str()),
        quota_reset_at: None,
    }
}

/// The upstream's own request id: the header `x-request-id`, else
/// `request-id`. A header that is there but no text gives none.
pub fn extract_upstream_request_id(
    x_request_id: Option<Option<String>>,
    request_id: Option<Option<String>>,
) -> (r: Option<String>)
    ensures
        r == (match x_request_id {
            Some(v) => v,
            None => match request_id {
                Some(v) => v,
                None => None,
            },
        }),
{
    match x_request_id {
        Some(v) => v,
        None => match request_id {
            Some(v) => v,
            None => None,
        },
    }
}

/// Names and values of headers.
pub open spec fn header_views(h: Seq<(String, String)>) -> Seq<(Seq<char>, Seq<char>)> {
    h.map_values(|p: (String, String)| (p.0@, p.1@))
}

/// Appends a header.
pub fn push_header(h: &mut Vec<(String, String)>, name: &str, value: &str)
    ensures
        header_views(final(h)@) == header_views(old(h)@).push((name@, value@)),
{
    let ghost before = h@;
    h.push((name.to_owned(), value.to_owned()));
    assert(header_views(h@) =~= header_views(before).push((name@, value@)));
}

/// The headers of a response: the request id, the cache status and the opaque
/// id of the Route decision; the number of fallbacks and a warning where there
/// are any; and those of the body's form. None of them depends on the account
/// or the provider that serves.
pub open spec fn response_header_views(
    meta: RequestMeta,
    route_trace_id: Seq<char>,
    warning: Option<Seq<char>>,
    stream: bool,
) -> Seq<(Seq<char>, Seq<char>)> {
    let basic = seq![
        ("x-request-id"@, meta.request_id@),
        ("x-kinetix-cache"@, meta.cache_status@),
        ("x-kinetix-route-id"@, route_trace_id),
    ];
    let hops = if meta.fallback_hops > 0 {
        seq![("x-kinetix-fallback"@, signed_decimal(meta.fallback_hops as int))]
    } else {
        Seq::empty()
    };
    let warned = match warning {
        Some(w) => seq![("x-kinetix-warning"@, w)],
        None => Seq::empty(),
    };
    let form = if stream {
        seq![
            ("content-type"@, "text/event-stream"@),
            ("cache-control"@, "no-cache"@),
            ("connection"@, "keep-alive"@),
            ("x-accel-buffering"@, "no"@),
        ]
    } else {
        seq![("content-type"@, "application/json"@)]
    };
    basic + hops + warned + form
}

/// The headers of a response.
pub fn response_headers(
    meta: &RequestMeta,
    route_trace_id: &str,
    warning: Option<&str>,
    stream: bool,
) -> (r: Vec<(String, String)>)
    ensures
        header_views(r@) == response_header_views(
            *meta,
            route_trace_id@,
            match warning {
                Some(w) => Some(w@),
                None => None,
            },
            stream,
        ),
{
    let mut h: Vec<(String, String)> = Vec::new();
    assert(header_views(h@) =~= Seq::<(Seq<char>, Seq<char>)>::empty());
    push_header(&mut h, "x-request-id", meta.request_id.as_str());
    push_header(&mut h, "x-kinetix-cache", meta.cache_status);
    push_header(&mut h, "x-kinetix-route-id", route_trace_id);
    if meta.fallback_hops > 0 {
        push_header(&mut h, "x-kinetix-fallback", signed_text(meta.fallback_hops).as_str());
    }
    if let Some(w) = warning {
        push_header(&mut h, "x-kinetix-warning", w);
    }
    if stream {
        push_header(&mut h, "content-type", "text/event-stream");
        push_header(&mut h, "cache-control", "no-cache");
        push_header(&mut h, "connection", "keep-alive");
        push_header(&mut h, "x-accel-buffering", "no");
    } else {
        push_header(&mut h, "content-type", "application/json");
    }
    assert(header_views(h@) =~= response_header_views(
        *meta,
        route_trace_id@,
        match warning {
            Some(w) => Some(w@),
            None => None,
        },
        stream,
    ));
    h
}

/// One row of the usage log. A count or a cost that is not known is absent, not
/// zero.
#[derive(Debug)]
pub struct UsageLogRow {
    pub id: String,
    pub request_id: String,
    pub ts: String,
    pub key_id: Option<String>,
    pub key_name: Option<String>,
    pub client_format: String,
    pub requested_model: String,
    pub effective_model: Option<String>,
    pub route_id: Option<String>,
    pub route_name: Option<String>,
    pub fallback_hops: i64,
    pub fallback_path: String,
    pub status: String,
    pub status_code: i64,
    pub latency_ms: Option<i64>,
    pub ttft_ms: Option<i64>,
    pub input_tokens: Option<i64>,
    pub output_tokens: Option<i64>,
    pub cached_tokens: Option<i64>,
    pub thinking_tokens: Option<i64>,
    pub cost_usd: Option<Dollars>,
    pub cost_known: i64,
    pub price_version_id: Option<String>,
    pub cache_status: String,
    pub serving_account_id: Option<String>,
    pub serving_account: Option<String>,
    pub serving_provider: Option<String>,
    pub upstream_request_id: Option<String>,
    pub flagged: i64,
    pub error_message: Option<String>,
}

/// How a request went.
#[derive(Debug)]
pub struct Outcome {
    pub ending: Ending,
    pub usage: TokenUsage,
    pub latency_ms: i64,
    pub ttft_ms: Option<i64>,
    pub cost: Option<Dollars>,
    pub error_message: Option<String>,
    pub upstream_request_id: Option<String>,
}

/// A count as the log stores it.
pub open spec fn logged_count(n: Option<u64>) -> Option<i64> {
    match n {
        Some(v) => Some(v as i64),
        None => None,
    }
}

fn log_count(n: Option<u64>) -> (r: Option<i64>)
    ensures
        r == logged_count(n),
{
    match n {
        Some(v) => Some(v as i64),
        None => None,
    }
}

/// Whether a row logs a request that `target` served.
pub open spec fn logs(
    row: UsageLogRow,
    meta: RequestMeta,
    key: Option<VirtualKeyRow>,
    target: ResolvedTarget,
    model_display: Seq<char>,
    o: Outcome,
) -> bool {
    &&& row.request_id == meta.request_id
    &&& row.key_id == (match key {
        Some(k) => Some(k.id),
        None => None,
    })
    &&& row.key_name == (match key {
        Some(k) => Some(k.name),
        None => None,
    })
    &&& row.client_format@ == meta.client_format@
    &&& row.requested_model == meta.requested_model
    &&& text_in(row.effective_model) == Some(model_display)
    &&& row.route_id == meta.route_id
    &&& row.route_name == meta.route_name
    &&& row.fallback_hops == meta.fallback_hops
    &&& row.fallback_path@ == json_list_text(views(meta.fallback_path@))
    &&& row.status@ == ending_name(o.ending)
    &&& row.status_code == ending_code(o.ending)
    &&& row.latency_ms == Some(o.latency_ms)
    &&& row.ttft_ms == o.ttft_ms
    &&& row.input_tokens == logged_count(o.usage.input)
    &&& row.output_tokens == logged_count(o.usage.output)
    &&& row.cached_tokens == logged_count(o.usage.cached)
    &&& row.thinking_tokens == logged_count(o.usage.thinking)
    &&& row.cost_usd == o.cost
    &&& row.cost_known == (if o.cost is Some {
        1i64
    } else {
        0i64
    })
    &&& row.price_version_id is None
    &&& row.cache_status@ == meta.cache_status@
    &&& row.serving_account_id == Some(target.account.id)
    &&& row.serving_account == Some(target.account.label)
    &&& row.serving_provider == Some(target.provider.name)
    &&& row.upstream_request_id == o.upstream_request_id
    &&& row.flagged == (if o.usage.input is None && o.ending == Ending::Success {
        1i64
    } else {
        0i64
    })
    &&& row.error_message == o.error_message
}

/// The usage log row of a request that `target` served, under a fresh id.
pub fn finalize_log(
    meta: &RequestMeta,
    key: Option<&VirtualKeyRow>,
    target: &ResolvedTarget,
    model_display: &str,
    ts: &str,
    outcome: Outcome,
) -> (r: UsageLogRow)
    ensures
        is_id(r.id@, "usage_"@),
        r.ts@ == ts@,
        logs(
            r,
            *meta,
            match key {
                Some(k) => Some(*k),
                None => None,
            },
            *target,
            model_display@,
            outcome,
        ),
{
    let flagged: i64 = if outcome.usage.input.is_none() && matches!(
        outcome.ending,
        Ending::Success
    ) {
        1
    } else {
        0
    };
    UsageLogRow {
        id: new_id("usage_"),
        request_id: meta.request_id.clone(),
        ts: ts.to_owned(),
        key_id: match key {
            Some(k) => Some(k.id.clone()),
            None => None,
        },
        key_name: match key {
            Some(k) => Some(k.name.clone()),
            None => None,
        },
        client_format: meta.client_format.to_owned(),
        requested_model: meta.requested_model.clone(),
        effective_model: Some(model_display.to_owned()),
        route_id: copy_text(&meta.route_id),
        route_name: copy_text(&meta.route_name),
        fallback_hops: meta.fallback_hops,
        fallback_path: write_list(&meta.fallback_path),
        status: outcome.ending.name().to_owned(),
        status_code: outcome.ending.code(),
        latency_ms: Some(outcome.latency_ms),
        ttft_ms: outcome.ttft_ms,
        input_tokens: log_count(outcome.usage.input),
        output_tokens: log_count(outcome.usage.output),
        cached_tokens: log_count(outcome.usage.cached),
        thinking_tokens: log_count(outcome.usage.thinking),
        cost_usd: outcome.cost,
        cost_known: if outcome.cost.is_some() {
            1
        } else {
            0
        },
        price_version_id: None,
        cache_status: meta.cache_status.to_owned(),
        serving_account_id: Some(target.account.id.clone()),
        serving_account: Some(target.account.label.clone()),
        serving_provider: Some(target.provider.name.clone()),
        upstream_request_id: copy_text(&outcome.upstream_request_id),
        flagged,
        error_message: copy_text(&outcome.error_message),
    }
}

/// A count that was not reported, and a cost that is not known, are logged as
/// absent: a zero in the log is one that was reported.
pub proof fn law_unknown_is_not_zero(
    row: UsageLogRow,
    meta: RequestMeta,
    key: Option<VirtualKeyRow>,
    target: ResolvedTarget,
    model_display: Seq<char>,
    o: Outcome,
)
    requires
        logs(row, meta, key, target, model_display, o),
    ensures
        row.input_tokens is None == o.usage.input is None,
        row.output_tokens is None == o.usage.output is None,
        row.cached_tokens is None == o.usage.cached is None,
        row.thinking_tokens is None == o.usage.thinking is None,
        row.cost_usd is None == (row.cost_known == 0),
        o.usage.input is None && o.ending == Ending::Success ==> row.flagged == 1,
{
}

/// How many days the body of a response is kept; `None` where the key does not
/// ask for it.
pub fn body_log_days(key: Option<&VirtualKeyRow>) -> (r: Option<u32>)
    ensures
        r == (if key matches Some(k) && k.body_logging != 0 {
            Some(7u32)
        } else {
            None
        }),
{
    match key {
        Some(k) => if k.body_logging != 0 {
            Some(7)
        } else {
            None
        },
        None => None,
    }
}

/// A value is refused only where the model's rule is to refuse: a parameter it
/// does not support, and a value below the least or above the greatest it takes.
pub proof fn law_parameters_are_refused_for_cause(p: Param, model: Seq<char>)
    ensures
        p.value is None ==> param_fault(p, model) is None,
        p.spec_of is None ==> param_fault(p, model) is None,
        p.spec_of matches Some(s) ==> (!s.reject ==> param_fault(p, model) is None),
        p.value is Some && p.spec_of is Some && p.spec_of->0.reject ==> {
            let v = p.value->0;
            let s = p.spec_of->0;
            let low = s.min is Some && double_below(v, s.min->0.bits);
            let high = s.max is Some && double_below(s.max->0.bits, v);
            &&& param_fault(p, model) is Some <==> !s.supported || low || high
            &&& !s.supported ==> param_fault(p, model)->0.kind == ErrorKind::Unsupported
            &&& s.supported && (low || high) ==> param_fault(p, model)->0.kind
                == ErrorKind::BadRequest
        },
{
}

/// Parameters are checked in order: the first that is refused is the one that is
/// told, and where none is refused all pass.
pub proof fn law_first_refused_parameter_is_told(
    a: Seq<Param>,
    p: Param,
    b: Seq<Param>,
    model: Seq<char>,
)
    ensures
        params_fault(a, model) is Some ==> params_fault(a + b, model) == params_fault(a, model),
        params_fault(a, model) is None ==> params_fault(a + b, model) == params_fault(b, model),
        params_fault(seq![p], model) == param_fault(p, model),
        params_fault(Seq::empty(), model) is None,
    decreases b.len(),
{
    assert(seq![p].drop_last() =~= Seq::<Param>::empty());
    assert(params_fault(seq![p].drop_last(), model) is None);
    if b.len() == 0 {
        assert(a + b =~= a);
    } else {
        law_first_refused_parameter_is_told(a, p, b.drop_last(), model);
        assert((a + b).drop_last() =~= a + b.drop_last());
        assert((a + b).last() == b.last());
    }
}

/// A failure to send is told as a timeout or a failed connection, and otherwise in
/// the words of the error without the secrets in it.
pub proof fn law_send_errors_are_told_without_secrets(unreachable: bool, error: Seq<char>)
    ensures
        send_error_text(true, unreachable, error) == "timeout"@,
        send_error_text(false, true, error) == "connect error"@,
        send_error_text(false, false, error) == redacted(error),
{
}

/// Every answer names its request, its Route and its cache; it tells its fallbacks
/// where there were any and its warning where there is one, and its form is that
/// of a stream or of JSON.
pub proof fn law_answers_have_their_headers(
    meta: RequestMeta,
    trace: Seq<char>,
    warning: Option<Seq<char>>,
    stream: bool,
)
    ensures
        ({
            let h = response_header_views(meta, trace, warning, stream);
            &&& h.contains(("x-request-id"@, meta.request_id@))
            &&& h.contains(("x-kinetix-cache"@, meta.cache_status@))
            &&& h.contains(("x-kinetix-route-id"@, trace))
            &&& meta.fallback_hops > 0 ==> h.contains(
                ("x-kinetix-fallback"@, signed_decimal(meta.fallback_hops as int)),
            )
            &&& warning matches Some(w) ==> h.contains(("x-kinetix-warning"@, w))
            &&& stream ==> h.contains(("content-type"@, "text/event-stream"@))
            &&& stream ==> h.contains(("cache-control"@, "no-cache"@))
            &&& !stream ==> h.contains(("content-type"@, "application/json"@))
            &&& h.len() == 3 + (if meta.fallback_hops > 0 {
                1int
            } else {
                0
            }) + (if warning is Some {
                1int
            } else {
                0
            }) + (if stream {
                4int
            } else {
                1
            })
        }),
{
    let h = response_header_views(meta, trace, warning, stream);
    assert(h[0] == ("x-request-id"@, meta.request_id@));
    assert(h[1] == ("x-kinetix-cache"@, meta.cache_status@));
    assert(h[2] == ("x-kinetix-route-id"@, trace));
    let a: int = if meta.fallback_hops > 0 {
        4
    } else {
        3
    };
    if meta.fallback_hops > 0 {
        assert(h[3] == ("x-kinetix-fallback"@, signed_decimal(meta.fallback_hops as int)));
    }
    let b: int = if warning is Some {
        a + 1
    } else {
        a
    };
    if let Some(w) = warning {
        assert(h[a] == ("x-kinetix-warning"@, w));
    }
    if stream {
        assert(h[b] == ("content-type"@, "text/event-stream"@));
        assert(h[b + 1] == ("cache-control"@, "no-cache"@));
    } else {
        assert(h[b] == ("content-type"@, "application/json"@));
    }
}

/// A direct model is tried with each of its accounts as an equal: the same model
/// and provider, in the order of the accounts.
pub proof fn law_direct_models_use_their_accounts(a: AccountRow, m: ModelRow, p: ProviderRow)
    ensures
        account_target(a, m, p).account == a,
        account_target(a, m, p).model == m,
        account_target(a, m, p).provider == p,
        account_target(a, m, p).priority == 1,
        account_target(a, m, p).weight == 1,
{
}

/// A log tells each count of tokens as it was reported, marks a success without a
/// count of its input and no other request, and knows the cost exactly where one
/// was computed.
pub proof fn law_logs_tell_what_happened(
    row: UsageLogRow,
    meta: RequestMeta,
    key: Option<VirtualKeyRow>,
    target: ResolvedTarget,
    model: Seq<char>,
    o: Outcome,
    n: u64,
)
    requires
        logs(row, meta, key, target, model, o),
        n <= i64::MAX,
    ensures
        o.usage.input == Some(n) ==> row.input_tokens == Some(n as i64) && row.flagged == 0,
        o.usage.output == Some(n) ==> row.output_tokens == Some(n as i64),
        o.usage.cached == Some(n) ==> row.cached_tokens == Some(n as i64),
        o.usage.thinking == Some(n) ==> row.thinking_tokens == Some(n as i64),
        o.usage.input is None && o.ending == Ending::Success ==> row.flagged == 1,
        o.ending != Ending::Success ==> row.flagged == 0,
        row.cost_known == 1 <==> o.cost is Some,
        row.cost_usd == o.cost,
        row.request_id@ == meta.request_id@,
        row.requested_model@ == meta.requested_model@,
        row.fallback_hops == meta.fallback_hops,
        row.latency_ms == Some(o.latency_ms) && row.ttft_ms == o.ttft_ms,
        key matches Some(k) ==> row.key_id == Some(k.id) && row.key_name == Some(k.name),
        row.serving_account_id == Some(target.account.id),
        row.serving_provider == Some(target.provider.name),
        row.error_message == o.error_message,
        row.client_format@ == meta.client_format@,
        text_in(row.effective_model) == Some(model),
        row.route_id == meta.route_id && row.route_name == meta.route_name,
        row.status@ == ending_name(o.ending) && row.status_code == ending_code(o.ending),
        row.cache_status@ == meta.cache_status@,
        row.serving_account == Some(target.account.label),
        row.upstream_request_id == o.upstream_request_id,
        key is None ==> row.key_id is None && row.key_name is None,
        row.price_version_id is None,
{
}

} // verus!
