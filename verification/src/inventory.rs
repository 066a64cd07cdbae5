//! What an administrator adds to the inventory and changes in it: providers with
//! a first key, accounts, models and Routes.

use crate::admin::{
    account_credential, admin_audit, admin_line, api_fault, check_provider, default_triggers,
    enroll, has_key, json_or, provider_created, provider_fault, provider_row, route_triggers,
    text_or_old, AccountBody, ApiError, Audit, Enrollment, ProviderBody, RouteBody,
};
use crate::clock::Timestamp;
use crate::cost::{is_priced, Prices};
use crate::crypto::{crypto_text, masked, secret_in, Crypto, CryptoFault};
use crate::json::{json_model, json_text, write_json};
use crate::outbound::{url_parts, OutboundPolicy};
use crate::pool::{law_status_round_trip, status_when, AccountStatus};
use crate::text::{byte_len, decimal, decimal_text, text3, trim_of};
use crate::types::{AccountRow, ModelRow, ProviderRow, RouteRow};
use vstd::prelude::*;

verus! {

/// Whether an account is a new one with a credential: healthy, without a history.
pub open spec fn is_new_account(
    row: AccountRow,
    id: Seq<char>,
    provider_id: Seq<char>,
    label: Seq<char>,
    key: Seq<u8>,
    secret: Seq<char>,
) -> bool {
    &&& row.id@ == id
    &&& row.provider_id@ == provider_id
    &&& row.label@ == label
    &&& secret_in(key, row.secret_enc@) == Ok::<Seq<char>, CryptoFault>(secret)
    &&& row.secret_mask@ == masked(secret)
    &&& row.status@ == "healthy"@
    &&& row.cooldown_until is None
    &&& row.quota_window_s is None
    &&& row.quota_reset_at is None
    &&& row.last_error is None
    &&& row.failures == 0
}

fn new_account(id: String, provider_id: &str, c: Enrollment) -> (r: AccountRow)
    ensures
        r.id@ == id@,
        r.provider_id@ == provider_id@,
        r.label@ == c.label@,
        r.secret_enc@ == c.secret_enc@,
        r.secret_mask@ == c.key_mask@,
        r.priority == 1,
        r.weight == 1,
        r.status@ == "healthy"@,
        r.cooldown_until is None,
        r.quota_type@ == "none"@,
        r.quota_window_s is None,
        r.quota_reset_at is None,
        r.soft_quota_usd is None,
        r.last_error is None,
        r.failures == 0,
{
    AccountRow {
        id,
        provider_id: provider_id.to_owned(),
        label: c.label,
        secret_enc: c.secret_enc,
        secret_mask: c.key_mask,
        priority: 1,
        weight: 1,
        status: "healthy".to_owned(),
        cooldown_until: None,
        quota_type: "none".to_owned(),
        quota_window_s: None,
        quota_reset_at: None,
        soft_quota_usd: None,
        last_error: None,
        failures: 0,
    }
}

/// A new account and the line of the audit log on it.
#[derive(Debug)]
pub struct NewAccount {
    pub row: AccountRow,
    pub audit: Audit,
}

/// Adds an account. A key is required, and stored encrypted.
pub fn create_account(crypto: &Crypto, id: String, body: &AccountBody) -> (r: Result<
    NewAccount,
    ApiError,
>)
    requires
        has_key(body.api_key) ==> byte_len(body.api_key->0@) + 28 <= isize::MAX / 2,
    ensures
        !has_key(body.api_key) ==> (r matches Err(e) && e@ == api_fault(
            400,
            "api_key is required"@,
        )),
        has_key(body.api_key) && byte_len(body.api_key->0@) > 0x10_0000_0000 ==> (r matches Err(e)
            && e@ == api_fault(500, crypto_text(CryptoFault::EncryptionFailed))),
        has_key(body.api_key) && byte_len(body.api_key->0@) <= 0x10_0000_0000 ==> (r matches Ok(a)
            && is_new_account(
            a.row,
            id@,
            body.provider_id@,
            body.label@,
            crypto@,
            body.api_key->0@,
        ) && a.row.priority == body.priority && a.row.weight == body.weight
            && a.row.soft_quota_usd == body.soft_quota_usd && a.row.quota_type@
            == body.quota_type@ && a.audit@ == admin_line(
            "account_credential_added"@,
            "account"@,
            id@,
            body.label@,
            "Enrolled a new credential into the pool."@,
        )),
{
    let c = match account_credential(crypto, body) {
        Ok(c) => c,
        Err(e) => {
            return Err(e);
        },
    };
    let audit = admin_audit(
        "account_credential_added",
        "account",
        id.as_str(),
        body.label.as_str(),
        "Enrolled a new credential into the pool.",
    );
    let mut row = new_account(id, body.provider_id.as_str(), c);
    row.priority = body.priority;
    row.weight = body.weight;
    row.soft_quota_usd = body.soft_quota_usd;
    row.quota_type = body.quota_type.clone();
    Ok(NewAccount { row, audit })
}

/// A provider that is ready to be stored with what governs its connections, its
/// first account where a key was given, and the line of the audit log on it.
#[derive(Debug)]
pub struct StoredProvider {
    pub row: ProviderRow,
    pub follow_redirects: bool,
    pub credential_hosts: String,
    pub allow_insecure_tls: bool,
    pub account: Result<Option<AccountRow>, ApiError>,
    pub audit: Audit,
}

/// Whether a provider row holds what was entered.
pub open spec fn holds_provider(row: ProviderRow, body: ProviderBody) -> bool {
    &&& row.name@ == body.name@
    &&& row.base_url@ == body.base_url@
    &&& row.wire_format@ == body.wire_format@
    &&& row.auth_scheme@ == body.auth_scheme@
    &&& row.custom_header_name == body.custom_header_name
    &&& row.custom_param_name == body.custom_param_name
    &&& row.extra_headers@ == json_text(json_model(body.extra_headers))
    &&& row.timeout_ms == body.timeout_ms
    &&& row.capability_mode@ == body.capability_mode@
    &&& row.models_path == body.models_path
}

/// Whether what is stored of a provider is what was entered.
pub open spec fn stores_provider(p: StoredProvider, body: ProviderBody) -> bool {
    &&& holds_provider(p.row, body)
    &&& p.follow_redirects == body.follow_redirects
    &&& p.credential_hosts@ == body.credential_hosts@
    &&& p.allow_insecure_tls == body.allow_insecure_tls
}

/// Whether an account is what the key that was entered with a provider makes: a
/// plain new one, none where no key was given, and an error where the key is too
/// long for the cipher.
pub open spec fn is_first_account(
    account: Result<Option<AccountRow>, ApiError>,
    id: Seq<char>,
    provider_id: Seq<char>,
    body: ProviderBody,
    key: Seq<u8>,
) -> bool {
    if !has_key(body.api_key) {
        account matches Ok(a) && a is None
    } else if byte_len(body.api_key->0@) > 0x10_0000_0000 {
        account matches Err(e) && e@ == api_fault(500, crypto_text(CryptoFault::EncryptionFailed))
    } else {
        account matches Ok(a) && a is Some && is_new_account(
            a->0,
            id,
            provider_id,
            text_or_old(body.account_label, "Default key"@),
            key,
            body.api_key->0@,
        ) && a->0.priority == 1 && a->0.weight == 1 && a->0.soft_quota_usd is None
            && a->0.quota_type@ == "none"@
    }
}

fn first_account(crypto: &Crypto, id: String, provider_id: &str, body: &ProviderBody) -> (r: Result<
    Option<AccountRow>,
    ApiError,
>)
    requires
        has_key(body.api_key) ==> byte_len(body.api_key->0@) + 28 <= isize::MAX / 2,
    ensures
        is_first_account(r, id@, provider_id@, *body, crypto@),
{
    match enroll(crypto, &body.api_key, &body.account_label) {
        Err(e) => Err(e),
        Ok(None) => Ok(None),
        Ok(Some(c)) => Ok(Some(new_account(id, provider_id, c))),
    }
}

/// Adds a provider. Nothing is stored of one whose address or formats are
/// refused.
pub fn create_provider(
    crypto: &Crypto,
    policy: OutboundPolicy,
    id: &str,
    account_id: String,
    body: &ProviderBody,
) -> (r: Result<StoredProvider, ApiError>)
    requires
        has_key(body.api_key) ==> byte_len(body.api_key->0@) + 28 <= isize::MAX / 2,
    ensures
        match provider_fault(*body, url_parts(body.base_url@), policy) {
            Some(f) => r matches Err(e) && e@ == f,
            None => r matches Ok(p) && p.row.id@ == id@ && p.row.enabled == 1 && stores_provider(
                p,
                *body,
            ) && is_first_account(p.account, account_id@, id@, *body, crypto@) && p.audit@
                == admin_line(
                "provider_created"@,
                "provider"@,
                id@,
                body.name@,
                "Added "@ + body.name@ + " upstream ("@ + body.wire_format@ + " wire format at "@
                    + body.base_url@ + ")."@,
            ),
        },
{
    if let Err(e) = check_provider(body, policy) {
        return Err(e);
    }
    Ok(
        StoredProvider {
            row: provider_row(id, body),
            follow_redirects: body.follow_redirects,
            credential_hosts: body.credential_hosts.clone(),
            allow_insecure_tls: body.allow_insecure_tls,
            account: first_account(crypto, account_id, id, body),
            audit: provider_created(id, body),
        },
    )
}

/// Changes a provider. It keeps its id and stays switched on or off, and a key
/// that is given becomes one more account.
pub fn update_provider(
    crypto: &Crypto,
    policy: OutboundPolicy,
    stored: &ProviderRow,
    account_id: String,
    body: &ProviderBody,
) -> (r: Result<StoredProvider, ApiError>)
    requires
        has_key(body.api_key) ==> byte_len(body.api_key->0@) + 28 <= isize::MAX / 2,
    ensures
        match provider_fault(*body, url_parts(body.base_url@), policy) {
            Some(f) => r matches Err(e) && e@ == f,
            None => r matches Ok(p) && p.row.id@ == stored.id@ && p.row.enabled == stored.enabled
                && stores_provider(p, *body) && is_first_account(
                p.account,
                account_id@,
                stored.id@,
                *body,
                crypto@,
            ) && p.audit@ == admin_line(
                "provider_updated"@,
                "provider"@,
                stored.id@,
                body.name@,
                "Updated provider configuration."@,
            ),
        },
{
    if let Err(e) = check_provider(body, policy) {
        return Err(e);
    }
    let mut row = provider_row(stored.id.as_str(), body);
    row.enabled = stored.enabled;
    Ok(
        StoredProvider {
            row,
            follow_redirects: body.follow_redirects,
            credential_hosts: body.credential_hosts.clone(),
            allow_insecure_tls: body.allow_insecure_tls,
            account: first_account(crypto, account_id, stored.id.as_str(), body),
            audit: admin_audit(
                "provider_updated",
                "provider",
                stored.id.as_str(),
                body.name.as_str(),
                "Updated provider configuration.",
            ),
        },
    )
}

/// A model that an administrator enters. The capabilities and the prices are the
/// JSON texts of their types: what was entered, with the defaults of the types.
pub struct ModelBody {
    pub upstream_id: String,
    pub display_name: Option<String>,
    pub enabled: bool,
    pub context_window: Option<i64>,
    pub max_output_tokens: Option<i64>,
    pub capabilities: String,
    pub prices: String,
    pub parameters: serde_json::Value,
    pub thinking_map: serde_json::Value,
    pub extra_request: serde_json::Value,
}

/// A model that is ready to be stored, whether its prices are a new version of
/// them, and the line of the audit log on it.
#[derive(Debug)]
pub struct StoredModel {
    pub row: ModelRow,
    pub new_prices: bool,
    pub audit: Audit,
}

/// Whether a model row holds what was entered. Without a name to show, a model is
/// shown under the name that its upstream gives it.
pub open spec fn holds_model(row: ModelRow, body: ModelBody) -> bool {
    &&& row.display_name@ == text_or_old(body.display_name, body.upstream_id@)
    &&& row.enabled == (if body.enabled {
        1i64
    } else {
        0i64
    })
    &&& row.context_window == body.context_window
    &&& row.max_output_tokens == body.max_output_tokens
    &&& row.capabilities@ == body.capabilities@
    &&& row.prices@ == body.prices@
    &&& row.parameters@ == json_text(json_model(body.parameters))
    &&& row.thinking_map@ == json_text(json_model(body.thinking_map))
    &&& row.extra_request@ == json_text(json_model(body.extra_request))
}

fn fill_model(row: ModelRow, body: &ModelBody) -> (r: ModelRow)
    ensures
        holds_model(r, *body),
        r.id@ == row.id@,
        r.provider_id@ == row.provider_id@,
        r.upstream_id@ == row.upstream_id@,
        r.discovery@ == row.discovery@,
        r.created_at@ == row.created_at@,
{
    let display_name = match &body.display_name {
        Some(n) => n.clone(),
        None => body.upstream_id.clone(),
    };
    let enabled: i64 = if body.enabled {
        1
    } else {
        0
    };
    ModelRow {
        id: row.id,
        provider_id: row.provider_id,
        upstream_id: row.upstream_id,
        display_name,
        enabled,
        context_window: body.context_window,
        max_output_tokens: body.max_output_tokens,
        capabilities: body.capabilities.clone(),
        prices: body.prices.clone(),
        parameters: write_json(&body.parameters),
        thinking_map: write_json(&body.thinking_map),
        extra_request: write_json(&body.extra_request),
        discovery: row.discovery,
        created_at: row.created_at,
    }
}

/// Adds a model to a provider. The prices are those that the entered text means;
/// they are a new version where any is configured.
pub fn create_model(
    provider: Option<&ProviderRow>,
    id: String,
    body: &ModelBody,
    prices: &Prices,
    created_at: String,
) -> (r: Result<StoredModel, ApiError>)
    ensures
        match provider {
            None => r matches Err(e) && e@ == api_fault(404, "provider not found"@),
            Some(p) => r matches Ok(m) && holds_model(m.row, *body) && m.row.id@ == id@
                && m.row.provider_id@ == p.id@ && m.row.upstream_id@ == body.upstream_id@
                && m.row.discovery@ == "{}"@ && m.row.created_at@ == created_at@ && m.new_prices
                == is_priced(*prices) && m.audit@ == admin_line(
                "model_configured"@,
                "model"@,
                id@,
                body.upstream_id@,
                "Configured upstream model."@,
            ),
        },
{
    let provider = match provider {
        Some(p) => p,
        None => {
            return Err(ApiError::not_found("provider not found".to_owned()));
        },
    };
    let audit = admin_audit(
        "model_configured",
        "model",
        id.as_str(),
        body.upstream_id.as_str(),
        "Configured upstream model.",
    );
    let row = ModelRow {
        id,
        provider_id: provider.id.clone(),
        upstream_id: body.upstream_id.clone(),
        display_name: String::new(),
        enabled: 0,
        context_window: None,
        max_output_tokens: None,
        capabilities: String::new(),
        prices: String::new(),
        parameters: String::new(),
        thinking_map: String::new(),
        extra_request: String::new(),
        discovery: "{}".to_owned(),
        created_at,
    };
    Ok(StoredModel { row: fill_model(row, body), new_prices: prices.is_configured(), audit })
}

/// Changes a model. It stays the model of its provider, under the name that its
/// upstream gives it.
pub fn update_model(stored: ModelRow, body: &ModelBody, prices: &Prices) -> (r: StoredModel)
    ensures
        holds_model(r.row, *body),
        keeps_model(r.row, stored),
        r.new_prices == is_priced(*prices),
        r.audit@ == admin_line(
            "model_updated"@,
            "model"@,
            stored.id@,
            body.upstream_id@,
            "Updated model configuration."@,
        ),
{
    let audit = admin_audit(
        "model_updated",
        "model",
        stored.id.as_str(),
        body.upstream_id.as_str(),
        "Updated model configuration.",
    );
    StoredModel { row: fill_model(stored, body), new_prices: prices.is_configured(), audit }
}

/// Whether a model is the one that was stored: what a change does not touch.
pub open spec fn keeps_model(row: ModelRow, stored: ModelRow) -> bool {
    &&& row.id@ == stored.id@
    &&& row.provider_id@ == stored.provider_id@
    &&& row.upstream_id@ == stored.upstream_id@
    &&& row.discovery@ == stored.discovery@
    &&& row.created_at@ == stored.created_at@
}

/// A Route that is ready to be stored with what is said of it, what makes it fall
/// back, and the line of the audit log on it. Its targets are stored beside it.
#[derive(Debug)]
pub struct StoredRoute {
    pub row: RouteRow,
    pub description: String,
    pub triggers: String,
    pub portability_policy: String,
    pub sticky_routing: bool,
    pub cache_affinity: bool,
    pub audit: Audit,
}

/// Whether a Route row holds what was entered, but for its name.
pub open spec fn holds_route(row: RouteRow, body: RouteBody) -> bool {
    &&& row.strategy@ == body.strategy@
    &&& row.continuity_policy@ == body.continuity_policy@
    &&& row.max_attempts == body.max_attempts
}

/// Whether what is stored of a Route is what was entered, but for its name and
/// its triggers.
pub open spec fn stores_route(r: StoredRoute, body: RouteBody) -> bool {
    &&& holds_route(r.row, body)
    &&& r.description@ == body.description@
    &&& r.portability_policy@ == body.portability_policy@
    &&& r.sticky_routing == body.sticky_routing
    &&& r.cache_affinity == body.cache_affinity
}

/// Adds a Route. It is switched on, and falls back on everything where nothing
/// else is said.
pub fn create_route(id: String, body: &RouteBody) -> (r: StoredRoute)
    ensures
        r.row.id@ == id@,
        r.row.name@ == body.name@,
        r.row.enabled == 1,
        stores_route(r, *body),
        r.triggers@ == json_or(json_model(body.fallback_triggers), default_triggers()),
        r.audit@ == admin_line(
            "route_created"@,
            "route"@,
            id@,
            body.name@,
            "Created route with "@ + decimal(body.targets@.len()) + " targets."@,
        ),
{
    let count = decimal_text(body.targets.len() as u64);
    let details = text3("Created route with ", count.as_str(), " targets.");
    let audit = admin_audit("route_created", "route", id.as_str(), body.name.as_str(), details.as_str());
    StoredRoute {
        row: RouteRow {
            id,
            name: body.name.clone(),
            strategy: body.strategy.clone(),
            continuity_policy: body.continuity_policy.clone(),
            max_attempts: body.max_attempts,
            enabled: 1,
        },
        description: body.description.clone(),
        triggers: route_triggers(body),
        portability_policy: body.portability_policy.clone(),
        sticky_routing: body.sticky_routing,
        cache_affinity: body.cache_affinity,
        audit,
    }
}

/// Changes a Route. Its name, which clients ask for, stays, and so does whether
/// it is switched on.
pub fn update_route(stored: &RouteRow, body: &RouteBody) -> (r: StoredRoute)
    ensures
        r.row.id@ == stored.id@,
        r.row.name@ == stored.name@,
        r.row.enabled == stored.enabled,
        stores_route(r, *body),
        r.triggers@ == json_text(json_model(body.fallback_triggers)),
        r.audit@ == admin_line(
            "route_updated"@,
            "route"@,
            stored.id@,
            body.name@,
            "Updated route configuration."@,
        ),
{
    StoredRoute {
        row: RouteRow {
            id: stored.id.clone(),
            name: stored.name.clone(),
            strategy: body.strategy.clone(),
            continuity_policy: body.continuity_policy.clone(),
            max_attempts: body.max_attempts,
            enabled: stored.enabled,
        },
        description: body.description.clone(),
        triggers: write_json(&body.fallback_triggers),
        portability_policy: body.portability_policy.clone(),
        sticky_routing: body.sticky_routing,
        cache_affinity: body.cache_affinity,
        audit: admin_audit(
            "route_updated",
            "route",
            stored.id.as_str(),
            body.name.as_str(),
            "Updated route configuration.",
        ),
    }
}

/// Two changes of a model leave what the second one says: nothing of the first
/// stays behind.
pub proof fn law_last_model_change_stands(
    stored: ModelRow,
    first: ModelBody,
    second: ModelBody,
    once: ModelRow,
    twice: ModelRow,
    direct: ModelRow,
)
    requires
        holds_model(once, first),
        keeps_model(once, stored),
        holds_model(twice, second),
        keeps_model(twice, once),
        holds_model(direct, second),
        keeps_model(direct, stored),
    ensures
        keeps_model(twice, direct),
        holds_model(twice, second),
        twice.display_name@ == direct.display_name@,
        twice.enabled == direct.enabled,
        twice.capabilities@ == direct.capabilities@,
        twice.prices@ == direct.prices@,
        twice.parameters@ == direct.parameters@,
        twice.thinking_map@ == direct.thinking_map@,
        twice.extra_request@ == direct.extra_request@,
        twice.context_window == direct.context_window,
        twice.max_output_tokens == direct.max_output_tokens,
{
}

/// A new account is healthy whatever the time, without a failure or an error, and
/// its secret can be read back while only its ends are shown.
pub proof fn law_new_accounts_are_healthy(
    row: AccountRow,
    id: Seq<char>,
    provider_id: Seq<char>,
    label: Seq<char>,
    key: Seq<u8>,
    secret: Seq<char>,
    now: Timestamp,
)
    requires
        is_new_account(row, id, provider_id, label, key, secret),
    ensures
        status_when(row, now) == AccountStatus::Healthy,
        row.id@ == id && row.provider_id@ == provider_id && row.label@ == label,
        secret_in(key, row.secret_enc@) == Ok::<Seq<char>, CryptoFault>(secret),
        row.secret_mask@ == masked(secret),
        row.failures == 0 && row.last_error is None,
        row.cooldown_until is None && row.quota_reset_at is None,
{
    law_status_round_trip(AccountStatus::Healthy);
}

/// A provider is stored as it was given.
pub proof fn law_providers_are_stored_as_given(p: StoredProvider, body: ProviderBody)
    requires
        stores_provider(p, body),
    ensures
        p.row.name@ == body.name@,
        p.row.base_url@ == body.base_url@,
        p.row.wire_format@ == body.wire_format@,
        p.row.auth_scheme@ == body.auth_scheme@,
        p.row.custom_header_name == body.custom_header_name,
        p.row.custom_param_name == body.custom_param_name,
        p.row.extra_headers@ == json_text(json_model(body.extra_headers)),
        p.row.timeout_ms == body.timeout_ms,
        p.row.capability_mode@ == body.capability_mode@,
        p.row.models_path == body.models_path,
        p.follow_redirects == body.follow_redirects,
        p.credential_hosts@ == body.credential_hosts@,
        p.allow_insecure_tls == body.allow_insecure_tls,
{
}

/// A provider that brings a credential gets an account for it, under the label
/// given or the usual one; without one it gets none, and no error.
pub proof fn law_credentials_make_accounts(
    account: Result<Option<AccountRow>, ApiError>,
    id: Seq<char>,
    provider_id: Seq<char>,
    body: ProviderBody,
    key: Seq<u8>,
)
    requires
        is_first_account(account, id, provider_id, body, key),
        body.api_key matches Some(k) ==> byte_len(k@) <= 0x10_0000_0000,
    ensures
        account is Ok,
        account->Ok_0 is Some <==> body.api_key is Some && trim_of(body.api_key->0@).len() > 0,
        account->Ok_0 matches Some(a) ==> a.id@ == id && a.provider_id@ == provider_id && secret_in(
            key,
            a.secret_enc@,
        ) == Ok::<Seq<char>, CryptoFault>(body.api_key->0@) && (body.account_label matches Some(l)
            ==> a.label@ == l@) && (body.account_label is None ==> a.label@ == "Default key"@),
{
}

/// A model is stored as it was given, under its upstream name where it has no name
/// of its own, and a change leaves what it is and when it came as they were.
pub proof fn law_models_are_stored_as_given(row: ModelRow, body: ModelBody, stored: ModelRow)
    ensures
        holds_model(row, body) ==> {
            &&& body.display_name matches Some(n) ==> row.display_name@ == n@
            &&& body.display_name is None ==> row.display_name@ == body.upstream_id@
            &&& row.enabled != 0 <==> body.enabled
            &&& row.context_window == body.context_window
            &&& row.max_output_tokens == body.max_output_tokens
            &&& row.capabilities@ == body.capabilities@
            &&& row.prices@ == body.prices@
            &&& row.parameters@ == json_text(json_model(body.parameters))
            &&& row.thinking_map@ == json_text(json_model(body.thinking_map))
            &&& row.extra_request@ == json_text(json_model(body.extra_request))
        },
        keeps_model(row, stored) ==> row.id@ == stored.id@ && row.provider_id@
            == stored.provider_id@ && row.upstream_id@ == stored.upstream_id@ && row.discovery@
            == stored.discovery@ && row.created_at@ == stored.created_at@,
{
}

/// A Route is stored as it was given.
pub proof fn law_routes_are_stored_as_given(r: StoredRoute, body: RouteBody)
    requires
        stores_route(r, body),
    ensures
        r.row.strategy@ == body.strategy@,
        r.row.continuity_policy@ == body.continuity_policy@,
        r.row.max_attempts == body.max_attempts,
        r.description@ == body.description@,
        r.portability_policy@ == body.portability_policy@,
        r.sticky_routing == body.sticky_routing,
        r.cache_affinity == body.cache_affinity,
{
}

} // verus!
