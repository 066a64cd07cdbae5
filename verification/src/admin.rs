//! The rules of the admin interface: who may log in, what a change makes of the
//! stored rows, what is recorded of it, and what is shown.

use crate::auth::{session_of, session_token, verify_admin_password};
use crate::crypto::{
    crypto_text, generate_virtual_key, hash_virtual_key, hex_of, key_hash_of, mask_secret, masked,
    secret_in, Crypto, CryptoFault,
};
use crate::ids::{is_id, new_id};
use crate::json::{
    json_list_text, json_model, json_text, read_json, write_json, write_list, JsonModel, Node,
};
use crate::metrics::{count_status, with_status};
use crate::outbound::{
    outbound_fault, parse_url, url_parts, validate_outbound_url, OutboundPolicy, UrlModel,
    UrlParts,
};
use crate::predicate::RequestFacts;
use crate::text::{byte_len, same, text2, text3, text5, trim, trim_of, views};
use crate::types::{
    copy_text, text_in, AccountRow, AliasRow, Dollars, FrontendFormat, Message, ModelRow, Part,
    ProviderRow, Role, RouteRow, RouteTargetRow, VirtualKeyRow,
};
use crate::upstream::{placement_of, request_url_of};
use vstd::prelude::*;

verus! {

/// An error of the admin interface: an HTTP status and a message.
#[derive(Debug)]
pub struct ApiError {
    pub status: u16,
    pub message: String,
}

/// What an `ApiError` says.
pub struct ApiFault {
    pub status: u16,
    pub message: Seq<char>,
}

impl View for ApiError {
    type V = ApiFault;

    open spec fn view(&self) -> ApiFault {
        ApiFault { status: self.status, message: self.message@ }
    }
}

/// An error of the admin interface.
pub open spec fn api_fault(status: u16, message: Seq<char>) -> ApiFault {
    ApiFault { status, message }
}

impl ApiError {
    pub fn bad(message: String) -> (r: Self)
        ensures
            r@ == api_fault(400, message@),
    {
        ApiError { status: 400, message }
    }

    pub fn not_found(message: String) -> (r: Self)
        ensures
            r@ == api_fault(404, message@),
    {
        ApiError { status: 404, message }
    }

    pub fn internal(message: String) -> (r: Self)
        ensures
            r@ == api_fault(500, message@),
    {
        ApiError { status: 500, message }
    }

    pub fn unavailable(message: String) -> (r: Self)
        ensures
            r@ == api_fault(503, message@),
    {
        ApiError { status: 503, message }
    }
}

/// A line of the audit log.
#[derive(Debug)]
pub struct Audit {
    pub actor: String,
    pub action: String,
    pub target_type: String,
    pub target_id: String,
    pub target_name: String,
    pub details: String,
}

/// What a line of the audit log says.
pub struct AuditModel {
    pub actor: Seq<char>,
    pub action: Seq<char>,
    pub target_type: Seq<char>,
    pub target_id: Seq<char>,
    pub target_name: Seq<char>,
    pub details: Seq<char>,
}

impl View for Audit {
    type V = AuditModel;

    open spec fn view(&self) -> AuditModel {
        AuditModel {
            actor: self.actor@,
            action: self.action@,
            target_type: self.target_type@,
            target_id: self.target_id@,
            target_name: self.target_name@,
            details: self.details@,
        }
    }
}

/// A line of the audit log on what the administrator did.
pub open spec fn admin_line(
    action: Seq<char>,
    target_type: Seq<char>,
    target_id: Seq<char>,
    target_name: Seq<char>,
    details: Seq<char>,
) -> AuditModel {
    AuditModel { actor: "admin"@, action, target_type, target_id, target_name, details }
}

/// A line of the audit log on what the administrator did.
pub fn admin_audit(
    action: &str,
    target_type: &str,
    target_id: &str,
    target_name: &str,
    details: &str,
) -> (r: Audit)
    ensures
        r@ == admin_line(action@, target_type@, target_id@, target_name@, details@),
{
    Audit {
        actor: "admin".to_owned(),
        action: action.to_owned(),
        target_type: target_type.to_owned(),
        target_id: target_id.to_owned(),
        target_name: target_name.to_owned(),
        details: details.to_owned(),
    }
}

/// A login.
#[derive(Debug)]
pub struct LoginBody {
    pub username: Option<String>,
    pub password: String,
}

/// What a login gives: who is logged in, and the token of the session.
#[derive(Debug)]
pub struct LoginGrant {
    pub actor: String,
    pub token: String,
}

/// Logs in. Without the store nobody is logged in and nothing is recorded; a
/// wrong password is refused and recorded.
pub fn login(
    store_healthy: bool,
    master_key: &[u8; 32],
    admin_token: &str,
    body: LoginBody,
) -> (r: (Result<LoginGrant, ApiError>, Option<Audit>))
    ensures
        !store_healthy ==> r.1 is None && (r.0 matches Err(e) && e@ == api_fault(
            503,
            "admin authentication unavailable: control plane degraded"@,
        )),
        store_healthy && key_hash_of(body.password@) != key_hash_of(admin_token@) ==> {
            &&& r.0 matches Err(e) && e@ == api_fault(401, "invalid admin password"@)
            &&& r.1 matches Some(a) && a@ == (AuditModel {
                actor: "unknown"@,
                ..admin_line(
                    "admin_login_failed"@,
                    "system"@,
                    ""@,
                    "Admin Console"@,
                    "Rejected an admin login with an incorrect password."@,
                )
            })
        },
        store_healthy && key_hash_of(body.password@) == key_hash_of(admin_token@) ==> {
            let actor = match body.username {
                Some(u) => u@,
                None => "admin"@,
            };
            &&& r.0 matches Ok(g) && g.actor@ == actor && g.token@ == session_of(
                master_key@,
                admin_token@,
            )
            &&& r.1 matches Some(a) && a@ == (AuditModel {
                actor,
                ..admin_line(
                    "admin_login"@,
                    "system"@,
                    ""@,
                    "Admin Console"@,
                    "Administrator session started."@,
                )
            })
        },
{
    if !store_healthy {
        return (
            Err(
                ApiError::unavailable(
                    "admin authentication unavailable: control plane degraded".to_owned(),
                ),
            ),
            None,
        );
    }
    if !verify_admin_password(admin_token, body.password.as_str()) {
        let mut line = admin_audit(
            "admin_login_failed",
            "system",
            "",
            "Admin Console",
            "Rejected an admin login with an incorrect password.",
        );
        line.actor = "unknown".to_owned();
        return (
            Err(ApiError { status: 401, message: "invalid admin password".to_owned() }),
            Some(line),
        );
    }
    let actor = match body.username {
        Some(u) => u,
        None => "admin".to_owned(),
    };
    let mut line = admin_audit(
        "admin_login",
        "system",
        "",
        "Admin Console",
        "Administrator session started.",
    );
    line.actor = actor.clone();
    (Ok(LoginGrant { actor, token: session_token(master_key, admin_token) }), Some(line))
}

/// Whether an admin request may proceed: while the store does not answer, only
/// reads may.
pub fn admin_gate(is_read: bool, store_healthy: bool) -> (r: Result<(), ApiError>)
    ensures
        r is Ok == (is_read || store_healthy),
        r matches Err(e) ==> e@ == api_fault(
            503,
            "control plane degraded: admin changes are unavailable"@,
        ),
{
    if is_read || store_healthy {
        Ok(())
    } else {
        Err(
            ApiError::unavailable(
                "control plane degraded: admin changes are unavailable".to_owned(),
            ),
        )
    }
}

/// A request from the tester form. The temperature is given as the bits of a
/// double.
#[derive(Debug)]
pub struct TestStreamBody {
    pub key_id: String,
    pub model: String,
    pub prompt: String,
    pub system: Option<String>,
    pub format: Option<String>,
    pub stream: Option<bool>,
    pub max_tokens: Option<u32>,
    pub temperature: Option<u64>,
}

/// The request that the tester form stands for.
#[derive(Debug)]
pub struct TesterRequest {
    pub model: String,
    pub format: FrontendFormat,
    pub stream: bool,
    pub messages: Vec<Message>,
    pub max_tokens: Option<u32>,
    pub temperature: Option<u64>,
}

/// Whether a message is a text from a speaker.
pub open spec fn says(m: Message, role: Role, text: Seq<char>) -> bool {
    &&& m.role == role
    &&& m.parts@.len() == 1
    &&& m.parts@[0] matches Part::Text(t) && t@ == text
}

fn text_message(role: Role, text: String) -> (r: Message)
    ensures
        says(r, role, text@),
{
    let mut parts: Vec<Part> = Vec::new();
    parts.push(Part::Text(text));
    Message { role, parts }
}

/// The request that the tester form stands for: a system text only where it is
/// not blank, then the prompt; OpenAI and streaming by default.
pub fn tester_request(body: TestStreamBody) -> (r: TesterRequest)
    ensures
        r.model@ == body.model@,
        r.format == (if text_in(body.format) == Some("anthropic"@) {
            FrontendFormat::Anthropic
        } else {
            FrontendFormat::OpenAi
        }),
        r.stream == (body.stream != Some(false)),
        r.max_tokens == body.max_tokens,
        r.temperature == body.temperature,
        r.messages@.len() == (if body.system is Some && trim_of(body.system->0@).len() > 0 {
            2nat
        } else {
            1
        }),
        r.messages@.len() == 2 ==> says(r.messages@[0], Role::System, body.system->0@),
        says(r.messages@.last(), Role::User, body.prompt@),
{
    let format = match &body.format {
        Some(f) => if same(f.as_str(), "anthropic") {
            FrontendFormat::Anthropic
        } else {
            FrontendFormat::OpenAi
        },
        None => FrontendFormat::OpenAi,
    };
    let stream = match body.stream {
        Some(s) => s,
        None => true,
    };
    let mut messages: Vec<Message> = Vec::new();
    if let Some(system) = body.system {
        let trimmed = trim(system.as_str());
        if !trimmed.as_str().is_empty() {
            messages.push(text_message(Role::System, system));
        }
    }
    messages.push(text_message(Role::User, body.prompt));
    TesterRequest {
        model: body.model,
        format,
        stream,
        messages,
        max_tokens: body.max_tokens,
        temperature: body.temperature,
    }
}

/// A virtual key to be issued.
#[derive(Debug)]
pub struct CreateKeyBody {
    pub name: String,
    pub owner: String,
    pub tag: String,
    pub allowed_models: Vec<String>,
    pub allowed_providers: Vec<String>,
    pub rpm_limit: Option<i64>,
    pub tpm_limit: Option<i64>,
    pub daily_budget: Option<Dollars>,
    pub monthly_budget: Option<Dollars>,
    pub expires_at: Option<String>,
    pub allowed_ips: Vec<String>,
    pub body_logging: bool,
}

/// A virtual key that was issued. The key itself is shown once, and only its
/// hash is stored.
#[derive(Debug)]
pub struct IssuedKey {
    pub row: VirtualKeyRow,
    pub full_key: String,
    pub audit: Audit,
}

/// A flag as the store holds it.
pub open spec fn flag(b: bool) -> i64 {
    if b {
        1
    } else {
        0
    }
}

fn flag_of(b: bool) -> (r: i64)
    ensures
        r == flag(b),
{
    if b {
        1
    } else {
        0
    }
}

/// The models that a new key may use: all of them where none is named.
pub open spec fn models_or_all(models: Seq<String>) -> Seq<Seq<char>> {
    if models.len() == 0 {
        seq!["*"@]
    } else {
        views(models)
    }
}

/// Issues a virtual key.
pub fn create_key(body: CreateKeyBody, created_at: String) -> (r: IssuedKey)
    ensures
        exists|bytes: Seq<u8>| bytes.len() == 24 && r.full_key@ == "sk-kinetix-"@ + #[trigger] hex_of(
            bytes,
        ),
        is_id(r.row.id@, "key_"@),
        r.row.key_hash@ == key_hash_of(r.full_key@),
        r.row.name@ == body.name@,
        r.row.owner@ == body.owner@,
        r.row.tag@ == body.tag@,
        r.row.allowed_models@ == json_list_text(models_or_all(body.allowed_models@)),
        r.row.allowed_providers@ == json_list_text(views(body.allowed_providers@)),
        r.row.rpm_limit == body.rpm_limit,
        r.row.tpm_limit == body.tpm_limit,
        r.row.daily_budget == body.daily_budget,
        r.row.monthly_budget == body.monthly_budget,
        text_in(r.row.expires_at) == text_in(body.expires_at),
        r.row.status@ == "active"@,
        r.row.allowed_ips@ == json_list_text(views(body.allowed_ips@)),
        r.row.body_logging == flag(body.body_logging),
        r.row.created_at@ == created_at@,
        r.row.revoked_at is None,
        r.audit@ == admin_line(
            "key_created"@,
            "key"@,
            r.row.id@,
            body.name@,
            "Issued virtual key for "@ + body.name@ + " (owner "@ + body.owner@ + ")"@,
        ),
{
    let full_key = generate_virtual_key();
    let key_hash = hash_virtual_key(full_key.as_str());
    let allowed_models = if body.allowed_models.len() == 0 {
        let mut all: Vec<String> = Vec::new();
        all.push("*".to_owned());
        assert(views(all@) =~= seq!["*"@]);
        write_list(&all)
    } else {
        write_list(&body.allowed_models)
    };
    let id = new_id("key_");
    let details = text5(
        "Issued virtual key for ",
        body.name.as_str(),
        " (owner ",
        body.owner.as_str(),
        ")",
    );
    let audit = admin_audit(
        "key_created",
        "key",
        id.as_str(),
        body.name.as_str(),
        details.as_str(),
    );
    let row = VirtualKeyRow {
        id,
        key_hash,
        allowed_models,
        allowed_providers: write_list(&body.allowed_providers),
        allowed_ips: write_list(&body.allowed_ips),
        name: body.name,
        owner: body.owner,
        tag: body.tag,
        rpm_limit: body.rpm_limit,
        tpm_limit: body.tpm_limit,
        daily_budget: body.daily_budget,
        monthly_budget: body.monthly_budget,
        expires_at: body.expires_at,
        status: "active".to_owned(),
        body_logging: flag_of(body.body_logging),
        created_at,
        revoked_at: None,
    };
    IssuedKey { row, full_key, audit }
}

/// A change of a virtual key. What is not given stays.
#[derive(Debug)]
pub struct UpdateKeyBody {
    pub status: Option<String>,
    pub name: Option<String>,
    pub owner: Option<String>,
    pub tag: Option<String>,
    pub allowed_models: Option<Vec<String>>,
    pub allowed_providers: Option<Vec<String>>,
    pub rpm_limit: Option<i64>,
    pub tpm_limit: Option<i64>,
    pub daily_budget: Option<Dollars>,
    pub monthly_budget: Option<Dollars>,
    pub expires_at: Option<String>,
    /// An empty list lifts the restriction.
    pub allowed_ips: Option<Vec<String>>,
    pub body_logging: Option<bool>,
}

/// A new value, or the old one.
pub open spec fn or_old<T>(new_value: Option<T>, old_value: Option<T>) -> Option<T> {
    if new_value is Some {
        new_value
    } else {
        old_value
    }
}

/// A new text, or the old one.
pub open spec fn text_or_old(new_text: Option<String>, old_text: Seq<char>) -> Seq<char> {
    match new_text {
        Some(s) => s@,
        None => old_text,
    }
}

/// A new list as JSON, or the old one.
pub open spec fn list_or_old(new_list: Option<Vec<String>>, old_list: Seq<char>) -> Seq<char> {
    match new_list {
        Some(v) => json_list_text(views(v@)),
        None => old_list,
    }
}

fn text_or(new_text: Option<String>, old_text: &String) -> (r: String)
    ensures
        r@ == text_or_old(new_text, old_text@),
{
    match new_text {
        Some(s) => s,
        None => old_text.clone(),
    }
}

fn list_or(new_list: Option<Vec<String>>, old_list: &String) -> (r: String)
    ensures
        r@ == list_or_old(new_list, old_list@),
{
    match new_list {
        Some(v) => write_list(&v),
        None => old_list.clone(),
    }
}

fn value_or<T: Copy>(new_value: Option<T>, old_value: Option<T>) -> (r: Option<T>)
    ensures
        r == or_old(new_value, old_value),
{
    match new_value {
        Some(v) => Some(v),
        None => old_value,
    }
}

/// Whether a row is what a change makes of another.
pub open spec fn is_updated(row: VirtualKeyRow, old_row: VirtualKeyRow, body: UpdateKeyBody) -> bool {
    &&& row.id@ == old_row.id@
    &&& row.key_hash@ == old_row.key_hash@
    &&& row.status@ == text_or_old(body.status, old_row.status@)
    &&& row.name@ == text_or_old(body.name, old_row.name@)
    &&& row.owner@ == text_or_old(body.owner, old_row.owner@)
    &&& row.tag@ == text_or_old(body.tag, old_row.tag@)
    &&& row.allowed_models@ == list_or_old(body.allowed_models, old_row.allowed_models@)
    &&& row.allowed_providers@ == list_or_old(body.allowed_providers, old_row.allowed_providers@)
    &&& row.rpm_limit == or_old(body.rpm_limit, old_row.rpm_limit)
    &&& row.tpm_limit == or_old(body.tpm_limit, old_row.tpm_limit)
    &&& row.daily_budget == or_old(body.daily_budget, old_row.daily_budget)
    &&& row.monthly_budget == or_old(body.monthly_budget, old_row.monthly_budget)
    &&& text_in(row.expires_at) == or_old(text_in(body.expires_at), text_in(old_row.expires_at))
    &&& row.allowed_ips@ == list_or_old(body.allowed_ips, old_row.allowed_ips@)
    &&& row.body_logging == (match body.body_logging {
        Some(b) => flag(b),
        None => old_row.body_logging,
    })
    &&& row.created_at@ == old_row.created_at@
    &&& text_in(row.revoked_at) == text_in(old_row.revoked_at)
}

/// The place of the first key with an id, from `from` on; the length where there
/// is none.
pub open spec fn key_place(keys: Seq<VirtualKeyRow>, id: Seq<char>, from: int) -> int
    decreases keys.len() - from,
{
    if from < 0 || from >= keys.len() {
        keys.len() as int
    } else if keys[from].id@ == id {
        from
    } else {
        key_place(keys, id, from + 1)
    }
}

fn find_key(keys: &Vec<VirtualKeyRow>, id: &str) -> (r: usize)
    ensures
        r == key_place(keys@, id@, 0),
        r <= keys@.len(),
{
    let mut i: usize = 0;
    while i < keys.len()
        invariant
            i <= keys@.len(),
            key_place(keys@, id@, 0) == key_place(keys@, id@, i as int),
        decreases keys@.len() - i,
    {
        if same(keys[i].id.as_str(), id) {
            return i;
        }
        i = i + 1;
    }
    i
}

/// What a change of a virtual key does: the lines of the audit log, and the new
/// row.
#[derive(Debug)]
pub struct KeyUpdate {
    pub status_audit: Option<Audit>,
    pub result: Result<VirtualKeyRow, ApiError>,
    pub update_audit: Option<Audit>,
}

/// Changes a virtual key. A new status is recorded before the key is looked up.
pub fn update_key(keys: &Vec<VirtualKeyRow>, id: &str, body: UpdateKeyBody) -> (r: KeyUpdate)
    ensures
        match body.status {
            Some(s) => r.status_audit matches Some(a) && a@ == admin_line(
                "key_status_"@ + s@,
                "key"@,
                id@,
                ""@,
                "Changed key status to "@ + s@ + "."@,
            ),
            None => r.status_audit is None,
        },
        ({
            let at = key_place(keys@, id@, 0);
            if at < keys@.len() {
                &&& r.result matches Ok(row) && is_updated(row, keys@[at], body)
                &&& r.update_audit matches Some(a) && a@ == admin_line(
                    "key_updated"@,
                    "key"@,
                    id@,
                    keys@[at].name@,
                    "Updated key limits/budgets."@,
                )
            } else {
                &&& r.result matches Err(e) && e@ == api_fault(404, "key not found"@)
                &&& r.update_audit is None
            }
        }),
{
    let status_audit = match &body.status {
        Some(s) => {
            let action = text2("key_status_", s.as_str());
            let details = text3("Changed key status to ", s.as_str(), ".");
            Some(admin_audit(action.as_str(), "key", id, "", details.as_str()))
        },
        None => None,
    };
    let at = find_key(keys, id);
    if at >= keys.len() {
        return KeyUpdate {
            status_audit,
            result: Err(ApiError::not_found("key not found".to_owned())),
            update_audit: None,
        };
    }
    let k = &keys[at];
    let body_logging = match body.body_logging {
        Some(b) => flag_of(b),
        None => k.body_logging,
    };
    let expires_at = match body.expires_at {
        Some(t) => Some(t),
        None => copy_text(&k.expires_at),
    };
    let row = VirtualKeyRow {
        id: k.id.clone(),
        key_hash: k.key_hash.clone(),
        name: text_or(body.name, &k.name),
        owner: text_or(body.owner, &k.owner),
        tag: text_or(body.tag, &k.tag),
        allowed_models: list_or(body.allowed_models, &k.allowed_models),
        allowed_providers: list_or(body.allowed_providers, &k.allowed_providers),
        rpm_limit: value_or(body.rpm_limit, k.rpm_limit),
        tpm_limit: value_or(body.tpm_limit, k.tpm_limit),
        daily_budget: value_or(body.daily_budget, k.daily_budget),
        monthly_budget: value_or(body.monthly_budget, k.monthly_budget),
        expires_at,
        status: text_or(body.status, &k.status),
        allowed_ips: list_or(body.allowed_ips, &k.allowed_ips),
        body_logging,
        created_at: k.created_at.clone(),
        revoked_at: copy_text(&k.revoked_at),
    };
    KeyUpdate {
        status_audit,
        result: Ok(row),
        update_audit: Some(
            admin_audit(
                "key_updated",
                "key",
                id,
                k.name.as_str(),
                "Updated key limits/budgets.",
            ),
        ),
    }
}

/// A change that gives nothing changes nothing.
pub proof fn law_empty_update_keeps_the_key(row: VirtualKeyRow, old_row: VirtualKeyRow, body: UpdateKeyBody)
    requires
        is_updated(row, old_row, body),
        body.status is None,
        body.name is None,
        body.owner is None,
        body.tag is None,
        body.allowed_models is None,
        body.allowed_providers is None,
        body.rpm_limit is None,
        body.tpm_limit is None,
        body.daily_budget is None,
        body.monthly_budget is None,
        body.expires_at is None,
        body.allowed_ips is None,
        body.body_logging is None,
    ensures
        row.status@ == old_row.status@,
        row.name@ == old_row.name@,
        row.owner@ == old_row.owner@,
        row.tag@ == old_row.tag@,
        row.allowed_models@ == old_row.allowed_models@,
        row.allowed_providers@ == old_row.allowed_providers@,
        row.rpm_limit == old_row.rpm_limit,
        row.tpm_limit == old_row.tpm_limit,
        row.daily_budget == old_row.daily_budget,
        row.monthly_budget == old_row.monthly_budget,
        text_in(row.expires_at) == text_in(old_row.expires_at),
        row.allowed_ips@ == old_row.allowed_ips@,
        row.body_logging == old_row.body_logging,
{
}

/// No change touches the hash of a key: the key that was handed out stays the
/// key.
pub proof fn law_update_keeps_the_secret(row: VirtualKeyRow, old_row: VirtualKeyRow, body: UpdateKeyBody)
    requires
        is_updated(row, old_row, body),
    ensures
        row.id@ == old_row.id@,
        row.key_hash@ == old_row.key_hash@,
        row.created_at@ == old_row.created_at@,
{
}

/// What stands in the place of a key that is not shown.
pub fn mask_hash(_hash: &str) -> (r: String)
    ensures
        r@ == "sk-kinetix-\u{2022}\u{2022}\u{2022}\u{2022} (hidden)"@,
{
    "sk-kinetix-\u{2022}\u{2022}\u{2022}\u{2022} (hidden)".to_owned()
}

/// A provider that an administrator enters. The extra headers are a JSON object.
pub struct ProviderBody {
    pub name: String,
    pub base_url: String,
    pub wire_format: String,
    pub auth_scheme: String,
    pub custom_header_name: Option<String>,
    pub custom_param_name: Option<String>,
    pub extra_headers: serde_json::Value,
    pub timeout_ms: i64,
    pub capability_mode: String,
    pub models_path: Option<String>,
    pub follow_redirects: bool,
    /// Further hosts that the credential may be sent to, with commas.
    pub credential_hosts: String,
    pub allow_insecure_tls: bool,
    /// A first credential.
    pub api_key: Option<String>,
    pub account_label: Option<String>,
}

/// Whether a wire format is known.
pub open spec fn is_wire_format(s: Seq<char>) -> bool {
    s == "openai"@ || s == "anthropic"@ || s == "gemini"@
}

/// Whether an authentication scheme is known.
pub open spec fn is_auth_scheme(s: Seq<char>) -> bool {
    s == "bearer"@ || s == "custom_header"@ || s == "query_param"@
}

/// The policy for the endpoint of a provider: its own opt-out of TLS counts
/// beside the general one.
pub open spec fn provider_policy(policy: OutboundPolicy, insecure: bool) -> OutboundPolicy {
    OutboundPolicy {
        allow_private: policy.allow_private,
        allow_insecure_tls: policy.allow_insecure_tls || insecure,
    }
}

/// What is wrong with a provider, given the parts of its endpoint.
pub open spec fn provider_fault(
    body: ProviderBody,
    parts: Result<UrlModel, Seq<char>>,
    policy: OutboundPolicy,
) -> Option<ApiFault> {
    if let Some(e) = outbound_fault(parts, provider_policy(policy, body.allow_insecure_tls)) {
        Some(api_fault(400, e))
    } else if !is_wire_format(body.wire_format@) {
        Some(api_fault(400, "invalid wire_format"@))
    } else if !is_auth_scheme(body.auth_scheme@) {
        Some(api_fault(400, "invalid auth_scheme"@))
    } else {
        None
    }
}

/// Checks a provider before it is stored: first its endpoint, then the wire
/// format, then the authentication scheme.
pub fn check_provider(body: &ProviderBody, policy: OutboundPolicy) -> (r: Result<(), ApiError>)
    ensures
        match provider_fault(*body, url_parts(body.base_url@), policy) {
            Some(f) => r matches Err(e) && e@ == f,
            None => r is Ok,
        },
{
    let own = OutboundPolicy {
        allow_private: policy.allow_private,
        allow_insecure_tls: policy.allow_insecure_tls || body.allow_insecure_tls,
    };
    if let Err(e) = validate_outbound_url(body.base_url.as_str(), own) {
        return Err(ApiError::bad(e));
    }
    let wire = body.wire_format.as_str();
    if !same(wire, "openai") && !same(wire, "anthropic") && !same(wire, "gemini") {
        return Err(ApiError::bad("invalid wire_format".to_owned()));
    }
    let scheme = body.auth_scheme.as_str();
    if !same(scheme, "bearer") && !same(scheme, "custom_header") && !same(scheme, "query_param") {
        return Err(ApiError::bad("invalid auth_scheme".to_owned()));
    }
    Ok(())
}

/// A checked provider as the store holds it.
pub fn provider_row(id: &str, body: &ProviderBody) -> (r: ProviderRow)
    ensures
        r.id@ == id@,
        r.name@ == body.name@,
        r.base_url@ == body.base_url@,
        r.wire_format@ == body.wire_format@,
        r.auth_scheme@ == body.auth_scheme@,
        r.custom_header_name == body.custom_header_name,
        r.custom_param_name == body.custom_param_name,
        r.extra_headers@ == json_text(json_model(body.extra_headers)),
        r.timeout_ms == body.timeout_ms,
        r.capability_mode@ == body.capability_mode@,
        r.models_path == body.models_path,
        r.enabled == 1,
{
    ProviderRow {
        id: id.to_owned(),
        name: body.name.clone(),
        base_url: body.base_url.clone(),
        wire_format: body.wire_format.clone(),
        auth_scheme: body.auth_scheme.clone(),
        custom_header_name: copy_text(&body.custom_header_name),
        custom_param_name: copy_text(&body.custom_param_name),
        extra_headers: write_json(&body.extra_headers),
        timeout_ms: body.timeout_ms,
        capability_mode: body.capability_mode.clone(),
        models_path: copy_text(&body.models_path),
        enabled: 1,
    }
}

/// The line of the audit log on a new provider.
pub fn provider_created(id: &str, body: &ProviderBody) -> (r: Audit)
    ensures
        r@ == admin_line(
            "provider_created"@,
            "provider"@,
            id@,
            body.name@,
            "Added "@ + body.name@ + " upstream ("@ + body.wire_format@ + " wire format at "@
                + body.base_url@ + ")."@,
        ),
{
    let first = text5(
        "Added ",
        body.name.as_str(),
        " upstream (",
        body.wire_format.as_str(),
        " wire format at ",
    );
    let details = text3(first.as_str(), body.base_url.as_str(), ").");
    admin_audit("provider_created", "provider", id, body.name.as_str(), details.as_str())
}

/// A credential ready to be stored.
#[derive(Debug)]
pub struct Enrollment {
    pub label: String,
    pub secret_enc: String,
    pub key_mask: String,
}

/// Whether a key was given.
pub open spec fn has_key(api_key: Option<String>) -> bool {
    api_key is Some && trim_of(api_key->0@).len() > 0
}

/// Encrypts and masks a key that was given; a blank one counts as none. Without
/// a label it is the default key.
pub fn enroll(crypto: &Crypto, api_key: &Option<String>, label: &Option<String>) -> (r: Result<
    Option<Enrollment>,
    ApiError,
>)
    requires
        has_key(*api_key) ==> byte_len(api_key->0@) + 28 <= isize::MAX / 2,
    ensures
        r is Err == (has_key(*api_key) && byte_len(api_key->0@) > 0x10_0000_0000),
        r matches Err(e) ==> e@ == api_fault(500, crypto_text(CryptoFault::EncryptionFailed)),
        r matches Ok(None) ==> !has_key(*api_key),
        r matches Ok(Some(c)) ==> {
            &&& has_key(*api_key)
            &&& secret_in(crypto@, c.secret_enc@) == Ok::<Seq<char>, CryptoFault>(api_key->0@)
            &&& c.key_mask@ == masked(api_key->0@)
            &&& c.label@ == (match *label {
                Some(l) => l@,
                None => "Default key"@,
            })
        },
{
    let key = match api_key {
        Some(k) => k,
        None => {
            return Ok(None);
        },
    };
    let trimmed = trim(key.as_str());
    if trimmed.as_str().is_empty() {
        return Ok(None);
    }
    let secret_enc = match crypto.encrypt(key.as_str()) {
        Ok(s) => s,
        Err(e) => {
            return Err(ApiError::internal(e.message()));
        },
    };
    let label = match label {
        Some(l) => l.clone(),
        None => "Default key".to_owned(),
    };
    Ok(Some(Enrollment { label, secret_enc, key_mask: mask_secret(key.as_str()) }))
}

/// An account that an administrator enters.
#[derive(Debug)]
pub struct AccountBody {
    pub provider_id: String,
    pub label: String,
    pub api_key: Option<String>,
    pub priority: i64,
    pub weight: i64,
    pub soft_quota_usd: Option<Dollars>,
    pub quota_type: String,
    pub status: Option<String>,
}

/// The credential of a new account: a key is required.
pub fn account_credential(crypto: &Crypto, body: &AccountBody) -> (r: Result<Enrollment, ApiError>)
    requires
        has_key(body.api_key) ==> byte_len(body.api_key->0@) + 28 <= isize::MAX / 2,
    ensures
        !has_key(body.api_key) ==> (r matches Err(e) && e@ == api_fault(
            400,
            "api_key is required"@,
        )),
        has_key(body.api_key) && byte_len(body.api_key->0@) > 0x10_0000_0000 ==> (r matches Err(e)
            && e@ == api_fault(500, crypto_text(CryptoFault::EncryptionFailed))),
        has_key(body.api_key) && byte_len(body.api_key->0@) <= 0x10_0000_0000 ==> (r matches Ok(c)
            && secret_in(crypto@, c.secret_enc@) == Ok::<Seq<char>, CryptoFault>(
            body.api_key->0@,
        ) && c.key_mask@ == masked(body.api_key->0@) && c.label@ == body.label@),
{
    let label = Some(body.label.clone());
    match enroll(crypto, &body.api_key, &label) {
        Err(e) => Err(e),
        Ok(None) => Err(ApiError::bad("api_key is required".to_owned())),
        Ok(Some(c)) => Ok(c),
    }
}

/// An account after a change: a status that is not given is healthy, and the
/// credential changes only where a new one was enrolled.
pub fn update_account(row: &AccountRow, body: &AccountBody, rotated: Option<Enrollment>) -> (r:
    AccountRow)
    ensures
        r.id@ == row.id@,
        r.provider_id@ == row.provider_id@,
        r.label@ == body.label@,
        r.status@ == text_or_old(body.status, "healthy"@),
        r.priority == body.priority,
        r.weight == body.weight,
        r.soft_quota_usd == body.soft_quota_usd,
        r.quota_type@ == body.quota_type@,
        r.cooldown_until == row.cooldown_until,
        r.quota_window_s == row.quota_window_s,
        r.quota_reset_at == row.quota_reset_at,
        r.last_error == row.last_error,
        r.failures == row.failures,
        match rotated {
            Some(c) => r.secret_enc@ == c.secret_enc@ && r.secret_mask@ == c.key_mask@,
            None => r.secret_enc@ == row.secret_enc@ && r.secret_mask@ == row.secret_mask@,
        },
{
    let mut out = row.clone();
    out.label = body.label.clone();
    out.status = match &body.status {
        Some(s) => s.clone(),
        None => "healthy".to_owned(),
    };
    out.priority = body.priority;
    out.weight = body.weight;
    out.soft_quota_usd = body.soft_quota_usd;
    out.quota_type = body.quota_type.clone();
    if let Some(c) = rotated {
        out.secret_enc = c.secret_enc;
        out.secret_mask = c.key_mask;
    }
    out
}

/// Counts shown beside a provider.
#[derive(Debug, Clone, Copy, PartialEq, Eq, Structural)]
pub struct ProviderCounts {
    pub accounts: u64,
    pub healthy_accounts: u64,
    pub models: u64,
}

/// How many accounts belong to a provider; with a status only those that have it.
pub open spec fn accounts_of(accounts: Seq<AccountRow>, provider_id: Seq<char>, status: Option<
    Seq<char>,
>) -> nat
    decreases accounts.len(),
{
    if accounts.len() == 0 {
        0
    } else {
        let a = accounts.last();
        accounts_of(accounts.drop_last(), provider_id, status) + if a.provider_id@ == provider_id
            && (status is None || status == Some(a.status@)) {
            1nat
        } else {
            0
        }
    }
}

/// How many models belong to a provider.
pub open spec fn models_of(models: Seq<ModelRow>, provider_id: Seq<char>) -> nat
    decreases models.len(),
{
    if models.len() == 0 {
        0
    } else {
        models_of(models.drop_last(), provider_id) + if models.last().provider_id@ == provider_id {
            1nat
        } else {
            0
        }
    }
}

/// Counts the accounts and models of a provider.
pub fn count_provider(
    provider_id: &str,
    accounts: &Vec<AccountRow>,
    models: &Vec<ModelRow>,
) -> (r: ProviderCounts)
    ensures
        r.accounts == accounts_of(accounts@, provider_id@, None),
        r.healthy_accounts == accounts_of(accounts@, provider_id@, Some("healthy"@)),
        r.models == models_of(models@, provider_id@),
{
    let mut all: u64 = 0;
    let mut healthy: u64 = 0;
    let mut i: usize = 0;
    while i < accounts.len()
        invariant
            i <= accounts@.len(),
            all <= i,
            healthy <= i,
            all == accounts_of(accounts@.take(i as int), provider_id@, None),
            healthy == accounts_of(accounts@.take(i as int), provider_id@, Some("healthy"@)),
        decreases accounts@.len() - i,
    {
        assert(accounts@.take(i + 1).drop_last() =~= accounts@.take(i as int));
        if same(accounts[i].provider_id.as_str(), provider_id) {
            all = all + 1;
            if same(accounts[i].status.as_str(), "healthy") {
                healthy = healthy + 1;
            }
        }
        i = i + 1;
    }
    assert(accounts@.take(i as int) =~= accounts@);
    let mut count: u64 = 0;
    let mut j: usize = 0;
    while j < models.len()
        invariant
            j <= models@.len(),
            count <= j,
            count == models_of(models@.take(j as int), provider_id@),
        decreases models@.len() - j,
    {
        assert(models@.take(j + 1).drop_last() =~= models@.take(j as int));
        if same(models[j].provider_id.as_str(), provider_id) {
            count = count + 1;
        }
        j = j + 1;
    }
    assert(models@.take(j as int) =~= models@);
    ProviderCounts { accounts: all, healthy_accounts: healthy, models: count }
}

/// The counts of the overview.
#[derive(Debug, Clone, Copy, PartialEq, Eq, Structural)]
pub struct Overview {
    pub keys_active: u64,
    pub keys_total: u64,
    pub accounts_healthy: u64,
    pub accounts_total: u64,
    pub total_tokens: i64,
}

/// How many keys are active.
pub open spec fn active_keys(keys: Seq<VirtualKeyRow>) -> nat
    decreases keys.len(),
{
    if keys.len() == 0 {
        0
    } else {
        active_keys(keys.drop_last()) + if keys.last().status@ == "active"@ {
            1nat
        } else {
            0
        }
    }
}

/// Counts keys and accounts for the overview; the tokens are those of the input
/// and the output together.
pub fn overview(
    keys: &Vec<VirtualKeyRow>,
    accounts: &Vec<AccountRow>,
    input_tokens: i64,
    output_tokens: i64,
) -> (r: Overview)
    requires
        i64::MIN <= input_tokens + output_tokens <= i64::MAX,
    ensures
        r.keys_active == active_keys(keys@),
        r.keys_total == keys@.len(),
        r.accounts_healthy == with_status(accounts@, "healthy"@),
        r.accounts_total == accounts@.len(),
        r.total_tokens == input_tokens + output_tokens,
{
    let mut active: u64 = 0;
    let mut i: usize = 0;
    while i < keys.len()
        invariant
            i <= keys@.len(),
            active <= i,
            active == active_keys(keys@.take(i as int)),
        decreases keys@.len() - i,
    {
        assert(keys@.take(i + 1).drop_last() =~= keys@.take(i as int));
        if same(keys[i].status.as_str(), "active") {
            active = active + 1;
        }
        i = i + 1;
    }
    assert(keys@.take(i as int) =~= keys@);
    Overview {
        keys_active: active,
        keys_total: keys.len() as u64,
        accounts_healthy: count_status(accounts, "healthy"),
        accounts_total: accounts.len() as u64,
        total_tokens: input_tokens + output_tokens,
    }
}

/// A target of a Route that an administrator enters. The predicate and the
/// overrides are JSON values, or null.
pub struct RouteTargetBody {
    pub account_id: Option<String>,
    pub model_id: String,
    pub priority: i64,
    pub weight: i64,
    pub predicate: serde_json::Value,
    pub param_overrides: serde_json::Value,
}

/// A Route that an administrator enters.
pub struct RouteBody {
    pub name: String,
    pub description: String,
    pub strategy: String,
    pub fallback_triggers: serde_json::Value,
    pub continuity_policy: String,
    pub portability_policy: String,
    pub sticky_routing: bool,
    pub cache_affinity: bool,
    pub max_attempts: Option<i64>,
    pub targets: Vec<RouteTargetBody>,
}

/// The text of a JSON value; a default where it is null.
pub open spec fn json_or(m: JsonModel, default: Seq<char>) -> Seq<char> {
    match m {
        JsonModel::Null => default,
        _ => json_text(m),
    }
}

fn write_json_or(v: &serde_json::Value, default: &str) -> (r: String)
    ensures
        r@ == json_or(json_model(*v), default@),
{
    match read_json(v) {
        Node::Null => default.to_owned(),
        _ => write_json(v),
    }
}

/// The triggers of a Route where none are given.
pub open spec fn default_triggers() -> Seq<char> {
    "{\"on429\":true,\"on5xx\":true,\"onQuota\":true,\"onTimeout\":true}"@
}

/// What makes a new Route fall back: rate limits, quotas, upstream errors and
/// timeouts where nothing else is given.
pub fn route_triggers(body: &RouteBody) -> (r: String)
    ensures
        r@ == json_or(json_model(body.fallback_triggers), default_triggers()),
{
    write_json_or(
        &body.fallback_triggers,
        "{\"on429\":true,\"on5xx\":true,\"onQuota\":true,\"onTimeout\":true}",
    )
}

/// A target of a Route as the store holds it.
#[derive(Debug)]
pub struct StoredTarget {
    pub target: RouteTargetRow,
    pub predicate: String,
    pub param_overrides: String,
}

/// Whether a stored target is the one that was entered.
pub open spec fn is_stored(s: StoredTarget, route_id: Seq<char>, t: RouteTargetBody) -> bool {
    &&& s.target.route_id@ == route_id
    &&& s.target.account_id == t.account_id
    &&& s.target.model_id@ == t.model_id@
    &&& s.target.priority == t.priority
    &&& s.target.weight == t.weight
    &&& s.predicate@ == json_or(json_model(t.predicate), "{}"@)
    &&& s.param_overrides@ == json_or(json_model(t.param_overrides), "{}"@)
}

/// The targets of a Route as the store holds them, in their order. A predicate
/// that is not given is the empty one, which every request meets.
pub fn write_route_targets(route_id: &str, targets: &Vec<RouteTargetBody>) -> (r: Vec<StoredTarget>)
    ensures
        r@.len() == targets@.len(),
        forall|i: int| 0 <= i < r@.len() ==> is_stored(#[trigger] r@[i], route_id@, targets@[i]),
{
    let mut out: Vec<StoredTarget> = Vec::new();
    let mut i: usize = 0;
    while i < targets.len()
        invariant
            i <= targets@.len(),
            out@.len() == i,
            forall|k: int| 0 <= k < i ==> is_stored(#[trigger] out@[k], route_id@, targets@[k]),
        decreases targets@.len() - i,
    {
        let t = &targets[i];
        out.push(
            StoredTarget {
                target: RouteTargetRow {
                    route_id: route_id.to_owned(),
                    model_id: t.model_id.clone(),
                    account_id: copy_text(&t.account_id),
                    priority: t.priority,
                    weight: t.weight,
                },
                predicate: write_json_or(&t.predicate, "{}"),
                param_overrides: write_json_or(&t.param_overrides, "{}"),
            },
        );
        i = i + 1;
    }
    out
}

/// What a target of a Route is shown with.
#[derive(Debug)]
pub struct TargetNames {
    pub account_label: Option<String>,
    pub model_display_name: Option<String>,
    pub provider_id: Option<String>,
}

/// The first model with an id, from `from` on.
pub open spec fn model_with(models: Seq<ModelRow>, id: Seq<char>, from: int) -> Option<ModelRow>
    decreases models.len() - from,
{
    if from < 0 || from >= models.len() {
        None
    } else if models[from].id@ == id {
        Some(models[from])
    } else {
        model_with(models, id, from + 1)
    }
}

/// The first account with an id, from `from` on.
pub open spec fn account_with(accounts: Seq<AccountRow>, id: Seq<char>, from: int) -> Option<AccountRow>
    decreases accounts.len() - from,
{
    if from < 0 || from >= accounts.len() {
        None
    } else if accounts[from].id@ == id {
        Some(accounts[from])
    } else {
        account_with(accounts, id, from + 1)
    }
}

fn find_model<'a>(models: &'a Vec<ModelRow>, id: &str) -> (r: Option<&'a ModelRow>)
    ensures
        match r {
            Some(m) => model_with(models@, id@, 0) == Some(*m),
            None => model_with(models@, id@, 0) is None,
        },
{
    let mut i: usize = 0;
    while i < models.len()
        invariant
            i <= models@.len(),
            model_with(models@, id@, 0) == model_with(models@, id@, i as int),
        decreases models@.len() - i,
    {
        if same(models[i].id.as_str(), id) {
            return Some(&models[i]);
        }
        i = i + 1;
    }
    None
}

fn find_account<'a>(accounts: &'a Vec<AccountRow>, id: &str) -> (r: Option<&'a AccountRow>)
    ensures
        match r {
            Some(a) => account_with(accounts@, id@, 0) == Some(*a),
            None => account_with(accounts@, id@, 0) is None,
        },
{
    let mut i: usize = 0;
    while i < accounts.len()
        invariant
            i <= accounts@.len(),
            account_with(accounts@, id@, 0) == account_with(accounts@, id@, i as int),
        decreases accounts@.len() - i,
    {
        if same(accounts[i].id.as_str(), id) {
            return Some(&accounts[i]);
        }
        i = i + 1;
    }
    None
}

/// The names that a target of a Route is shown with: those of its model and its
/// account, where they are there.
pub fn name_target(t: &RouteTargetRow, models: &Vec<ModelRow>, accounts: &Vec<AccountRow>) -> (r:
    TargetNames)
    ensures
        match model_with(models@, t.model_id@, 0) {
            Some(m) => text_in(r.model_display_name) == Some(m.display_name@) && text_in(
                r.provider_id,
            ) == Some(m.provider_id@),
            None => r.model_display_name is None && r.provider_id is None,
        },
        text_in(r.account_label) == (match t.account_id {
            Some(id) => match account_with(accounts@, id@, 0) {
                Some(a) => Some(a.label@),
                None => None,
            },
            None => None,
        }),
{
    let account_label = match &t.account_id {
        Some(id) => match find_account(accounts, id.as_str()) {
            Some(a) => Some(a.label.clone()),
            None => None,
        },
        None => None,
    };
    match find_model(models, t.model_id.as_str()) {
        Some(m) => TargetNames {
            account_label,
            model_display_name: Some(m.display_name.clone()),
            provider_id: Some(m.provider_id.clone()),
        },
        None => TargetNames { account_label, model_display_name: None, provider_id: None },
    }
}

/// An alias that an administrator enters.
#[derive(Debug)]
pub struct AliasBody {
    pub alias: String,
    pub target_type: String,
    pub target_id: String,
    pub description: String,
}

/// The alias as the store holds it.
pub fn alias_row(body: &AliasBody) -> (r: AliasRow)
    ensures
        r.alias@ == body.alias@,
        r.target_type@ == body.target_type@,
        r.target_id@ == body.target_id@,
{
    AliasRow {
        alias: body.alias.clone(),
        target_type: body.target_type.clone(),
        target_id: body.target_id.clone(),
    }
}

/// The first Route with an id, from `from` on.
pub open spec fn route_with(routes: Seq<RouteRow>, id: Seq<char>, from: int) -> Option<RouteRow>
    decreases routes.len() - from,
{
    if from < 0 || from >= routes.len() {
        None
    } else if routes[from].id@ == id {
        Some(routes[from])
    } else {
        route_with(routes, id, from + 1)
    }
}

fn find_route<'a>(routes: &'a Vec<RouteRow>, id: &str) -> (r: Option<&'a RouteRow>)
    ensures
        match r {
            Some(x) => route_with(routes@, id@, 0) == Some(*x),
            None => route_with(routes@, id@, 0) is None,
        },
{
    let mut i: usize = 0;
    while i < routes.len()
        invariant
            i <= routes@.len(),
            route_with(routes@, id@, 0) == route_with(routes@, id@, i as int),
        decreases routes@.len() - i,
    {
        if same(routes[i].id.as_str(), id) {
            return Some(&routes[i]);
        }
        i = i + 1;
    }
    None
}

/// What an alias is shown to stand for: the name of its Route, or of its model;
/// `None` where the target is gone.
pub fn alias_display(a: &AliasRow, routes: &Vec<RouteRow>, models: &Vec<ModelRow>) -> (r: Option<
    String,
>)
    ensures
        text_in(r) == (if a.target_type@ == "route"@ {
            match route_with(routes@, a.target_id@, 0) {
                Some(x) => Some("Route: "@ + x.name@),
                None => None,
            }
        } else {
            match model_with(models@, a.target_id@, 0) {
                Some(m) => Some("Model: "@ + m.display_name@),
                None => None,
            }
        }),
{
    if same(a.target_type.as_str(), "route") {
        match find_route(routes, a.target_id.as_str()) {
            Some(x) => Some(text2("Route: ", x.name.as_str())),
            None => None,
        }
    } else {
        match find_model(models, a.target_id.as_str()) {
            Some(m) => Some(text2("Model: ", m.display_name.as_str())),
            None => None,
        }
    }
}

/// A request for the last rows of a log.
#[derive(Debug, Clone, Copy, PartialEq, Eq, Structural)]
pub struct LimitQuery {
    pub limit: i64,
}

/// How many rows are shown where no number is given.
pub fn default_limit() -> (r: i64)
    ensures
        r == 200,
{
    200
}

impl LimitQuery {
    /// How many rows are read: at most two thousand.
    pub fn rows(self) -> (r: i64)
        ensures
            r == (if self.limit <= 2000 {
                self.limit
            } else {
                2000
            }),
    {
        if self.limit <= 2000 {
            self.limit
        } else {
            2000
        }
    }
}

/// A dry run of the routing: a model name and what is known of the request.
pub struct DryRunBody<'a> {
    pub model: String,
    pub descriptor: RequestFacts<'a>,
}

/// An endpoint to be validated.
#[derive(Debug)]
pub struct ValidateBody {
    pub base_url: String,
    pub check_connectivity: bool,
}

/// What is known of the reachability of an endpoint.
#[derive(Debug)]
pub enum Connectivity {
    NotChecked,
    Reachable,
    DnsError(String),
}

/// The report on a valid endpoint. What cannot be established is unknown.
#[derive(Debug)]
pub struct EndpointReport {
    pub scheme: String,
    pub host: String,
    pub resolved_ips: Vec<String>,
    pub asn: String,
    pub connectivity: Connectivity,
}

/// Where a host lookup for a validation goes: the host and the port, 443 where
/// none is known.
#[derive(Debug)]
pub struct Lookup {
    pub scheme: String,
    pub host: String,
    pub port: u16,
}

/// Validates an endpoint, and says what to look up for the check of its
/// connectivity.
pub fn validate_endpoint(body: &ValidateBody, policy: OutboundPolicy) -> (r: Result<
    Lookup,
    ApiError,
>)
    ensures
        match outbound_fault(url_parts(body.base_url@), policy) {
            Some(e) => r matches Err(got) && got@ == api_fault(400, e),
            None => r matches Ok(l) && url_parts(body.base_url@) is Ok && is_lookup(
                l,
                url_parts(body.base_url@)->Ok_0,
            ),
        },
{
    if let Err(e) = validate_outbound_url(body.base_url.as_str(), policy) {
        return Err(ApiError::bad(e));
    }
    let parts = parse_url(body.base_url.as_str());
    match parts {
        Ok(p) => Ok(lookup_of(p)),
        Err(e) => Err(ApiError::bad(text2("invalid URL: ", e.as_str()))),
    }
}

/// Whether a lookup is that of a URL.
pub open spec fn is_lookup(l: Lookup, p: UrlModel) -> bool {
    &&& l.scheme@ == p.scheme
    &&& l.host@ == (match p.host {
        Some(h) => h,
        None => ""@,
    })
    &&& l.port == (match p.port {
        Some(n) => n,
        None => 443u16,
    })
}

/// The lookup of a URL.
pub fn lookup_of(p: UrlParts) -> (r: Lookup)
    ensures
        is_lookup(r, p@),
{
    let host = match p.host {
        Some(h) => h,
        None => "".to_owned(),
    };
    let port: u16 = match p.port {
        Some(n) => n,
        None => 443,
    };
    Lookup { scheme: p.scheme, host, port }
}

/// The report on a valid endpoint, from what the lookup gave; `None` where none
/// was made.
pub fn endpoint_report(l: Lookup, found: Option<Result<Vec<String>, String>>) -> (r: EndpointReport)
    ensures
        r.scheme@ == l.scheme@,
        r.host@ == l.host@,
        r.asn@ == "unknown"@,
        match found {
            None => r.connectivity is NotChecked && r.resolved_ips@.len() == 0,
            Some(Ok(ips)) => r.connectivity is Reachable && r.resolved_ips@ == ips@,
            Some(Err(e)) => r.resolved_ips@.len() == 0 && (r.connectivity matches Connectivity::DnsError(
                t,
            ) && t@ == "dns_error: "@ + e@),
        },
{
    match found {
        None => EndpointReport {
            scheme: l.scheme,
            host: l.host,
            resolved_ips: Vec::new(),
            asn: "unknown".to_owned(),
            connectivity: Connectivity::NotChecked,
        },
        Some(Ok(ips)) => EndpointReport {
            scheme: l.scheme,
            host: l.host,
            resolved_ips: ips,
            asn: "unknown".to_owned(),
            connectivity: Connectivity::Reachable,
        },
        Some(Err(e)) => EndpointReport {
            scheme: l.scheme,
            host: l.host,
            resolved_ips: Vec::new(),
            asn: "unknown".to_owned(),
            connectivity: Connectivity::DnsError(text2("dns_error: ", e.as_str())),
        },
    }
}

/// Every line of the audit names its actor, what was done, and to what.
pub proof fn law_audit_lines_name_what_was_done(
    action: Seq<char>,
    target_type: Seq<char>,
    target_id: Seq<char>,
    target_name: Seq<char>,
    details: Seq<char>,
)
    ensures
        ({
            let a = admin_line(action, target_type, target_id, target_name, details);
            &&& a.actor == "admin"@
            &&& a.action == action
            &&& a.target_type == target_type
            &&& a.target_id == target_id
            &&& a.target_name == target_name
            &&& a.details == details
        }),
{
}

/// An error of the console has the status and the words it was made with.
pub proof fn law_console_errors_say_what_they_are(status: u16, message: Seq<char>)
    ensures
        api_fault(status, message).status == status,
        api_fault(status, message).message == message,
{
}

/// A key without a list of models may use all of them, and one with a list those
/// on it, in order.
pub proof fn law_no_list_means_all_models(models: Seq<String>, i: int)
    ensures
        models.len() == 0 ==> models_or_all(models) == seq!["*"@],
        models.len() > 0 ==> models_or_all(models).len() == models.len(),
        0 <= i < models.len() ==> models_or_all(models)[i] == models[i]@,
        flag(true) == 1 && flag(false) == 0,
{
}

/// An update replaces exactly what it gives: each field it names takes the new
/// value, and each it leaves out stays.
pub proof fn law_updates_replace_what_they_give(
    row: VirtualKeyRow,
    old_row: VirtualKeyRow,
    body: UpdateKeyBody,
)
    requires
        is_updated(row, old_row, body),
    ensures
        body.status matches Some(v) ==> row.status@ == v@,
        body.status is None ==> row.status@ == old_row.status@,
        body.name matches Some(v) ==> row.name@ == v@,
        body.name is None ==> row.name@ == old_row.name@,
        body.owner matches Some(v) ==> row.owner@ == v@,
        body.owner is None ==> row.owner@ == old_row.owner@,
        body.tag matches Some(v) ==> row.tag@ == v@,
        body.tag is None ==> row.tag@ == old_row.tag@,
        body.allowed_models matches Some(v) ==> row.allowed_models@ == json_list_text(views(v@)),
        body.allowed_models is None ==> row.allowed_models@ == old_row.allowed_models@,
        body.allowed_providers matches Some(v) ==> row.allowed_providers@ == json_list_text(
            views(v@),
        ),
        body.allowed_providers is None ==> row.allowed_providers@ == old_row.allowed_providers@,
        body.allowed_ips matches Some(v) ==> row.allowed_ips@ == json_list_text(views(v@)),
        body.allowed_ips is None ==> row.allowed_ips@ == old_row.allowed_ips@,
        body.rpm_limit is Some ==> row.rpm_limit == body.rpm_limit,
        body.rpm_limit is None ==> row.rpm_limit == old_row.rpm_limit,
        body.tpm_limit is Some ==> row.tpm_limit == body.tpm_limit,
        body.tpm_limit is None ==> row.tpm_limit == old_row.tpm_limit,
        body.daily_budget is Some ==> row.daily_budget == body.daily_budget,
        body.daily_budget is None ==> row.daily_budget == old_row.daily_budget,
        body.monthly_budget is Some ==> row.monthly_budget == body.monthly_budget,
        body.monthly_budget is None ==> row.monthly_budget == old_row.monthly_budget,
        body.expires_at is Some ==> text_in(row.expires_at) == text_in(body.expires_at),
        body.expires_at is None ==> text_in(row.expires_at) == text_in(old_row.expires_at),
        body.body_logging matches Some(b) ==> (row.body_logging != 0 <==> b),
        body.body_logging is None ==> row.body_logging == old_row.body_logging,
        row.id@ == old_row.id@ && row.created_at@ == old_row.created_at@,
{
}

proof fn lemma_key_place(keys: Seq<VirtualKeyRow>, id: Seq<char>, from: int, at: int)
    requires
        0 <= from <= at <= keys.len(),
        at < keys.len() ==> keys[at].id@ == id,
        forall|k: int| from <= k < at ==> (#[trigger] keys[k]).id@ != id,
    ensures
        key_place(keys, id, from) == at,
    decreases at - from,
{
    if from < at {
        lemma_key_place(keys, id, from + 1, at);
    }
}

/// A key is found by its id: the first that bears it, and none where none does.
pub proof fn law_keys_are_found_by_id(keys: Seq<VirtualKeyRow>, id: Seq<char>, at: int)
    ensures
        0 <= at < keys.len() && keys[at].id@ == id && (forall|k: int|
            0 <= k < at ==> (#[trigger] keys[k]).id@ != id) ==> key_place(keys, id, 0) == at,
        (forall|k: int| 0 <= k < keys.len() ==> (#[trigger] keys[k]).id@ != id) ==> key_place(
            keys,
            id,
            0,
        ) == keys.len(),
{
    if 0 <= at < keys.len() && keys[at].id@ == id && (forall|k: int|
        0 <= k < at ==> (#[trigger] keys[k]).id@ != id) {
        lemma_key_place(keys, id, 0, at);
    }
    if forall|k: int| 0 <= k < keys.len() ==> (#[trigger] keys[k]).id@ != id {
        lemma_key_place(keys, id, 0, keys.len() as int);
    }
}

/// The wire formats and the credential schemes that can be stored are those that
/// requests can be sent with.
pub proof fn law_stored_providers_can_be_called(
    p: ProviderRow,
    base: Seq<char>,
    model: Seq<char>,
    credential: Seq<char>,
)
    ensures
        is_wire_format(p.wire_format@) <==> request_url_of(p.wire_format@, base, model) is Some,
        placement_of(p, credential) is Some ==> is_auth_scheme(p.auth_scheme@),
        p.auth_scheme@ == "bearer"@ ==> is_auth_scheme(p.auth_scheme@) && placement_of(p, credential)
            is Some,
        is_auth_scheme("custom_header"@),
        is_auth_scheme("query_param"@),
{
}

/// A provider is refused exactly where its address is, under the leave that it or
/// the proxy has, or where its format or scheme is unknown; leave for the one
/// provider is for encryption only.
pub proof fn law_providers_are_refused_for_cause(
    body: ProviderBody,
    parts: Result<UrlModel, Seq<char>>,
    policy: OutboundPolicy,
)
    ensures
        provider_fault(body, parts, policy) is None <==> outbound_fault(
            parts,
            OutboundPolicy {
                allow_private: policy.allow_private,
                allow_insecure_tls: policy.allow_insecure_tls || body.allow_insecure_tls,
            },
        ) is None && is_wire_format(body.wire_format@) && is_auth_scheme(body.auth_scheme@),
        provider_fault(body, parts, policy) matches Some(f) ==> f.status == 400,
        provider_policy(policy, false) == policy,
        provider_policy(policy, true).allow_private == policy.allow_private,
        provider_policy(policy, true).allow_insecure_tls,
{
}

/// A credential is given where there is more than space.
pub proof fn law_blank_credentials_are_none(key: Option<String>)
    ensures
        key is None ==> !has_key(key),
        key matches Some(k) ==> (has_key(key) <==> trim_of(k@).len() > 0),
{
}

/// Accounts are counted for their provider, each once, and the healthy ones are
/// among them.
pub proof fn law_provider_accounts_are_counted_once(
    a: Seq<AccountRow>,
    x: AccountRow,
    b: Seq<AccountRow>,
    provider: Seq<char>,
    status: Option<Seq<char>>,
)
    ensures
        accounts_of(a + b, provider, status) == accounts_of(a, provider, status) + accounts_of(
            b,
            provider,
            status,
        ),
        accounts_of(seq![x], provider, None) == (if x.provider_id@ == provider {
            1nat
        } else {
            0
        }),
        status matches Some(s) ==> accounts_of(seq![x], provider, status) == (if x.provider_id@
            == provider && x.status@ == s {
            1nat
        } else {
            0
        }),
        accounts_of(b, provider, status) <= accounts_of(b, provider, None),
    decreases b.len(),
{
    assert(seq![x].drop_last() =~= Seq::<AccountRow>::empty());
    assert(accounts_of(seq![x].drop_last(), provider, status) == 0);
    assert(accounts_of(seq![x].drop_last(), provider, None) == 0);
    if b.len() == 0 {
        assert(a + b =~= a);
    } else {
        law_provider_accounts_are_counted_once(a, x, b.drop_last(), provider, status);
        assert((a + b).drop_last() =~= a + b.drop_last());
        assert((a + b).last() == b.last());
    }
}

/// Models are counted for their provider, each once.
pub proof fn law_provider_models_are_counted_once(
    a: Seq<ModelRow>,
    x: ModelRow,
    b: Seq<ModelRow>,
    provider: Seq<char>,
)
    ensures
        models_of(a + b, provider) == models_of(a, provider) + models_of(b, provider),
        models_of(seq![x], provider) == (if x.provider_id@ == provider {
            1nat
        } else {
            0
        }),
    decreases b.len(),
{
    assert(seq![x].drop_last() =~= Seq::<ModelRow>::empty());
    assert(models_of(seq![x].drop_last(), provider) == 0);
    if b.len() == 0 {
        assert(a + b =~= a);
    } else {
        law_provider_models_are_counted_once(a, x, b.drop_last(), provider);
        assert((a + b).drop_last() =~= a + b.drop_last());
        assert((a + b).last() == b.last());
    }
}

/// Active keys are counted, each once, and no other.
pub proof fn law_active_keys_are_counted_once(
    a: Seq<VirtualKeyRow>,
    x: VirtualKeyRow,
    b: Seq<VirtualKeyRow>,
)
    ensures
        active_keys(a + b) == active_keys(a) + active_keys(b),
        active_keys(seq![x]) == (if x.status@ == "active"@ {
            1nat
        } else {
            0
        }),
    decreases b.len(),
{
    assert(seq![x].drop_last() =~= Seq::<VirtualKeyRow>::empty());
    assert(active_keys(seq![x].drop_last()) == 0);
    if b.len() == 0 {
        assert(a + b =~= a);
    } else {
        law_active_keys_are_counted_once(a, x, b.drop_last());
        assert((a + b).drop_last() =~= a + b.drop_last());
        assert((a + b).last() == b.last());
    }
}

/// A value that is left out has its default, and any other is stored as it is.
pub proof fn law_values_left_out_have_defaults(m: JsonModel, default: Seq<char>)
    ensures
        json_or(JsonModel::Null, default) == default,
        !(m is Null) ==> json_or(m, default) == json_text(m),
{
}

/// A target of a Route is stored as it was given.
pub proof fn law_targets_are_stored_as_given(
    s: StoredTarget,
    route_id: Seq<char>,
    t: RouteTargetBody,
)
    requires
        is_stored(s, route_id, t),
    ensures
        s.target.route_id@ == route_id,
        s.target.model_id@ == t.model_id@,
        s.target.account_id == t.account_id,
        s.target.priority == t.priority,
        s.target.weight == t.weight,
        json_model(t.predicate) is Null ==> s.predicate@ == "{}"@,
        !(json_model(t.predicate) is Null) ==> s.predicate@ == json_text(json_model(t.predicate)),
        json_model(t.param_overrides) is Null ==> s.param_overrides@ == "{}"@,
        !(json_model(t.param_overrides) is Null) ==> s.param_overrides@ == json_text(
            json_model(t.param_overrides),
        ),
{
}

proof fn lemma_rows_with(
    models: Seq<ModelRow>,
    accounts: Seq<AccountRow>,
    routes: Seq<RouteRow>,
    id: Seq<char>,
    from: int,
)
    requires
        0 <= from,
    ensures
        match model_with(models, id, from) {
            Some(m) => m.id@ == id && models.contains(m),
            None => forall|k: int| from <= k < models.len() ==> (#[trigger] models[k]).id@ != id,
        },
        match account_with(accounts, id, from) {
            Some(a) => a.id@ == id && accounts.contains(a),
            None => forall|k: int| from <= k < accounts.len() ==> (#[trigger] accounts[k]).id@ != id,
        },
        match route_with(routes, id, from) {
            Some(r) => r.id@ == id && routes.contains(r),
            None => forall|k: int| from <= k < routes.len() ==> (#[trigger] routes[k]).id@ != id,
        },
    decreases models.len() + accounts.len() + routes.len() - from,
{
    if from < models.len() || from < accounts.len() || from < routes.len() {
        lemma_rows_with(models, accounts, routes, id, from + 1);
        if from < models.len() {
            assert(models.contains(models[from]));
        }
        if from < accounts.len() {
            assert(accounts.contains(accounts[from]));
        }
        if from < routes.len() {
            assert(routes.contains(routes[from]));
        }
    }
}

/// A model, an account or a Route is named by its own row: one with its id, which
/// is found wherever there is one.
pub proof fn law_rows_are_found_by_id(
    models: Seq<ModelRow>,
    accounts: Seq<AccountRow>,
    routes: Seq<RouteRow>,
    id: Seq<char>,
    i: int,
)
    ensures
        model_with(models, id, 0) matches Some(m) ==> m.id@ == id && models.contains(m),
        0 <= i < models.len() && models[i].id@ == id ==> model_with(models, id, 0) is Some,
        account_with(accounts, id, 0) matches Some(a) ==> a.id@ == id && accounts.contains(a),
        0 <= i < accounts.len() && accounts[i].id@ == id ==> account_with(accounts, id, 0) is Some,
        route_with(routes, id, 0) matches Some(r) ==> r.id@ == id && routes.contains(r),
        0 <= i < routes.len() && routes[i].id@ == id ==> route_with(routes, id, 0) is Some,
{
    lemma_rows_with(models, accounts, routes, id, 0);
}

/// An endpoint is looked up under its own host and port, and under the port of
/// encrypted connections where it names none.
pub proof fn law_endpoints_are_looked_up_as_named(l: Lookup, p: UrlModel)
    requires
        is_lookup(l, p),
    ensures
        l.scheme@ == p.scheme,
        p.host matches Some(h) ==> l.host@ == h,
        p.port matches Some(n) ==> l.port == n,
        p.port is None ==> l.port == 443,
{
}

} // verus!
