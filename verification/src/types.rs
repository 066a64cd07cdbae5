//! The values that the modules share.

use crate::clock::Timestamp;
use vstd::prelude::*;

verus! {

/// What a model can do.
#[derive(Debug, Clone, Copy, PartialEq, Eq, Structural)]
pub struct Capabilities {
    pub text: bool,
    pub vision: bool,
    pub reasoning: bool,
    pub tool_calling: bool,
    pub audio: bool,
}

impl Default for Capabilities {
    /// Nothing is claimed of a model by default.
    fn default() -> (r: Self)
        ensures
            r == (Capabilities {
                text: false,
                vision: false,
                reasoning: false,
                tool_calling: false,
                audio: false,
            }),
    {
        Capabilities { text: false, vision: false, reasoning: false, tool_calling: false, audio: false }
    }
}

/// Why an upstream call failed.
#[derive(Debug, Clone, Copy, PartialEq, Eq, Structural)]
pub enum FailureKind {
    RateLimit,
    QuotaExhausted,
    AuthError,
    ServerError,
    ConnectionError,
    Timeout,
    BadRequest,
}

impl FailureKind {
    /// Whether another account may fare better: every failure but that of the
    /// request itself.
    pub fn is_key_level(self) -> (r: bool)
        ensures
            r == (self != FailureKind::BadRequest),
    {
        !matches!(self, FailureKind::BadRequest)
    }
}

/// The kinds of error that a client is answered with.
#[derive(Debug, Clone, Copy, PartialEq, Eq, Structural)]
pub enum ErrorKind {
    BadRequest,
    Unauthorized,
    Forbidden,
    NotFound,
    Unsupported,
    RateLimited,
    BudgetExceeded,
    Upstream,
    AllUnavailable,
    Internal,
}

/// An error that a client is answered with.
#[derive(Debug)]
pub struct ProxyError {
    pub kind: ErrorKind,
    pub message: String,
    pub retry_after_secs: Option<u64>,
    pub headers: Vec<(String, String)>,
}

/// What a `ProxyError` says.
pub struct Fault {
    pub kind: ErrorKind,
    pub message: Seq<char>,
    pub retry_after_secs: Option<u64>,
    pub headers: Seq<(String, String)>,
}

impl View for ProxyError {
    type V = Fault;

    open spec fn view(&self) -> Fault {
        Fault {
            kind: self.kind,
            message: self.message@,
            retry_after_secs: self.retry_after_secs,
            headers: self.headers@,
        }
    }
}

/// An error of that kind, with that message and that waiting time, and no
/// headers of its own.
pub open spec fn fault(kind: ErrorKind, message: Seq<char>, retry: Option<u64>) -> Fault {
    Fault { kind, message, retry_after_secs: retry, headers: Seq::empty() }
}

/// Whether an error has that kind, that message and that waiting time, and no
/// headers of its own.
pub open spec fn is_error(e: ProxyError, kind: ErrorKind, message: Seq<char>, retry: Option<u64>) -> bool {
    e@ == fault(kind, message, retry)
}

impl ProxyError {
    pub fn new(kind: ErrorKind, message: String) -> (r: Self)
        ensures
            is_error(r, kind, message@, None),
    {
        ProxyError { kind, message, retry_after_secs: None, headers: Vec::new() }
    }

    /// An error that may be tried again after a while.
    pub fn with_retry(kind: ErrorKind, message: String, retry_after_secs: Option<u64>) -> (r: Self)
        ensures
            is_error(r, kind, message@, retry_after_secs),
    {
        ProxyError { kind, message, retry_after_secs, headers: Vec::new() }
    }
}

/// The characters of an optional text.
pub open spec fn text_in(s: Option<String>) -> Option<Seq<char>> {
    match s {
        Some(t) => Some(t@),
        None => None,
    }
}

/// A copy of an optional text.
pub fn copy_text(o: &Option<String>) -> (r: Option<String>)
    ensures
        r == *o,
{
    match o {
        Some(s) => Some(s.clone()),
        None => None,
    }
}

/// An account of a provider. `cooldown_until` and `quota_reset_at` are RFC 3339
/// times.
#[derive(Debug)]
pub struct AccountRow {
    pub id: String,
    pub provider_id: String,
    pub label: String,
    pub secret_enc: String,
    pub secret_mask: String,
    pub priority: i64,
    pub weight: i64,
    pub status: String,
    pub cooldown_until: Option<String>,
    pub quota_type: String,
    pub quota_window_s: Option<i64>,
    pub quota_reset_at: Option<String>,
    pub soft_quota_usd: Option<Dollars>,
    pub last_error: Option<String>,
    /// How many calls in a row its upstream failed or left unanswered.
    pub failures: i64,
}

impl Clone for AccountRow {
    fn clone(&self) -> (r: Self)
        ensures
            r == *self,
    {
        AccountRow {
            id: self.id.clone(),
            provider_id: self.provider_id.clone(),
            label: self.label.clone(),
            secret_enc: self.secret_enc.clone(),
            secret_mask: self.secret_mask.clone(),
            priority: self.priority,
            weight: self.weight,
            status: self.status.clone(),
            cooldown_until: copy_text(&self.cooldown_until),
            quota_type: self.quota_type.clone(),
            quota_window_s: self.quota_window_s,
            quota_reset_at: copy_text(&self.quota_reset_at),
            soft_quota_usd: self.soft_quota_usd,
            last_error: copy_text(&self.last_error),
            failures: self.failures,
        }
    }
}

/// A provider of models.
#[derive(Debug)]
pub struct ProviderRow {
    pub id: String,
    pub name: String,
    pub base_url: String,
    pub wire_format: String,
    pub auth_scheme: String,
    pub custom_header_name: Option<String>,
    pub custom_param_name: Option<String>,
    pub extra_headers: String,
    pub timeout_ms: i64,
    pub capability_mode: String,
    pub models_path: Option<String>,
    pub enabled: i64,
}

impl Clone for ProviderRow {
    fn clone(&self) -> (r: Self)
        ensures
            r == *self,
    {
        ProviderRow {
            id: self.id.clone(),
            name: self.name.clone(),
            base_url: self.base_url.clone(),
            wire_format: self.wire_format.clone(),
            auth_scheme: self.auth_scheme.clone(),
            custom_header_name: copy_text(&self.custom_header_name),
            custom_param_name: copy_text(&self.custom_param_name),
            extra_headers: self.extra_headers.clone(),
            timeout_ms: self.timeout_ms,
            capability_mode: self.capability_mode.clone(),
            models_path: copy_text(&self.models_path),
            enabled: self.enabled,
        }
    }
}

/// A model of a provider. The texts from `capabilities` on are JSON documents.
#[derive(Debug)]
pub struct ModelRow {
    pub id: String,
    pub provider_id: String,
    pub upstream_id: String,
    pub display_name: String,
    pub enabled: i64,
    pub context_window: Option<i64>,
    pub max_output_tokens: Option<i64>,
    pub capabilities: String,
    pub prices: String,
    pub parameters: String,
    pub thinking_map: String,
    pub extra_request: String,
    pub discovery: String,
    pub created_at: String,
}

impl Clone for ModelRow {
    fn clone(&self) -> (r: Self)
        ensures
            r == *self,
    {
        ModelRow {
            id: self.id.clone(),
            provider_id: self.provider_id.clone(),
            upstream_id: self.upstream_id.clone(),
            display_name: self.display_name.clone(),
            enabled: self.enabled,
            context_window: self.context_window,
            max_output_tokens: self.max_output_tokens,
            capabilities: self.capabilities.clone(),
            prices: self.prices.clone(),
            parameters: self.parameters.clone(),
            thinking_map: self.thinking_map.clone(),
            extra_request: self.extra_request.clone(),
            discovery: self.discovery.clone(),
            created_at: self.created_at.clone(),
        }
    }
}

/// Another name for a model or a Route.
#[derive(Debug)]
pub struct AliasRow {
    pub alias: String,
    pub target_type: String,
    pub target_id: String,
}

impl Clone for AliasRow {
    fn clone(&self) -> (r: Self)
        ensures
            r == *self,
    {
        AliasRow {
            alias: self.alias.clone(),
            target_type: self.target_type.clone(),
            target_id: self.target_id.clone(),
        }
    }
}

/// A Route: a named list of targets with a strategy.
#[derive(Debug)]
pub struct RouteRow {
    pub id: String,
    pub name: String,
    pub strategy: String,
    pub continuity_policy: String,
    pub max_attempts: Option<i64>,
    pub enabled: i64,
}

impl Clone for RouteRow {
    fn clone(&self) -> (r: Self)
        ensures
            r == *self,
    {
        RouteRow {
            id: self.id.clone(),
            name: self.name.clone(),
            strategy: self.strategy.clone(),
            continuity_policy: self.continuity_policy.clone(),
            max_attempts: self.max_attempts,
            enabled: self.enabled,
        }
    }
}

/// One target of a Route. Without an account, the provider's first account
/// serves.
#[derive(Debug)]
pub struct RouteTargetRow {
    pub route_id: String,
    pub model_id: String,
    pub account_id: Option<String>,
    pub priority: i64,
    pub weight: i64,
}

impl Clone for RouteTargetRow {
    fn clone(&self) -> (r: Self)
        ensures
            r == *self,
    {
        RouteTargetRow {
            route_id: self.route_id.clone(),
            model_id: self.model_id.clone(),
            account_id: copy_text(&self.account_id),
            priority: self.priority,
            weight: self.weight,
        }
    }
}

/// The bits of a double that counts dollars.
#[derive(Debug, Clone, Copy, PartialEq, Eq, Structural)]
pub struct Dollars {
    pub bits: u64,
}

/// A virtual key. The allow-lists are JSON arrays of strings.
#[derive(Debug)]
pub struct VirtualKeyRow {
    pub id: String,
    pub key_hash: String,
    pub name: String,
    pub owner: String,
    pub tag: String,
    pub allowed_models: String,
    pub allowed_providers: String,
    pub rpm_limit: Option<i64>,
    pub tpm_limit: Option<i64>,
    pub daily_budget: Option<Dollars>,
    pub monthly_budget: Option<Dollars>,
    pub expires_at: Option<String>,
    pub status: String,
    pub allowed_ips: String,
    pub body_logging: i64,
    pub created_at: String,
    pub revoked_at: Option<String>,
}

/// Token counts of one exchange. A count that the provider did not report is
/// unknown, not zero.
#[derive(Debug, Clone, Copy, PartialEq, Eq, Structural)]
pub struct TokenUsage {
    pub input: Option<u64>,
    pub output: Option<u64>,
    pub cached: Option<u64>,
    pub thinking: Option<u64>,
}

impl Default for TokenUsage {
    fn default() -> (r: Self)
        ensures
            r == (TokenUsage { input: None, output: None, cached: None, thinking: None }),
    {
        TokenUsage { input: None, output: None, cached: None, thinking: None }
    }
}

/// The newer of two reports, where there is one.
pub open spec fn newer(old_count: Option<u64>, new_count: Option<u64>) -> Option<u64> {
    if new_count is Some {
        new_count
    } else {
        old_count
    }
}

/// Two reports taken together: a count that the newer one states replaces the
/// older one.
pub open spec fn merged(old_usage: TokenUsage, new_usage: TokenUsage) -> TokenUsage {
    TokenUsage {
        input: newer(old_usage.input, new_usage.input),
        output: newer(old_usage.output, new_usage.output),
        cached: newer(old_usage.cached, new_usage.cached),
        thinking: newer(old_usage.thinking, new_usage.thinking),
    }
}

impl TokenUsage {
    /// Takes over what a newer report states.
    pub fn merge(&mut self, other: &TokenUsage)
        ensures
            *final(self) == merged(*old(self), *other),
    {
        if other.input.is_some() {
            self.input = other.input;
        }
        if other.output.is_some() {
            self.output = other.output;
        }
        if other.cached.is_some() {
            self.cached = other.cached;
        }
        if other.thinking.is_some() {
            self.thinking = other.thinking;
        }
    }
}

/// A failed upstream call, classified.
#[derive(Debug)]
pub struct UpstreamFailure {
    pub kind: FailureKind,
    pub status: Option<u16>,
    pub retry_after_secs: Option<u64>,
    pub message: String,
    pub quota_reset_at: Option<Timestamp>,
}

/// The wire format of a client.
#[derive(Debug, Clone, Copy, PartialEq, Eq, Structural)]
pub enum FrontendFormat {
    OpenAi,
    Anthropic,
}

/// The name of a client format.
pub open spec fn format_name(f: FrontendFormat) -> Seq<char> {
    match f {
        FrontendFormat::OpenAi => "openai"@,
        FrontendFormat::Anthropic => "anthropic"@,
    }
}

impl FrontendFormat {
    pub fn as_str(self) -> (r: &'static str)
        ensures
            r@ == format_name(self),
    {
        match self {
            FrontendFormat::OpenAi => "openai",
            FrontendFormat::Anthropic => "anthropic",
        }
    }
}

/// Who speaks in a message.
#[derive(Debug, Clone, Copy, PartialEq, Eq, Structural)]
pub enum Role {
    System,
    User,
    Assistant,
    Tool,
}

/// A part of a message. Thinking, and the signature of a tool call, are opaque
/// state of one provider.
#[derive(Debug)]
pub enum Part {
    Text(String),
    Image { media_type: String, data: String },
    Thinking { text: String, signature: Option<String> },
    ToolCall { id: String, name: String, arguments: String, signature: Option<String> },
    ToolResult { id: String, content: String },
}

/// A message of a conversation.
#[derive(Debug)]
pub struct Message {
    pub role: Role,
    pub parts: Vec<Part>,
}

/// A later report completes an earlier one: each count it gives takes the place
/// of the earlier, and each it leaves out stays. Reports can be merged in any
/// grouping, and one that says nothing changes nothing.
pub proof fn law_later_reports_complete_earlier_ones(a: TokenUsage, b: TokenUsage, c: TokenUsage)
    ensures
        b.input is Some ==> merged(a, b).input == b.input,
        b.input is None ==> merged(a, b).input == a.input,
        b.output is Some ==> merged(a, b).output == b.output,
        b.output is None ==> merged(a, b).output == a.output,
        b.cached is Some ==> merged(a, b).cached == b.cached,
        b.cached is None ==> merged(a, b).cached == a.cached,
        b.thinking is Some ==> merged(a, b).thinking == b.thinking,
        b.thinking is None ==> merged(a, b).thinking == a.thinking,
        merged(merged(a, b), c) == merged(a, merged(b, c)),
        merged(a, a) == a,
        merged(a, TokenUsage { input: None, output: None, cached: None, thinking: None }) == a,
{
}

/// An error is of the kind and with the words and the wait it was made with, and
/// brings no headers of its own.
pub proof fn law_errors_say_what_they_were_made_with(
    kind: ErrorKind,
    message: Seq<char>,
    retry: Option<u64>,
)
    ensures
        fault(kind, message, retry).kind == kind,
        fault(kind, message, retry).message == message,
        fault(kind, message, retry).retry_after_secs == retry,
        fault(kind, message, retry).headers.len() == 0,
{
}

/// An error that is of some kind, words and wait has them, and no headers.
pub proof fn law_errors_are_what_is_said_of_them(
    e: ProxyError,
    kind: ErrorKind,
    message: Seq<char>,
    retry: Option<u64>,
)
    requires
        is_error(e, kind, message, retry),
    ensures
        e.kind == kind,
        e.message@ == message,
        e.retry_after_secs == retry,
        e.headers@.len() == 0,
{
}

/// The formats of clients have different names.
pub proof fn law_formats_are_told_apart(a: FrontendFormat, b: FrontendFormat)
    ensures
        format_name(a) == format_name(b) ==> a == b,
{
    reveal_strlit("openai");
    reveal_strlit("anthropic");
    assert("openai"@.len() == 6 && "anthropic"@.len() == 9);
}

} // verus!
