//! The attempt loop: one target after the other until one answers.
//!
//! All fallback happens here, before the first byte reaches the client. The
//! loop is a state machine: each step takes what happened and says what to do
//! next.

use crate::clock::{seconds_apart, seconds_between, Timestamp, MAX_SECS, MIN_SECS};
use crate::json::{field_of, get_field, json_model, parse_json, read_json, JsonModel, Node};
use crate::plan::{strips, strips_state};
use crate::pool::{
    exhausted_change, failed_change, has_limit, healthy_change, limits_spend, mark_exhausted, mark_failed, mark_healthy, mark_probed, mark_rate_limited,
    one_failure_more, probed_change, rate_limited_change, reaches, reset_time, soonest_of,
    soonest_recovery, spend_reaches, status_at, status_of, status_when, window_since, window_text,
    AccountStatus, StatusChange, StoredStatus, CIRCUIT_FAILURES,
};
use crate::registry::ResolvedTarget;
use crate::text::{decimal, decimal_text, same, text2, text3, text4, views};
use crate::types::{
    fault, text_in, AccountRow, Dollars, ErrorKind, FailureKind, Fault, ProxyError, RouteRow,
    UpstreamFailure,
};
use vstd::prelude::*;

verus! {

/// The length of an account's quota window in seconds: a day, thirty days, or
/// what is configured for a rolling window.
pub open spec fn quota_window(quota_type: Seq<char>, window_s: Option<i64>) -> i64 {
    if quota_type == "daily"@ {
        86_400
    } else if quota_type == "monthly"@ {
        2_592_000
    } else if quota_type == "rolling"@ {
        match window_s {
            Some(w) => w,
            None => 86_400,
        }
    } else {
        86_400
    }
}

/// The length of an account's quota window in seconds.
pub fn default_quota_window(account: &AccountRow) -> (r: i64)
    ensures
        r == quota_window(account.quota_type@, account.quota_window_s),
{
    if same(account.quota_type.as_str(), "daily") {
        86_400
    } else if same(account.quota_type.as_str(), "monthly") {
        2_592_000
    } else if same(account.quota_type.as_str(), "rolling") {
        match account.quota_window_s {
            Some(w) => w,
            None => 86_400,
        }
    } else {
        86_400
    }
}

/// What a client is told of a failed upstream call.
pub open spec fn failure_fault(f: UpstreamFailure, provider_name: Seq<char>) -> Fault {
    match f.kind {
        FailureKind::RateLimit | FailureKind::QuotaExhausted => fault(
            ErrorKind::RateLimited,
            f.message@,
            f.retry_after_secs,
        ),
        FailureKind::BadRequest => fault(ErrorKind::BadRequest, f.message@, None),
        FailureKind::AuthError => fault(
            ErrorKind::Upstream,
            "upstream authentication failed for provider '"@ + provider_name + "'"@,
            None,
        ),
        FailureKind::Timeout => fault(ErrorKind::Upstream, "upstream request timed out"@, None),
        FailureKind::ConnectionError | FailureKind::ServerError => fault(
            ErrorKind::Upstream,
            f.message@,
            None,
        ),
    }
}

/// What a client is told of a failed upstream call.
pub fn failure_to_error(f: &UpstreamFailure, provider_name: &str) -> (r: ProxyError)
    ensures
        r@ == failure_fault(*f, provider_name@),
{
    match f.kind {
        FailureKind::RateLimit | FailureKind::QuotaExhausted => ProxyError::with_retry(
            ErrorKind::RateLimited,
            f.message.clone(),
            f.retry_after_secs,
        ),
        FailureKind::BadRequest => ProxyError::new(ErrorKind::BadRequest, f.message.clone()),
        FailureKind::AuthError => ProxyError::new(
            ErrorKind::Upstream,
            text3("upstream authentication failed for provider '", provider_name, "'"),
        ),
        FailureKind::Timeout => ProxyError::new(
            ErrorKind::Upstream,
            "upstream request timed out".to_owned(),
        ),
        FailureKind::ConnectionError | FailureKind::ServerError => ProxyError::new(
            ErrorKind::Upstream,
            f.message.clone(),
        ),
    }
}

/// How long a rate-limited account rests: as long as the provider told, else
/// thirty seconds, but at most an hour.
pub open spec fn cooldown_of(retry_after_secs: Option<u64>) -> u64 {
    match retry_after_secs {
        Some(s) => if s > 3600 {
            3600
        } else {
            s
        },
        None => 30,
    }
}

/// What is stored of an account after a failed call; `None` where the request
/// itself was at fault.
pub open spec fn failure_change(f: UpstreamFailure, account: AccountRow, now: Timestamp) -> Option<
    StoredStatus,
> {
    match f.kind {
        FailureKind::RateLimit => Some(
            rate_limited_change(cooldown_of(f.retry_after_secs) as int, f.message@, now),
        ),
        FailureKind::QuotaExhausted => Some(
            exhausted_change(
                reset_time(
                    f.quota_reset_at,
                    quota_window(account.quota_type@, account.quota_window_s) as int,
                    now,
                ),
                f.message@,
            ),
        ),
        FailureKind::AuthError => Some(
            StoredStatus {
                status: "disabled"@,
                cooldown_until: None,
                quota_reset_at: None,
                last_error: Some(f.message@),
                failures: 0,
            },
        ),
        FailureKind::ServerError | FailureKind::ConnectionError | FailureKind::Timeout => Some(
            failed_change(account.failures, f.message@, now),
        ),
        FailureKind::BadRequest => None,
    }
}

/// What the path of a request notes of a failed call.
pub open spec fn failure_note(f: UpstreamFailure, account: AccountRow) -> Option<Seq<char>> {
    let label = account.label@;
    match f.kind {
        FailureKind::RateLimit => Some(
            label + ":429(cooldown "@ + decimal(cooldown_of(f.retry_after_secs) as nat) + "s)"@,
        ),
        FailureKind::QuotaExhausted => Some(label + ":quota_exhausted"@),
        FailureKind::AuthError => Some(label + ":auth_error(disabled)"@),
        FailureKind::ServerError | FailureKind::ConnectionError | FailureKind::Timeout => Some(
            if one_failure_more(account.failures) >= CIRCUIT_FAILURES {
                label + ":5xx(circuit open)"@
            } else {
                label + ":5xx(cooldown 10s)"@
            },
        ),
        FailureKind::BadRequest => None,
    }
}

/// What an optional change stores.
pub open spec fn change_view(c: Option<StatusChange>) -> Option<StoredStatus> {
    match c {
        Some(v) => Some(v@),
        None => None,
    }
}

/// Whether the times that follow from `now` can be represented for an account.
pub open spec fn clock_fits(account: AccountRow, now: Timestamp) -> bool {
    &&& now.plain()
    &&& now.secs + 3600 <= MAX_SECS
    &&& MIN_SECS <= now.secs + quota_window(account.quota_type@, account.quota_window_s)
        <= MAX_SECS
}

/// The reaction to a failed call: what is stored of the account, and what the
/// path of the request notes.
pub fn handle_key_failure(f: &UpstreamFailure, account: &AccountRow, now: Timestamp) -> (r: (
    Option<StatusChange>,
    Option<String>,
))
    requires
        clock_fits(*account, now),
        f.quota_reset_at matches Some(t) ==> t.wf(),
    ensures
        change_view(r.0) == failure_change(*f, *account, now),
        text_in(r.1) == failure_note(*f, *account),
{
    let label = account.label.as_str();
    match f.kind {
        FailureKind::RateLimit => {
            let cooldown: u64 = match f.retry_after_secs {
                Some(s) => if s > 3600 {
                    3600
                } else {
                    s
                },
                None => 30,
            };
            let (change, _) = mark_rate_limited(cooldown, f.message.as_str(), now);
            (
                Some(change),
                Some(text4(label, ":429(cooldown ", decimal_text(cooldown).as_str(), "s)")),
            )
        },
        FailureKind::QuotaExhausted => {
            let (change, _) = mark_exhausted(
                f.quota_reset_at,
                default_quota_window(account),
                f.message.as_str(),
                now,
            );
            (Some(change), Some(text2(label, ":quota_exhausted")))
        },
        FailureKind::AuthError => (
            Some(
                StatusChange {
                    status: "disabled".to_owned(),
                    cooldown_until: None,
                    quota_reset_at: None,
                    last_error: Some(f.message.clone()),
                    failures: 0,
                },
            ),
            Some(text2(label, ":auth_error(disabled)")),
        ),
        FailureKind::ServerError | FailureKind::ConnectionError | FailureKind::Timeout => {
            let (change, _) = mark_failed(account.failures, f.message.as_str(), now);
            let note = if change.failures >= CIRCUIT_FAILURES {
                text2(label, ":5xx(circuit open)")
            } else {
                text2(label, ":5xx(cooldown 10s)")
            };
            (Some(change), Some(note))
        },
        FailureKind::BadRequest => (None, None),
    }
}

/// What makes a Route fall back to its next target.
#[derive(Debug, Clone, Copy, PartialEq, Eq, Structural)]
pub struct Triggers {
    pub on_429: bool,
    pub on_quota: bool,
    pub on_5xx: bool,
    pub on_timeout: bool,
}

/// Whether a JSON object switches something off.
pub open spec fn is_off(m: JsonModel, name: Seq<char>) -> bool {
    field_of(m, name) == Some(JsonModel::Bool(false))
}

/// The triggers that a JSON value means: each one that it does not switch off.
pub open spec fn triggers_in(m: JsonModel) -> Triggers {
    Triggers {
        on_429: !is_off(m, "on429"@),
        on_quota: !is_off(m, "onQuota"@),
        on_5xx: !is_off(m, "on5xx"@),
        on_timeout: !is_off(m, "onTimeout"@),
    }
}

/// The triggers where nothing is said of them: all.
pub open spec fn all_triggers() -> Triggers {
    Triggers { on_429: true, on_quota: true, on_5xx: true, on_timeout: true }
}

impl Default for Triggers {
    fn default() -> (r: Self)
        ensures
            r == all_triggers(),
    {
        Triggers { on_429: true, on_quota: true, on_5xx: true, on_timeout: true }
    }
}

fn switched_off(n: &Node, name: &str) -> (r: bool)
    ensures
        r == is_off(crate::json::node_model(*n), name@),
{
    match get_field(n, name) {
        Some(v) => matches!(read_json(v), Node::Bool(false)),
        None => false,
    }
}

/// The triggers that a JSON value means.
pub fn read_triggers(v: &serde_json::Value) -> (r: Triggers)
    ensures
        r == triggers_in(json_model(*v)),
{
    let n = read_json(v);
    Triggers {
        on_429: !switched_off(&n, "on429"),
        on_quota: !switched_off(&n, "onQuota"),
        on_5xx: !switched_off(&n, "on5xx"),
        on_timeout: !switched_off(&n, "onTimeout"),
    }
}

/// The triggers that are stored with a Route; all, where the text is no JSON.
pub fn stored_triggers(text: &str) -> (r: Triggers)
    ensures
        match crate::json::json_parsed(vstd::utf8::encode_utf8(text@)) {
            Some(m) => r == triggers_in(m),
            None => r == all_triggers(),
        },
{
    match parse_json(text.as_bytes()) {
        Some(v) => read_triggers(&v),
        None => Triggers::default(),
    }
}

/// Whether a kind of failure makes a request go on with the next target. A
/// credential that is refused always does, and a request that is at fault never.
pub open spec fn triggered(t: Triggers, kind: FailureKind) -> bool {
    match kind {
        FailureKind::RateLimit => t.on_429,
        FailureKind::QuotaExhausted => t.on_quota,
        FailureKind::ServerError | FailureKind::ConnectionError => t.on_5xx,
        FailureKind::Timeout => t.on_timeout,
        FailureKind::AuthError => true,
        FailureKind::BadRequest => false,
    }
}

fn is_triggered(t: Triggers, kind: FailureKind) -> (r: bool)
    ensures
        r == triggered(t, kind),
{
    match kind {
        FailureKind::RateLimit => t.on_429,
        FailureKind::QuotaExhausted => t.on_quota,
        FailureKind::ServerError | FailureKind::ConnectionError => t.on_5xx,
        FailureKind::Timeout => t.on_timeout,
        FailureKind::AuthError => true,
        FailureKind::BadRequest => false,
    }
}

/// What a request may try.
#[derive(Debug)]
pub struct Plan {
    /// The targets in order.
    pub targets: Vec<ResolvedTarget>,
    /// The Route, where the request resolved to one.
    pub route: Option<RouteRow>,
    pub requested_model: String,
    /// How many targets may be tried.
    pub max_attempts: usize,
    pub allow_fallback: bool,
    /// The failures that make it go on with the next target.
    pub triggers: Triggers,
    /// The conversation carries state that only one provider understands.
    pub opaque: bool,
}

/// What the loop waits for.
#[derive(Debug, Clone, Copy, PartialEq, Eq, Structural)]
pub enum Phase {
    /// The spend of the target's account.
    Spend,
    /// The store, which takes a change of the target's account.
    Stored,
    /// The store, which takes note that the target's account is probed.
    Probing,
    /// The credential of the target's account.
    Credential,
    /// The answer of the target.
    Sent,
    /// Nothing: the loop is over.
    Over,
}

/// How far a request has come.
#[derive(Debug)]
pub struct Progress {
    at: usize,
    phase: Phase,
    tried: Vec<usize>,
    path: Vec<String>,
    last_error: Option<String>,
}

/// What a `Progress` holds: the current target, what is waited for, the targets
/// that were sent the request, the notes of the path, and the last error.
pub struct Trail {
    pub at: int,
    pub phase: Phase,
    pub tried: Seq<usize>,
    pub path: Seq<Seq<char>>,
    pub last_error: Option<Seq<char>>,
}

impl View for Progress {
    type V = Trail;

    closed spec fn view(&self) -> Trail {
        Trail {
            at: self.at as int,
            phase: self.phase,
            tried: self.tried@,
            path: views(self.path@),
            last_error: text_in(self.last_error),
        }
    }
}

/// What happened.
#[derive(Debug)]
pub enum Event {
    /// What the account spent in its quota window; `None` where the store could
    /// not tell.
    Spend(Option<Dollars>),
    /// The change was handed to the store.
    Stored,
    /// The account's credential cannot be had.
    CredentialFailed,
    /// The credential is there; the error is that of the parameter check.
    CredentialReady(Option<ProxyError>),
    /// The target answered with success.
    Accepted,
    /// The target answered with a failure.
    Answered(UpstreamFailure),
    /// The request could not be sent.
    SendFailed(UpstreamFailure),
}

/// What to do next.
#[derive(Debug)]
pub enum Action {
    /// Ask the store what the target's account spent since the start of its quota
    /// window. Where the window reaches beyond the times that can be
    /// represented, there is no start, and the spend cannot be told.
    AskSpend { target: usize, since: Option<String> },
    /// Hand a change of the target's account to the store, and reload the
    /// configuration where that is asked.
    Store { target: usize, change: Option<StatusChange>, reload: bool },
    /// Get the credential of the target's account and check the parameters.
    AskCredential { target: usize },
    /// Send the request to the target, stripped of opaque state where that is
    /// asked.
    Send { target: usize, strip: bool },
    /// Answer the client from the target, after so many fallbacks, and hand a
    /// change of its account to the store where there is one.
    Respond { target: usize, hops: usize, change: Option<StatusChange> },
    /// Answer the client with an error.
    Fail(ProxyError),
}

/// What an `Action` says.
pub enum Move {
    AskSpend { target: int, since: Option<Seq<char>> },
    Store { target: int, change: Option<StoredStatus>, reload: bool },
    AskCredential { target: int },
    Send { target: int, strip: bool },
    Respond { target: int, hops: int, change: Option<StoredStatus> },
    Fail(Fault),
}

impl View for Action {
    type V = Move;

    open spec fn view(&self) -> Move {
        match *self {
            Action::AskSpend { target, since } => Move::AskSpend {
                target: target as int,
                since: text_in(since),
            },
            Action::Store { target, change, reload } => Move::Store {
                target: target as int,
                change: change_view(change),
                reload,
            },
            Action::AskCredential { target } => Move::AskCredential { target: target as int },
            Action::Send { target, strip } => Move::Send { target: target as int, strip },
            Action::Respond { target, hops, change } => Move::Respond {
                target: target as int,
                hops: hops as int,
                change: change_view(change),
            },
            Action::Fail(e) => Move::Fail(e@),
        }
    }
}

impl Trail {
    /// Whether the trail can belong to a plan: the targets tried stand in order
    /// before the current one, or end with it once the request was sent, and
    /// are not too many.
    pub open spec fn wf(self, plan: Plan) -> bool {
        &&& 0 <= self.at <= plan.targets@.len()
        &&& self.phase != Phase::Over ==> self.at < plan.targets@.len()
        &&& self.tried.len() <= plan.max_attempts
        &&& forall|i: int, j: int|
            0 <= i < j < self.tried.len() ==> (#[trigger] self.tried[i]) < (#[trigger] self.tried[j])
        &&& forall|i: int| 0 <= i < self.tried.len() ==> (#[trigger] self.tried[i]) <= self.at
            && self.tried[i] < plan.targets@.len()
        &&& self.phase == Phase::Spend || self.phase == Phase::Credential || self.phase
            == Phase::Probing ==> {
            &&& self.tried.len() < plan.max_attempts
            &&& forall|i: int| 0 <= i < self.tried.len() ==> (#[trigger] self.tried[i]) < self.at
        }
        &&& self.phase == Phase::Sent ==> self.tried.len() > 0 && self.tried.last() == self.at
    }

    /// Whether an event is what the loop waits for.
    pub open spec fn awaits(self, event: Event) -> bool {
        match event {
            Event::Spend(_) => self.phase == Phase::Spend,
            Event::Stored => self.phase == Phase::Stored || self.phase == Phase::Probing,
            Event::CredentialFailed | Event::CredentialReady(_) => self.phase == Phase::Credential,
            Event::Accepted | Event::Answered(_) | Event::SendFailed(_) => self.phase
                == Phase::Sent,
        }
    }
}

/// What a request is called in an error: its Route, else the requested model.
pub open spec fn request_name(plan: Plan) -> Seq<char> {
    match plan.route {
        Some(r) => "route '"@ + r.name@ + "'"@,
        None => plan.requested_model@,
    }
}

/// The accounts of some targets.
pub open spec fn accounts_of(targets: Seq<ResolvedTarget>) -> Seq<AccountRow> {
    targets.map_values(|t: ResolvedTarget| t.account)
}

/// The seconds until the first of the accounts comes back, at least one.
pub open spec fn retry_after(accounts: Seq<AccountRow>, now: Timestamp) -> Option<u64> {
    match soonest_of(accounts) {
        None => None,
        Some(t) => {
            let s = seconds_apart(t.secs as int, t.nanos as int, now.secs as int, now.nanos as int);
            Some(
                if s < 1 {
                    1
                } else {
                    s as u64
                },
            )
        },
    }
}

/// What a client is told when every target is unavailable.
pub open spec fn unavailable(plan: Plan, t: Trail, now: Timestamp) -> Fault {
    let name = request_name(plan);
    let why = match t.last_error {
        Some(m) => m,
        None => "all targets of "@ + name + " are currently unavailable"@,
    };
    fault(
        ErrorKind::AllUnavailable,
        name + ": "@ + why,
        retry_after(accounts_of(plan.targets@.take(t.at)), now),
    )
}

/// The trail with a note added to the path.
pub open spec fn noted(t: Trail, note: Seq<char>) -> Trail {
    Trail { path: t.path.push(note), ..t }
}

/// The trail at the next target.
pub open spec fn onward(t: Trail) -> Trail {
    Trail { at: t.at + 1, ..t }
}

/// Turns to the current target: its spend is asked for where it is limited.
pub open spec fn turn_to(plan: Plan, t: Trail, now: Timestamp) -> (Trail, Move) {
    let account = plan.targets@[t.at].account;
    if limits_spend(account.soft_quota_usd) {
        (
            Trail { phase: Phase::Spend, ..t },
            Move::AskSpend {
                target: t.at,
                since: window_text(account.quota_type@, account.quota_window_s, now),
            },
        )
    } else {
        (Trail { phase: Phase::Credential, ..t }, Move::AskCredential { target: t.at })
    }
}

/// Goes to the first target from the current one on that is healthy, noting
/// those passed over. A probe of an open circuit is stored before it begins.
/// Without a target, or after enough attempts, the request fails.
pub open spec fn advance(plan: Plan, t: Trail, now: Timestamp) -> (Trail, Move)
    decreases plan.targets@.len() - t.at,
{
    if t.at < 0 || t.at >= plan.targets@.len() || t.tried.len() >= plan.max_attempts {
        (Trail { phase: Phase::Over, ..t }, Move::Fail(unavailable(plan, t, now)))
    } else {
        let account = plan.targets@[t.at].account;
        if status_when(account, now) != AccountStatus::Healthy {
            advance(
                plan,
                onward(noted(t, account.label@ + ":skipped("@ + account.status@ + ")"@)),
                now,
            )
        } else if status_of(account.status@) == AccountStatus::CircuitOpen {
            (
                Trail { phase: Phase::Probing, ..t },
                Move::Store {
                    target: t.at,
                    change: Some(probed_change(account, now)),
                    reload: true,
                },
            )
        } else {
            turn_to(plan, t, now)
        }
    }
}

/// What a success stores of an account: an open circuit closes, and failures that
/// were counted are forgotten. Of any other account nothing is stored.
pub open spec fn success_change(account: AccountRow) -> Option<StoredStatus> {
    if account.status@ == "circuit_open"@ || account.failures != 0 {
        Some(healthy_change())
    } else {
        None
    }
}

/// Whether a failure that a target answered makes a request go on with the next
/// one.
pub open spec fn goes_on(plan: Plan, f: UpstreamFailure) -> bool {
    plan.allow_fallback && triggered(plan.triggers, f.kind)
}

/// Whether a request that could not be sent goes on with the next target: no
/// target has found it at fault.
pub open spec fn goes_on_unsent(plan: Plan, f: UpstreamFailure) -> bool {
    plan.allow_fallback && (f.kind == FailureKind::BadRequest || triggered(plan.triggers, f.kind))
}

/// The continuity policy of a request; a request without a Route has none.
pub open spec fn policy_of(plan: Plan) -> Seq<char> {
    match plan.route {
        Some(r) => r.continuity_policy@,
        None => ""@,
    }
}

/// Whether the request was already sent to another provider than that of the
/// current target.
pub open spec fn crosses(plan: Plan, t: Trail) -> bool {
    exists|i: int|
        0 <= i < t.tried.len() && plan.targets@[(#[trigger] t.tried[i]) as int].provider.id@
            != plan.targets@[t.at].provider.id@
}

/// After a failed call the account's state is stored and the next target's turn
/// comes.
pub open spec fn fall_back(plan: Plan, t: Trail, f: UpstreamFailure, now: Timestamp) -> (
    Trail,
    Move,
) {
    let target = plan.targets@[t.at];
    let after = match failure_note(f, target.account) {
        Some(note) => noted(t, note),
        None => t,
    };
    (
        Trail {
            phase: Phase::Stored,
            last_error: Some(failure_fault(f, target.provider.name@).message),
            ..after
        },
        Move::Store {
            target: t.at,
            change: failure_change(f, target.account, now),
            reload: true,
        },
    )
}

/// What follows an event.
pub open spec fn next(plan: Plan, t: Trail, event: Event, now: Timestamp) -> (Trail, Move) {
    let target = plan.targets@[t.at];
    let account = target.account;
    match event {
        Event::Spend(spent) => if spent matches Some(d) && spend_reaches(account.soft_quota_usd, d) {
            (
                Trail { phase: Phase::Stored, ..noted(t, account.label@ + ":soft_quota"@) },
                Move::Store {
                    target: t.at,
                    change: Some(
                        exhausted_change(
                            reset_time(
                                None,
                                quota_window(account.quota_type@, account.quota_window_s) as int,
                                now,
                            ),
                            "soft quota reached"@,
                        ),
                    ),
                    reload: false,
                },
            )
        } else {
            (Trail { phase: Phase::Credential, ..t }, Move::AskCredential { target: t.at })
        },
        Event::Stored => if t.phase == Phase::Probing {
            turn_to(plan, t, now)
        } else {
            advance(plan, onward(t), now)
        },
        Event::CredentialFailed => advance(
            plan,
            onward(Trail { last_error: Some("credential unavailable"@), ..t }),
            now,
        ),
        Event::CredentialReady(rejected) => if crosses(plan, t) && plan.opaque && policy_of(plan)
            == "reject"@ {
            advance(plan, onward(noted(t, account.label@ + ":not_portable"@)), now)
        } else {
            match rejected {
                Some(e) => (Trail { phase: Phase::Over, ..t }, Move::Fail(e@)),
                None => (
                    Trail { phase: Phase::Sent, tried: t.tried.push(t.at as usize), ..t },
                    Move::Send { target: t.at, strip: crosses(plan, t) && strips(policy_of(plan)) },
                ),
            }
        },
        Event::Accepted => (
            Trail { phase: Phase::Over, ..noted(t, account.label@ + ":200"@) },
            Move::Respond {
                target: t.at,
                hops: t.tried.len() - 1,
                change: success_change(account),
            },
        ),
        Event::Answered(f) => if goes_on(plan, f) {
            fall_back(plan, t, f, now)
        } else {
            (
                Trail { phase: Phase::Over, ..t },
                Move::Fail(failure_fault(f, target.provider.name@)),
            )
        },
        Event::SendFailed(f) => if goes_on_unsent(plan, f) {
            fall_back(plan, t, f, now)
        } else {
            (
                Trail { phase: Phase::Over, ..t },
                Move::Fail(failure_fault(f, target.provider.name@)),
            )
        },
    }
}

/// The trail of a request before its first target.
pub open spec fn start_trail(plan: Plan) -> Trail {
    Trail {
        at: 0,
        phase: Phase::Over,
        tried: Seq::empty(),
        path: match plan.route {
            Some(r) => seq!["route:"@ + r.name@],
            None => Seq::empty(),
        },
        last_error: None,
    }
}

fn seconds_to_retry(targets: &Vec<ResolvedTarget>, upto: usize, now: Timestamp) -> (r: Option<u64>)
    requires
        upto <= targets@.len(),
        now.plain(),
    ensures
        r == retry_after(accounts_of(targets@.take(upto as int)), now),
{
    let mut accounts: Vec<AccountRow> = Vec::new();
    let mut i: usize = 0;
    while i < upto
        invariant
            i <= upto <= targets@.len(),
            accounts@ == accounts_of(targets@.take(i as int)),
        decreases upto - i,
    {
        assert(accounts_of(targets@.take(i + 1)) =~= accounts_of(targets@.take(i as int)).push(
            targets@[i as int].account,
        ));
        accounts.push(targets[i].account.clone());
        i = i + 1;
    }
    match soonest_recovery(&accounts) {
        None => None,
        Some(t) => {
            let s = seconds_between(t, now);
            Some(
                if s < 1 {
                    1
                } else {
                    s as u64
                },
            )
        },
    }
}

impl Progress {
    /// What the path of the request notes, hop by hop.
    pub fn path(&self) -> (r: &Vec<String>)
        ensures
            views(r@) == self@.path,
    {
        &self.path
    }

    /// Whether the loop is over.
    pub fn is_over(&self) -> (r: bool)
        ensures
            r == (self@.phase == Phase::Over),
    {
        matches!(self.phase, Phase::Over)
    }

    /// Whether an event is what the loop waits for.
    pub fn can_take(&self, event: &Event) -> (r: bool)
        ensures
            r == self@.awaits(*event),
    {
        match event {
            Event::Spend(_) => matches!(self.phase, Phase::Spend),
            Event::Stored => matches!(self.phase, Phase::Stored | Phase::Probing),
            Event::CredentialFailed | Event::CredentialReady(_) => matches!(
                self.phase,
                Phase::Credential
            ),
            Event::Accepted | Event::Answered(_) | Event::SendFailed(_) => matches!(
                self.phase,
                Phase::Sent
            ),
        }
    }

    fn note(&mut self, note: String)
        ensures
            final(self)@ == noted(old(self)@, note@),
    {
        self.path.push(note);
        assert(views(self.path@) =~= views(old(self).path@).push(note@));
    }

    fn fail_unavailable(&self, plan: &Plan, now: Timestamp) -> (r: ProxyError)
        requires
            0 <= self@.at <= plan.targets@.len(),
            now.plain(),
        ensures
            r@ == unavailable(*plan, self@, now),
    {
        let name = match &plan.route {
            Some(r) => text3("route '", r.name.as_str(), "'"),
            None => plan.requested_model.clone(),
        };
        let why = match &self.last_error {
            Some(m) => m.clone(),
            None => text3("all targets of ", name.as_str(), " are currently unavailable"),
        };
        ProxyError::with_retry(
            ErrorKind::AllUnavailable,
            text3(name.as_str(), ": ", why.as_str()),
            seconds_to_retry(&plan.targets, self.at, now),
        )
    }

    fn turn(&mut self, plan: &Plan, now: Timestamp) -> (r: Action)
        requires
            0 <= old(self)@.at < plan.targets@.len(),
        ensures
            (final(self)@, r@) == turn_to(*plan, old(self)@, now),
    {
        let target: usize = self.at;
        let account = &plan.targets[target].account;
        if has_limit(account.soft_quota_usd) {
            self.phase = Phase::Spend;
            let since = window_since(account.quota_type.as_str(), account.quota_window_s, now);
            Action::AskSpend { target, since }
        } else {
            self.phase = Phase::Credential;
            Action::AskCredential { target }
        }
    }

    fn go_on(&mut self, plan: &Plan, now: Timestamp) -> (r: Action)
        requires
            0 <= old(self)@.at <= plan.targets@.len(),
            now.plain(),
            now.secs + 3600 <= MAX_SECS,
        ensures
            (final(self)@, r@) == advance(*plan, old(self)@, now),
    {
        let ghost goal = advance(*plan, self@, now);
        while self.at < plan.targets.len() && self.tried.len() < plan.max_attempts
            invariant
                0 <= self@.at <= plan.targets@.len(),
                now.plain(),
                now.secs + 3600 <= MAX_SECS,
                advance(*plan, self@, now) == goal,
                goal == advance(*plan, old(self)@, now),
            decreases plan.targets@.len() - self.at,
        {
            let account = &plan.targets[self.at].account;
            if !matches!(status_at(account, now), AccountStatus::Healthy) {
                let note = text4(
                    account.label.as_str(),
                    ":skipped(",
                    account.status.as_str(),
                    ")",
                );
                self.note(note);
                self.at = self.at + 1;
            } else {
                let target: usize = self.at;
                if matches!(
                    AccountStatus::parse(account.status.as_str()),
                    AccountStatus::CircuitOpen
                ) {
                    let (change, _) = mark_probed(account, now);
                    self.phase = Phase::Probing;
                    return Action::Store { target, change: Some(change), reload: true };
                }
                return self.turn(plan, now);
            }
        }
        let e = self.fail_unavailable(plan, now);
        self.phase = Phase::Over;
        Action::Fail(e)
    }

    /// Begins the loop at the first target.
    pub fn begin(plan: &Plan, now: Timestamp) -> (r: (Progress, Action))
        requires
            now.plain(),
            now.secs + 3600 <= MAX_SECS,
        ensures
            (r.0@, r.1@) == advance(*plan, start_trail(*plan), now),
            r.0@.wf(*plan),
    {
        let mut path: Vec<String> = Vec::new();
        if let Some(r) = &plan.route {
            path.push(text2("route:", r.name.as_str()));
        }
        let mut p = Progress { at: 0, phase: Phase::Over, tried: Vec::new(), path, last_error: None };
        assert(p@.path =~= start_trail(*plan).path);
        assert(p@ == start_trail(*plan));
        proof {
            lemma_advance_wf(*plan, p@, now);
        }
        let action = p.go_on(plan, now);
        (p, action)
    }

    fn crosses_providers(&self, plan: &Plan) -> (r: bool)
        requires
            self@.wf(*plan),
            self@.at < plan.targets@.len(),
        ensures
            r == crosses(*plan, self@),
    {
        let here = plan.targets[self.at].provider.id.as_str();
        let mut i: usize = 0;
        while i < self.tried.len()
            invariant
                i <= self.tried@.len(),
                self@.wf(*plan),
                self@.at < plan.targets@.len(),
                here@ == plan.targets@[self@.at].provider.id@,
                forall|k: int|
                    0 <= k < i ==> plan.targets@[(#[trigger] self@.tried[k]) as int].provider.id@
                        == here@,
            decreases self.tried@.len() - i,
        {
            assert(self@.tried[i as int] < plan.targets@.len());
            if !same(plan.targets[self.tried[i]].provider.id.as_str(), here) {
                return true;
            }
            i = i + 1;
        }
        false
    }

    fn fail_over(&mut self, plan: &Plan, f: &UpstreamFailure, now: Timestamp) -> (r: Action)
        requires
            old(self)@.wf(*plan),
            old(self)@.at < plan.targets@.len(),
            clock_fits(plan.targets@[old(self)@.at].account, now),
            f.quota_reset_at matches Some(t) ==> t.wf(),
        ensures
            (final(self)@, r@) == fall_back(*plan, old(self)@, *f, now),
    {
        let target: usize = self.at;
        let t = &plan.targets[target];
        let (change, note) = handle_key_failure(f, &t.account, now);
        let error = failure_to_error(f, t.provider.name.as_str());
        if let Some(n) = note {
            self.note(n);
        }
        self.last_error = Some(error.message);
        self.phase = Phase::Stored;
        Action::Store { target, change, reload: true }
    }

    /// Takes an event and says what to do next.
    pub fn step(&mut self, plan: &Plan, event: Event, now: Timestamp) -> (r: Action)
        requires
            old(self)@.wf(*plan),
            old(self)@.awaits(event),
            clock_fits(plan.targets@[old(self)@.at].account, now),
            event matches Event::Answered(f) ==> (f.quota_reset_at matches Some(t) ==> t.wf()),
            event matches Event::SendFailed(f) ==> (f.quota_reset_at matches Some(t) ==> t.wf()),
        ensures
            (final(self)@, r@) == next(*plan, old(self)@, event, now),
            final(self)@.wf(*plan),
    {
        let at: usize = self.at;
        let total: usize = plan.targets.len();
        assert(at < total);
        proof {
            lemma_next_wf(*plan, self@, event, now);
        }
        let t = &plan.targets[at];
        match event {
            Event::Spend(spent) => {
                let reached = match spent {
                    Some(d) => reaches(t.account.soft_quota_usd, d),
                    None => false,
                };
                if reached {
                    let (change, _) = mark_exhausted(
                        None,
                        default_quota_window(&t.account),
                        "soft quota reached",
                        now,
                    );
                    self.note(text2(t.account.label.as_str(), ":soft_quota"));
                    self.phase = Phase::Stored;
                    Action::Store { target: at, change: Some(change), reload: false }
                } else {
                    self.phase = Phase::Credential;
                    Action::AskCredential { target: at }
                }
            },
            Event::Stored => {
                if matches!(self.phase, Phase::Probing) {
                    return self.turn(plan, now);
                }
                self.at = at + 1;
                self.go_on(plan, now)
            },
            Event::CredentialFailed => {
                self.last_error = Some("credential unavailable".to_owned());
                self.at = at + 1;
                self.go_on(plan, now)
            },
            Event::CredentialReady(rejected) => {
                let crossing = self.crosses_providers(plan);
                let policy = match &plan.route {
                    Some(r) => r.continuity_policy.clone(),
                    None => "".to_owned(),
                };
                if crossing && plan.opaque && same(policy.as_str(), "reject") {
                    self.note(text2(t.account.label.as_str(), ":not_portable"));
                    self.at = at + 1;
                    return self.go_on(plan, now);
                }
                match rejected {
                    Some(e) => {
                        self.phase = Phase::Over;
                        Action::Fail(e)
                    },
                    None => {
                        let strip = crossing && strips_state(policy.as_str());
                        self.tried.push(at);
                        self.phase = Phase::Sent;
                        Action::Send { target: at, strip }
                    },
                }
            },
            Event::Accepted => {
                self.note(text2(t.account.label.as_str(), ":200"));
                self.phase = Phase::Over;
                let change = if same(t.account.status.as_str(), "circuit_open")
                    || t.account.failures != 0 {
                    Some(mark_healthy())
                } else {
                    None
                };
                Action::Respond { target: at, hops: self.tried.len() - 1, change }
            },
            Event::Answered(f) => {
                if plan.allow_fallback && is_triggered(plan.triggers, f.kind) {
                    return self.fail_over(plan, &f, now);
                }
                self.phase = Phase::Over;
                Action::Fail(failure_to_error(&f, t.provider.name.as_str()))
            },
            Event::SendFailed(f) => {
                if plan.allow_fallback && (matches!(f.kind, FailureKind::BadRequest) || is_triggered(
                    plan.triggers,
                    f.kind,
                )) {
                    return self.fail_over(plan, &f, now);
                }
                self.phase = Phase::Over;
                Action::Fail(failure_to_error(&f, t.provider.name.as_str()))
            },
        }
    }
}

/// Whether a target that is turned to is announced as a probe where its circuit is
/// open, and only there.
pub open spec fn is_announced(plan: Plan, m: Move, now: Timestamp) -> bool {
    match m {
        Move::AskSpend { target, .. } | Move::AskCredential { target } => status_of(
            plan.targets@[target].account.status@,
        ) != AccountStatus::CircuitOpen,
        Move::Store { target, change, .. } => status_of(plan.targets@[target].account.status@)
            == AccountStatus::CircuitOpen && change == Some(
            probed_change(plan.targets@[target].account, now),
        ),
        _ => true,
    }
}

proof fn lemma_advance_wf(plan: Plan, t: Trail, now: Timestamp)
    requires
        0 <= t.at <= plan.targets@.len(),
        t.tried.len() <= plan.max_attempts,
        forall|i: int, j: int|
            0 <= i < j < t.tried.len() ==> (#[trigger] t.tried[i]) < (#[trigger] t.tried[j]),
        forall|i: int|
            0 <= i < t.tried.len() ==> (#[trigger] t.tried[i]) < t.at && t.tried[i]
                < plan.targets@.len(),
    ensures
        advance(plan, t, now).0.wf(plan),
        advance(plan, t, now).0.tried == t.tried,
        advance(plan, t, now).0.at >= t.at,
        match advance(plan, t, now).1 {
            Move::AskSpend { target, .. } | Move::AskCredential { target } | Move::Store {
                target,
                ..
            } => {
                &&& target == advance(plan, t, now).0.at
                &&& advance(plan, t, now).0.phase != Phase::Over
                &&& 0 <= target < plan.targets@.len()
                &&& status_when(plan.targets@[target].account, now) == AccountStatus::Healthy
            },
            Move::Fail(f) => advance(plan, t, now).0.phase == Phase::Over && f.kind
                == ErrorKind::AllUnavailable,
            _ => false,
        },
        is_announced(plan, advance(plan, t, now).1, now),
    decreases plan.targets@.len() - t.at,
{
    if t.at < plan.targets@.len() && t.tried.len() < plan.max_attempts {
        let account = plan.targets@[t.at].account;
        if status_when(account, now) != AccountStatus::Healthy {
            lemma_advance_wf(
                plan,
                onward(noted(t, account.label@ + ":skipped("@ + account.status@ + ")"@)),
                now,
            );
        }
    }
}

proof fn lemma_next_wf(plan: Plan, t: Trail, event: Event, now: Timestamp)
    requires
        t.wf(plan),
        t.awaits(event),
        plan.targets@.len() <= usize::MAX,
    ensures
        next(plan, t, event, now).0.wf(plan),
{
    match event {
        Event::Stored => {
            lemma_advance_wf(plan, onward(t), now);
        },
        Event::CredentialFailed => {
            lemma_advance_wf(
                plan,
                onward(Trail { last_error: Some("credential unavailable"@), ..t }),
                now,
            );
        },
        Event::CredentialReady(_) => {
            lemma_advance_wf(
                plan,
                onward(noted(t, plan.targets@[t.at].account.label@ + ":not_portable"@)),
                now,
            );
        },
        _ => {},
    }
}

/// Whether the times that follow from `now` can be represented for an account.
pub fn clock_allows(account: &AccountRow, now: Timestamp) -> (r: bool)
    ensures
        r == clock_fits(*account, now),
{
    let window: i64 = default_quota_window(account);
    let end: i128 = now.secs as i128 + window as i128;
    now.secs >= MIN_SECS && now.secs <= MAX_SECS - 3600 && now.nanos < 1_000_000_000 && end
        >= MIN_SECS as i128 && end <= MAX_SECS as i128
}

/// A request is sent to at most as many targets as allowed, to each at most
/// once, and in their order.
pub proof fn law_attempts_in_order(plan: Plan, t: Trail, event: Event, now: Timestamp)
    requires
        t.wf(plan),
        t.awaits(event),
        plan.targets@.len() <= usize::MAX,
    ensures
        ({
            let (u, m) = next(plan, t, event, now);
            &&& u.wf(plan)
            &&& u.tried.len() <= plan.max_attempts
            &&& u.at >= t.at
            &&& match m {
                Move::Send { target, .. } => u.tried == t.tried.push(target as usize) && forall|i: int|
                    0 <= i < t.tried.len() ==> (#[trigger] t.tried[i]) < target,
                _ => u.tried == t.tried,
            }
        }),
{
    lemma_next_wf(plan, t, event, now);
    match event {
        Event::Stored => {
            lemma_advance_wf(plan, onward(t), now);
        },
        Event::CredentialFailed => {
            lemma_advance_wf(
                plan,
                onward(Trail { last_error: Some("credential unavailable"@), ..t }),
                now,
            );
        },
        Event::CredentialReady(_) => {
            lemma_advance_wf(
                plan,
                onward(noted(t, plan.targets@[t.at].account.label@ + ":not_portable"@)),
                now,
            );
        },
        _ => {},
    }
}

/// Once the client is answered, from a target or with an error, the loop is
/// over: no event leads to another attempt.
pub proof fn law_no_attempt_after_answer(plan: Plan, t: Trail, event: Event, now: Timestamp)
    requires
        t.wf(plan),
        t.awaits(event),
        plan.targets@.len() <= usize::MAX,
    ensures
        ({
            let (u, m) = next(plan, t, event, now);
            &&& (m is Respond || m is Fail) == (u.phase == Phase::Over)
            &&& u.phase == Phase::Over ==> forall|later: Event| !u.awaits(later)
        }),
{
    law_attempts_in_order(plan, t, event, now);
    match event {
        Event::Stored => {
            lemma_advance_wf(plan, onward(t), now);
        },
        Event::CredentialFailed => {
            lemma_advance_wf(
                plan,
                onward(Trail { last_error: Some("credential unavailable"@), ..t }),
                now,
            );
        },
        Event::CredentialReady(_) => {
            lemma_advance_wf(
                plan,
                onward(noted(t, plan.targets@[t.at].account.label@ + ":not_portable"@)),
                now,
            );
        },
        _ => {},
    }
}

/// A target's answer that the request itself is at fault is handed to the
/// client and never tried elsewhere; without fallback every failure is.
pub proof fn law_bad_request_is_final(plan: Plan, t: Trail, f: UpstreamFailure, now: Timestamp)
    requires
        t.wf(plan),
        t.phase == Phase::Sent,
    ensures
        f.kind == FailureKind::BadRequest ==> next(plan, t, Event::Answered(f), now).1
            == Move::Fail(fault(ErrorKind::BadRequest, f.message@, None)),
        !plan.allow_fallback ==> next(plan, t, Event::Answered(f), now).1 is Fail && next(
            plan,
            t,
            Event::SendFailed(f),
            now,
        ).1 is Fail,
{
}

/// A failure that the Route does not fall back on is handed to the client, and
/// so is every failure without fallback; any other leads on to the next target.
pub proof fn law_triggers_decide(plan: Plan, t: Trail, f: UpstreamFailure, now: Timestamp)
    requires
        t.wf(plan),
        t.phase == Phase::Sent,
    ensures
        next(plan, t, Event::Answered(f), now).1 is Fail == !goes_on(plan, f),
        next(plan, t, Event::Answered(f), now).1 is Store == goes_on(plan, f),
        next(plan, t, Event::SendFailed(f), now).1 is Fail == !goes_on_unsent(plan, f),
        next(plan, t, Event::SendFailed(f), now).1 is Store == goes_on_unsent(plan, f),
{
}

/// A success closes the circuit of the account that served it, and forgets its
/// failures; an account with neither is left as it is.
pub proof fn law_success_closes_the_circuit(plan: Plan, t: Trail, now: Timestamp)
    requires
        t.wf(plan),
        t.phase == Phase::Sent,
    ensures
        ({
            let account = plan.targets@[t.at].account;
            let m = next(plan, t, Event::Accepted, now).1;
            &&& m is Respond
            &&& account.status@ == "circuit_open"@ || account.failures != 0
                ==> m->Respond_change == Some(healthy_change())
            &&& account.status@ != "circuit_open"@ && account.failures == 0
                ==> m->Respond_change is None
        }),
{
}

/// A target that the loop turns to is healthy at that time, and one with an open
/// circuit is marked as probed before anything is sent to it.
pub proof fn law_only_healthy_targets(plan: Plan, t: Trail, event: Event, now: Timestamp)
    requires
        t.wf(plan),
        t.awaits(event),
        plan.targets@.len() <= usize::MAX,
        next(plan, t, event, now).0.at != t.at,
    ensures
        match next(plan, t, event, now).1 {
            Move::AskSpend { target, .. } | Move::AskCredential { target } | Move::Store {
                target,
                ..
            } => status_when(
                plan.targets@[target].account,
                now,
            ) == AccountStatus::Healthy,
            Move::Fail(f) => f.kind == ErrorKind::AllUnavailable,
            _ => false,
        },
        is_announced(plan, next(plan, t, event, now).1, now),
{
    match event {
        Event::Stored => {
            lemma_advance_wf(plan, onward(t), now);
        },
        Event::CredentialFailed => {
            lemma_advance_wf(
                plan,
                onward(Trail { last_error: Some("credential unavailable"@), ..t }),
                now,
            );
        },
        Event::CredentialReady(_) => {
            lemma_advance_wf(
                plan,
                onward(noted(t, plan.targets@[t.at].account.label@ + ":not_portable"@)),
                now,
            );
        },
        _ => {},
    }
}

/// Whether a target, from a place on, is the first that is healthy.
pub open spec fn is_next_healthy(plan: Plan, from: int, at: int, now: Timestamp) -> bool {
    &&& from <= at < plan.targets@.len()
    &&& status_when(plan.targets@[at].account, now) == AccountStatus::Healthy
    &&& forall|k: int|
        from <= k < at ==> status_when((#[trigger] plan.targets@[k]).account, now)
            != AccountStatus::Healthy
}

/// Whether no target, from a place on, is healthy.
pub open spec fn none_healthy(plan: Plan, from: int, now: Timestamp) -> bool {
    forall|k: int|
        from <= k < plan.targets@.len() ==> status_when((#[trigger] plan.targets@[k]).account, now)
            != AccountStatus::Healthy
}

/// Whether a move turns to a target.
pub open spec fn turns_to(m: Move, at: int) -> bool {
    match m {
        Move::AskSpend { target, .. } | Move::AskCredential { target } | Move::Store {
            target,
            ..
        } => target == at,
        _ => false,
    }
}

proof fn lemma_advance_finds(plan: Plan, t: Trail, at: int, now: Timestamp)
    requires
        0 <= t.at,
        t.tried.len() < plan.max_attempts,
    ensures
        is_next_healthy(plan, t.at, at, now) ==> turns_to(advance(plan, t, now).1, at) && advance(
            plan,
            t,
            now,
        ).0.at == at,
        none_healthy(plan, t.at, now) ==> advance(plan, t, now).1 is Fail,
    decreases plan.targets@.len() - t.at,
{
    if t.at < plan.targets@.len() {
        let account = plan.targets@[t.at].account;
        if status_when(account, now) != AccountStatus::Healthy {
            lemma_advance_finds(
                plan,
                onward(noted(t, account.label@ + ":skipped("@ + account.status@ + ")"@)),
                at,
                now,
            );
        }
    }
}

/// Fallback: with every trigger on, a failure of any kind but a bad request, be it
/// answered or met on the way, is stored with the target's account, and then the
/// next healthy target's turn comes. Only where none is left, or enough were
/// tried, is the client told.
pub proof fn law_failures_lead_on(
    plan: Plan,
    t: Trail,
    f: UpstreamFailure,
    at: int,
    now: Timestamp,
    then: Timestamp,
)
    requires
        t.wf(plan),
        t.phase == Phase::Sent,
        plan.allow_fallback,
        plan.triggers.on_429 && plan.triggers.on_quota && plan.triggers.on_5xx
            && plan.triggers.on_timeout,
        f.kind != FailureKind::BadRequest,
    ensures
        forall|e: Event|
            e == Event::Answered(f) || e == Event::SendFailed(f) ==> {
                let (u, m) = #[trigger] next(plan, t, e, now);
                let after = next(plan, u, Event::Stored, then);
                &&& m matches Move::Store { target, change, .. } && target == t.at && change is Some
                &&& u.awaits(Event::Stored)
                &&& t.tried.len() < plan.max_attempts && is_next_healthy(plan, t.at + 1, at, then)
                    ==> turns_to(after.1, at) && after.0.at == at
                &&& t.tried.len() >= plan.max_attempts || none_healthy(plan, t.at + 1, then)
                    ==> after.1 is Fail
            },
{
    assert forall|e: Event| e == Event::Answered(f) || e == Event::SendFailed(f) implies {
        let (u, m) = #[trigger] next(plan, t, e, now);
        let after = next(plan, u, Event::Stored, then);
        &&& m matches Move::Store { target, change, .. } && target == t.at && change is Some
        &&& u.awaits(Event::Stored)
        &&& t.tried.len() < plan.max_attempts && is_next_healthy(plan, t.at + 1, at, then)
            ==> turns_to(after.1, at) && after.0.at == at
        &&& t.tried.len() >= plan.max_attempts || none_healthy(plan, t.at + 1, then)
            ==> after.1 is Fail
    } by {
        let u = next(plan, t, e, now).0;
        if t.tried.len() < plan.max_attempts {
            lemma_advance_finds(plan, onward(u), at, then);
        }
    }
}

/// Each trigger governs its own failures and no others: a rate limit, a spent
/// quota, an upstream that fails or cannot be reached, and one that gives no
/// answer in time. A refused credential leads on under any triggers.
pub proof fn law_each_trigger_governs_its_failures(
    plan: Plan,
    t: Trail,
    f: UpstreamFailure,
    now: Timestamp,
)
    requires
        t.wf(plan),
        t.phase == Phase::Sent,
        plan.allow_fallback,
        f.kind != FailureKind::BadRequest,
    ensures
        forall|e: Event|
            e == Event::Answered(f) || e == Event::SendFailed(f) ==> {
                let m = (#[trigger] next(plan, t, e, now)).1;
                &&& m is Store || m is Fail
                &&& f.kind == FailureKind::RateLimit ==> m is Store == plan.triggers.on_429
                &&& f.kind == FailureKind::QuotaExhausted ==> m is Store == plan.triggers.on_quota
                &&& f.kind == FailureKind::ServerError || f.kind == FailureKind::ConnectionError
                    ==> m is Store == plan.triggers.on_5xx
                &&& f.kind == FailureKind::Timeout ==> m is Store == plan.triggers.on_timeout
                &&& f.kind == FailureKind::AuthError ==> m is Store
            },
{
}

/// A Route without stored triggers falls back on everything, and a stored
/// `false` switches off the trigger of its name alone.
pub proof fn law_triggers_are_on_unless_switched_off(m: JsonModel)
    ensures
        all_triggers().on_429 && all_triggers().on_quota && all_triggers().on_5xx
            && all_triggers().on_timeout,
        triggers_in(m).on_429 <==> field_of(m, "on429"@) != Some(JsonModel::Bool(false)),
        triggers_in(m).on_quota <==> field_of(m, "onQuota"@) != Some(JsonModel::Bool(false)),
        triggers_in(m).on_5xx <==> field_of(m, "on5xx"@) != Some(JsonModel::Bool(false)),
        triggers_in(m).on_timeout <==> field_of(m, "onTimeout"@) != Some(JsonModel::Bool(false)),
{
}

/// The first target that a request turns to is the first healthy one, and with
/// none it fails at once.
pub proof fn law_first_healthy_target_first(plan: Plan, at: int, now: Timestamp)
    requires
        plan.max_attempts > 0,
    ensures
        is_next_healthy(plan, 0, at, now) ==> turns_to(advance(plan, start_trail(plan), now).1, at),
        none_healthy(plan, 0, now) ==> advance(plan, start_trail(plan), now).1 is Fail,
{
    lemma_advance_finds(plan, start_trail(plan), at, now);
}

/// A credential that cannot be had costs no attempt: nothing counts as sent, and
/// the next healthy target's turn comes.
pub proof fn law_missing_credential_leads_on(plan: Plan, t: Trail, at: int, now: Timestamp)
    requires
        t.wf(plan),
        t.phase == Phase::Credential,
    ensures
        ({
            let (u, m) = next(plan, t, Event::CredentialFailed, now);
            &&& is_next_healthy(plan, t.at + 1, at, now) ==> turns_to(m, at) && u.at == at
            &&& none_healthy(plan, t.at + 1, now) ==> m is Fail
        }),
{
    lemma_advance_finds(
        plan,
        onward(Trail { last_error: Some("credential unavailable"@), ..t }),
        at,
        now,
    );
}

/// What is stored of an account after a failure takes it out of service: it
/// rests where the limit was hit or the upstream failed, is exhausted where its
/// quota is spent, and is disabled where its credential was refused. A request
/// that is at fault changes nothing.
pub proof fn law_failures_take_accounts_out(f: UpstreamFailure, account: AccountRow, now: Timestamp)
    ensures
        match failure_change(f, account, now) {
            None => f.kind == FailureKind::BadRequest,
            Some(c) => {
                &&& f.kind != FailureKind::BadRequest
                &&& f.kind == FailureKind::RateLimit ==> c.status == "cooldown"@
                    && c.cooldown_until is Some
                &&& f.kind == FailureKind::QuotaExhausted ==> c.status == "exhausted"@
                    && c.quota_reset_at is Some
                &&& f.kind == FailureKind::AuthError ==> c.status == "disabled"@
                &&& f.kind == FailureKind::ServerError || f.kind == FailureKind::ConnectionError
                    || f.kind == FailureKind::Timeout ==> c.cooldown_until is Some && (c.status
                    == "cooldown"@ || c.status == "circuit_open"@)
                &&& c.last_error is Some
            },
        },
{
}

/// A rate-limited account rests as long as the provider asks, but never longer
/// than an hour, and for half a minute where it does not say.
pub proof fn law_rest_is_as_long_as_asked(
    f: UpstreamFailure,
    account: AccountRow,
    now: Timestamp,
)
    requires
        f.kind == FailureKind::RateLimit,
    ensures
        ({
            let until = failure_change(f, account, now)->0.cooldown_until;
            &&& f.retry_after_secs is Some && f.retry_after_secs->0 <= 3600 ==> until == Some(
                crate::clock::stored(now.later(f.retry_after_secs->0 as int)),
            )
            &&& f.retry_after_secs is Some && f.retry_after_secs->0 > 3600 ==> until == Some(
                crate::clock::stored(now.later(3600)),
            )
            &&& f.retry_after_secs is None ==> until == Some(crate::clock::stored(now.later(30)))
        }),
{
}

/// A spent quota returns when the provider says, and else after a window of the
/// account's kind.
pub proof fn law_quota_rests_for_its_window(
    f: UpstreamFailure,
    account: AccountRow,
    now: Timestamp,
)
    requires
        f.kind == FailureKind::QuotaExhausted,
    ensures
        ({
            let reset = failure_change(f, account, now)->0.quota_reset_at;
            &&& f.quota_reset_at matches Some(at) ==> reset == Some(crate::clock::stored(at))
            &&& f.quota_reset_at is None && account.quota_type@ == "rolling"@ ==> (
            account.quota_window_s matches Some(w) ==> reset == Some(
                crate::clock::stored(now.later(w as int)),
            ))
            &&& f.quota_reset_at is None && account.quota_type@ == "daily"@ ==> reset == Some(
                crate::clock::stored(now.later(86_400)),
            )
            &&& f.quota_reset_at is None && account.quota_type@ == "monthly"@ ==> reset == Some(
                crate::clock::stored(now.later(30 * 86_400int)),
            )
        }),
{
    reveal_strlit("rolling");
    reveal_strlit("daily");
    reveal_strlit("monthly");
    assert("rolling"@.len() == 7 && "daily"@.len() == 5 && "monthly"@[0] == 'm' && "rolling"@[0]
        == 'r');
}

/// The answer says how many targets failed before: one less than were sent the
/// request, and the one that answers is the last of them.
pub proof fn law_hops_are_counted(plan: Plan, t: Trail, now: Timestamp)
    requires
        t.wf(plan),
        t.phase == Phase::Sent,
    ensures
        next(plan, t, Event::Accepted, now).1 matches Move::Respond { target, hops, .. } && hops + 1
            == t.tried.len() && target == t.tried.last(),
{
}

/// State that only one provider understands stays with it: what is sent to a
/// provider that was not tried before is stripped exactly where the policy says
/// so, and is not sent at all where the policy rejects it.
pub proof fn law_state_stays_with_its_provider(plan: Plan, t: Trail, now: Timestamp)
    requires
        t.wf(plan),
        t.phase == Phase::Credential,
    ensures
        ({
            let here = plan.targets@[t.at].provider.id@;
            let abroad = exists|i: int|
                0 <= i < t.tried.len() && plan.targets@[(#[trigger] t.tried[i]) as int].provider.id@
                    != here;
            let m = next(plan, t, Event::CredentialReady(None), now).1;
            &&& !abroad ==> m == (Move::Send { target: t.at, strip: false })
            &&& plan.route is None ==> m == (Move::Send { target: t.at, strip: false })
            &&& abroad && plan.route is Some ==> {
                let policy = plan.route->0.continuity_policy@;
                &&& policy == "strip"@ || policy == "convert"@ || policy == "strip_with_warning"@
                    ==> m == (Move::Send { target: t.at, strip: true })
                &&& policy == "reject"@ && plan.opaque ==> !(m is Send)
                &&& policy == "reject"@ && !plan.opaque ==> m == (Move::Send {
                    target: t.at,
                    strip: false,
                })
            }
        }),
{
    reveal_strlit("");
    reveal_strlit("reject");
    reveal_strlit("strip");
    reveal_strlit("convert");
    reveal_strlit("strip_with_warning");
    assert("reject"@[0] == 'r' && "strip"@[0] == 's' && "convert"@[0] == 'c'
        && "strip_with_warning"@[0] == 's');
    assert(""@.len() == 0 && "reject"@.len() == 6 && "strip"@.len() == 5 && "convert"@.len() == 7
        && "strip_with_warning"@.len() == 18);
    let here = plan.targets@[t.at].provider.id@;
    let abroad = exists|i: int|
        0 <= i < t.tried.len() && plan.targets@[(#[trigger] t.tried[i]) as int].provider.id@ != here;
    assert(abroad == crosses(plan, t));
    lemma_advance_wf_at(plan, t, now);
}

proof fn lemma_advance_wf_at(plan: Plan, t: Trail, now: Timestamp)
    requires
        t.wf(plan),
        t.phase == Phase::Credential,
    ensures
        !(advance(
            plan,
            onward(noted(t, plan.targets@[t.at].account.label@ + ":not_portable"@)),
            now,
        ).1 is Send),
{
    lemma_advance_wf(
        plan,
        onward(noted(t, plan.targets@[t.at].account.label@ + ":not_portable"@)),
        now,
    );
}

/// A request that the parameters rule out is told so, and no other target is
/// asked.
pub proof fn law_rejected_parameters_are_final(
    plan: Plan,
    t: Trail,
    e: ProxyError,
    now: Timestamp,
)
    requires
        t.wf(plan),
        t.phase == Phase::Credential,
        !plan.opaque,
    ensures
        next(plan, t, Event::CredentialReady(Some(e)), now).1 == Move::Fail(e@),
{
}

/// An account is passed over for its spend only where that is known and has
/// reached a limit above zero; it is then exhausted, not sent anything.
pub proof fn law_soft_quota_passes_over(plan: Plan, t: Trail, spent: Option<Dollars>, now: Timestamp)
    requires
        t.wf(plan),
        t.phase == Phase::Spend,
    ensures
        ({
            let limit = plan.targets@[t.at].account.soft_quota_usd;
            let m = next(plan, t, Event::Spend(spent), now).1;
            &&& spent is None || limit is None ==> m == (Move::AskCredential { target: t.at })
            &&& m is Store ==> (m matches Move::Store { target, change, .. } && target == t.at
                && change is Some && change->0.status == "exhausted"@)
            &&& m is Store || m is AskCredential
            &&& spent is Some && limit is Some && crate::number::double_positive(limit->0.bits)
                ==> (m is Store <==> crate::number::double_at_least(spent->0.bits, limit->0.bits))
        }),
{
}

/// What a client is told of a failure: a hit limit comes as one, with the time to
/// wait that the provider told; a request at fault comes as one; anything else is
/// the upstream's. What a provider says of a credential is never passed on.
pub proof fn law_clients_are_told_whose_fault(
    f: UpstreamFailure,
    other: UpstreamFailure,
    provider_name: Seq<char>,
)
    requires
        other.kind == f.kind,
    ensures
        ({
            let e = failure_fault(f, provider_name);
            &&& f.kind == FailureKind::RateLimit || f.kind == FailureKind::QuotaExhausted ==> e.kind
                == ErrorKind::RateLimited && e.retry_after_secs == f.retry_after_secs
            &&& f.kind == FailureKind::BadRequest ==> e.kind == ErrorKind::BadRequest
            &&& f.kind == FailureKind::ServerError || f.kind == FailureKind::ConnectionError
                || f.kind == FailureKind::Timeout || f.kind == FailureKind::AuthError ==> e.kind
                == ErrorKind::Upstream
            &&& f.kind == FailureKind::AuthError || f.kind == FailureKind::Timeout ==> failure_fault(
                other,
                provider_name,
            ) == e
            &&& f.kind != FailureKind::AuthError && f.kind != FailureKind::Timeout ==> e.message
                == f.message@
        }),
{
}

/// A client that is sent away because every target is out of service is told to
/// wait at least a second, where it is known when one comes back.
pub proof fn law_waits_are_at_least_a_second(plan: Plan, t: Trail, now: Timestamp)
    requires
        soonest_of(accounts_of(plan.targets@.take(t.at))) matches Some(at) ==> seconds_apart(
            at.secs as int,
            at.nanos as int,
            now.secs as int,
            now.nanos as int,
        ) <= i64::MAX,
    ensures
        unavailable(plan, t, now).kind == ErrorKind::AllUnavailable,
        unavailable(plan, t, now).retry_after_secs matches Some(s) ==> s >= 1,
        unavailable(plan, t, now).retry_after_secs is None <==> soonest_of(
            accounts_of(plan.targets@.take(t.at)),
        ) is None,
{
}

} // verus!
