//! Per-key limits and budgets.
//!
//! The check runs in steps. Each step refuses the request, grants it, or names
//! the number from the store that the next step needs. A number that the store
//! could not give is passed as `None`: the check then goes on, so that a brief
//! outage of the store fails no request that can be served.

use crate::clock::{
    stored, to_rfc3339, window_start_at, window_start_of, Timestamp, MIN_SECS,
};
use crate::pool::{has_limit, limits_spend, reaches, spend_reaches, time_of};
use crate::text::{
    begins_with, contains_part, law_parts_occur, same, signed_decimal, signed_text,
};
use crate::types::{fault, Dollars, ErrorKind, Fault, ProxyError, VirtualKeyRow};
use vstd::prelude::*;

verus! {

/// Per-key limits and budgets.
pub struct KeyLimits;

/// What follows a step of the check. A number that is needed is one since a time,
/// written as it is stored.
#[derive(Debug)]
pub enum LimitStep {
    /// The requests and tokens of the key in the last sixty seconds are needed.
    NeedUsage { since: String },
    /// The spend of the key in this UTC day is needed.
    NeedDailySpend { since: String },
    /// The spend of the key in this UTC month is needed.
    NeedMonthlySpend { since: String },
    /// No limit is hit.
    Granted,
    /// A limit is hit.
    Refused(ProxyError),
}

/// What a `LimitStep` says.
pub enum LimitMove {
    NeedUsage { since: Seq<char> },
    NeedDailySpend { since: Seq<char> },
    NeedMonthlySpend { since: Seq<char> },
    Granted,
    Refused(Fault),
}

impl View for LimitStep {
    type V = LimitMove;

    open spec fn view(&self) -> LimitMove {
        match *self {
            LimitStep::NeedUsage { since } => LimitMove::NeedUsage { since: since@ },
            LimitStep::NeedDailySpend { since } => LimitMove::NeedDailySpend { since: since@ },
            LimitStep::NeedMonthlySpend { since } => LimitMove::NeedMonthlySpend { since: since@ },
            LimitStep::Granted => LimitMove::Granted,
            LimitStep::Refused(e) => LimitMove::Refused(e@),
        }
    }
}

/// Whether a time is one that a clock shows, with a day before it.
pub open spec fn has_day_before(now: Timestamp) -> bool {
    now.plain() && MIN_SECS + 86_400 <= now.secs
}

/// What a key spent, with the spend and the budget as they are shown.
pub struct SpendReport {
    pub spent: Dollars,
    pub spent_text: String,
    pub budget_text: String,
}

/// Whether a key has expired.
pub open spec fn has_expired(key: VirtualKeyRow, now: Timestamp) -> bool {
    time_of(key.expires_at) matches Some(t) && t.at_most(now)
}

/// Why a key may not be used for a model at all: the first of its status, its
/// expiry and the model that forbids it.
pub open spec fn key_fault(
    key: VirtualKeyRow,
    requested_model: Seq<char>,
    permitted: bool,
    now: Timestamp,
) -> Option<Fault> {
    if key.status@ == "revoked"@ {
        Some(fault(ErrorKind::Unauthorized, "this virtual key has been revoked"@, None))
    } else if key.status@ == "disabled"@ {
        Some(fault(ErrorKind::Forbidden, "this virtual key is disabled"@, None))
    } else if has_expired(key, now) {
        Some(
            fault(
                ErrorKind::Unauthorized,
                "this virtual key expired on "@ + stored(time_of(key.expires_at)->0),
                None,
            ),
        )
    } else if !permitted {
        Some(
            fault(
                ErrorKind::Forbidden,
                "this key is not allowed to use model '"@ + requested_model + "'"@,
                None,
            ),
        )
    } else {
        None
    }
}

/// Whether an allow-list holds a model, or any model.
pub open spec fn holds_model(allowed: Seq<String>, model: Seq<char>) -> bool {
    exists|i: int|
        0 <= i < allowed.len() && ((#[trigger] allowed[i])@ == "*"@ || allowed[i]@ == model)
}

/// Whether a key's allow-list permits a model: it names it, or any.
pub fn permits_model(allowed: &Vec<String>, model: &str) -> (r: bool)
    ensures
        r == holds_model(allowed@, model@),
{
    let mut i: usize = 0;
    while i < allowed.len()
        invariant
            i <= allowed@.len(),
            forall|k: int|
                0 <= k < i ==> (#[trigger] allowed@[k])@ != "*"@ && allowed@[k]@ != model@,
        decreases allowed@.len() - i,
    {
        if same(allowed[i].as_str(), "*") || same(allowed[i].as_str(), model) {
            return true;
        }
        i = i + 1;
    }
    false
}

/// What an optional error says.
pub open spec fn error_view(e: Option<ProxyError>) -> Option<Fault> {
    match e {
        Some(e) => Some(e@),
        None => None,
    }
}

fn check_key(key: &VirtualKeyRow, requested_model: &str, permitted: bool, now: Timestamp) -> (r:
    Option<ProxyError>)
    ensures
        error_view(r) == key_fault(*key, requested_model@, permitted, now),
{
    if same(key.status.as_str(), "revoked") {
        return Some(
            ProxyError::new(ErrorKind::Unauthorized, "this virtual key has been revoked".to_owned()),
        );
    }
    if same(key.status.as_str(), "disabled") {
        return Some(
            ProxyError::new(ErrorKind::Forbidden, "this virtual key is disabled".to_owned()),
        );
    }
    let expiry = match &key.expires_at {
        Some(s) => crate::clock::parse_dt(s.as_str()),
        None => None,
    };
    if let Some(t) = expiry {
        if t.not_after(now) {
            let mut s = "this virtual key expired on ".to_owned();
            s.append(to_rfc3339(t).as_str());
            return Some(ProxyError::new(ErrorKind::Unauthorized, s));
        }
    }
    if !permitted {
        let mut s = "this key is not allowed to use model '".to_owned();
        s.append(requested_model);
        s.append("'");
        return Some(ProxyError::new(ErrorKind::Forbidden, s));
    }
    None
}

/// Checks the key's status, its expiry and the requested model, in this order.
/// `permitted` says whether the key's allow-list holds the model.
pub fn begin(key: &VirtualKeyRow, requested_model: &str, permitted: bool, now: Timestamp) -> (r:
    LimitStep)
    requires
        has_day_before(now),
    ensures
        r@ == (match key_fault(*key, requested_model@, permitted, now) {
            Some(f) => LimitMove::Refused(f),
            None => LimitMove::NeedUsage { since: stored(now.later(-60)) },
        }),
{
    match check_key(key, requested_model, permitted, now) {
        Some(e) => LimitStep::Refused(e),
        None => LimitStep::NeedUsage { since: to_rfc3339(now.plus(-60)) },
    }
}

/// Whether a count has reached a limit: one that is not above zero limits
/// nothing.
pub open spec fn count_reaches(limit: Option<i64>, count: i64) -> bool {
    limit matches Some(l) && l > 0 && count >= l
}

/// The step that asks for the first spend that is limited, from the daily
/// budget on.
pub open spec fn budget_step(key: VirtualKeyRow, now: Timestamp) -> LimitMove {
    if limits_spend(key.daily_budget) {
        LimitMove::NeedDailySpend { since: stored(window_start_of("daily"@, None, now)) }
    } else {
        monthly_step(key, now)
    }
}

/// The step that asks for the monthly spend where it is limited.
pub open spec fn monthly_step(key: VirtualKeyRow, now: Timestamp) -> LimitMove {
    if limits_spend(key.monthly_budget) {
        LimitMove::NeedMonthlySpend { since: stored(window_start_of("monthly"@, None, now)) }
    } else {
        LimitMove::Granted
    }
}

fn next_monthly(key: &VirtualKeyRow, now: Timestamp) -> (r: LimitStep)
    requires
        has_day_before(now),
    ensures
        r@ == monthly_step(*key, now),
{
    if has_limit(key.monthly_budget) {
        LimitStep::NeedMonthlySpend { since: to_rfc3339(window_start_at("monthly", None, now)) }
    } else {
        LimitStep::Granted
    }
}

/// Why the usage of the last minute forbids a request: the first of the requests
/// and the tokens that reach their limit.
pub open spec fn usage_fault(key: VirtualKeyRow, usage: Option<(i64, i64)>) -> Option<Fault> {
    if usage matches Some((count, _)) && count_reaches(key.rpm_limit, count) {
        Some(
            fault(
                ErrorKind::RateLimited,
                "rate limit exceeded: "@ + signed_decimal(key.rpm_limit->0 as int)
                    + " requests per minute"@,
                Some(60),
            ),
        )
    } else if usage matches Some((_, tokens)) && count_reaches(key.tpm_limit, tokens) {
        Some(
            fault(
                ErrorKind::RateLimited,
                "token rate limit exceeded: "@ + signed_decimal(key.tpm_limit->0 as int)
                    + " tokens per minute"@,
                Some(60),
            ),
        )
    } else {
        None
    }
}

fn check_usage(key: &VirtualKeyRow, usage: Option<(i64, i64)>) -> (r: Option<ProxyError>)
    ensures
        error_view(r) == usage_fault(*key, usage),
{
    if let Some((count, tokens)) = usage {
        if let Some(rpm) = key.rpm_limit {
            if rpm > 0 && count >= rpm {
                let mut s = "rate limit exceeded: ".to_owned();
                s.append(signed_text(rpm).as_str());
                s.append(" requests per minute");
                return Some(ProxyError::with_retry(ErrorKind::RateLimited, s, Some(60)));
            }
        }
        if let Some(tpm) = key.tpm_limit {
            if tpm > 0 && tokens >= tpm {
                let mut s = "token rate limit exceeded: ".to_owned();
                s.append(signed_text(tpm).as_str());
                s.append(" tokens per minute");
                return Some(ProxyError::with_retry(ErrorKind::RateLimited, s, Some(60)));
            }
        }
    }
    None
}

/// Checks the requests per minute, then the tokens per minute, against what the
/// key used in the last sixty seconds.
pub fn after_usage(key: &VirtualKeyRow, usage: Option<(i64, i64)>, now: Timestamp) -> (r: LimitStep)
    requires
        has_day_before(now),
    ensures
        r@ == (match usage_fault(*key, usage) {
            Some(f) => LimitMove::Refused(f),
            None => budget_step(*key, now),
        }),
{
    if let Some(e) = check_usage(key, usage) {
        return LimitStep::Refused(e);
    }
    if has_limit(key.daily_budget) {
        LimitStep::NeedDailySpend { since: to_rfc3339(window_start_at("daily", None, now)) }
    } else {
        next_monthly(key, now)
    }
}

/// What a client is told of a budget that is used up.
pub open spec fn budget_text(period: Seq<char>, report: SpendReport, reset: Seq<char>) -> Seq<char> {
    period + " budget exceeded ($"@ + report.spent_text@ + " of $"@ + report.budget_text@ + "); "@
        + reset
}

fn budget_message(period: &str, report: &SpendReport, reset: &str) -> (r: String)
    ensures
        r@ == budget_text(period@, *report, reset@),
{
    let mut s = period.to_owned();
    s.append(" budget exceeded ($");
    s.append(report.spent_text.as_str());
    s.append(" of $");
    s.append(report.budget_text.as_str());
    s.append("); ");
    s.append(reset);
    s
}

/// Why the spend of the day forbids a request.
pub open spec fn daily_fault(key: VirtualKeyRow, report: Option<SpendReport>) -> Option<Fault> {
    if report matches Some(p) && spend_reaches(key.daily_budget, p.spent) {
        Some(
            fault(
                ErrorKind::BudgetExceeded,
                budget_text("daily"@, report->0, "resets at 00:00 UTC"@),
                None,
            ),
        )
    } else {
        None
    }
}

/// Why the spend of the month forbids a request.
pub open spec fn monthly_fault(key: VirtualKeyRow, report: Option<SpendReport>) -> Option<Fault> {
    if report matches Some(p) && spend_reaches(key.monthly_budget, p.spent) {
        Some(
            fault(
                ErrorKind::BudgetExceeded,
                budget_text("monthly"@, report->0, "resets on the 1st"@),
                None,
            ),
        )
    } else {
        None
    }
}

fn check_daily(key: &VirtualKeyRow, report: Option<SpendReport>) -> (r: Option<ProxyError>)
    ensures
        error_view(r) == daily_fault(*key, report),
{
    if let Some(p) = report {
        if reaches(key.daily_budget, p.spent) {
            return Some(
                ProxyError::new(
                    ErrorKind::BudgetExceeded,
                    budget_message("daily", &p, "resets at 00:00 UTC"),
                ),
            );
        }
    }
    None
}

fn check_monthly(key: &VirtualKeyRow, report: Option<SpendReport>) -> (r: Option<ProxyError>)
    ensures
        error_view(r) == monthly_fault(*key, report),
{
    if let Some(p) = report {
        if reaches(key.monthly_budget, p.spent) {
            return Some(
                ProxyError::new(
                    ErrorKind::BudgetExceeded,
                    budget_message("monthly", &p, "resets on the 1st"),
                ),
            );
        }
    }
    None
}

/// Checks the daily budget against what the key spent in this UTC day.
pub fn after_daily_spend(key: &VirtualKeyRow, report: Option<SpendReport>, now: Timestamp) -> (r:
    LimitStep)
    requires
        has_day_before(now),
    ensures
        r@ == (match daily_fault(*key, report) {
            Some(f) => LimitMove::Refused(f),
            None => monthly_step(*key, now),
        }),
{
    match check_daily(key, report) {
        Some(e) => LimitStep::Refused(e),
        None => next_monthly(key, now),
    }
}

/// Checks the monthly budget against what the key spent in this UTC month.
pub fn after_monthly_spend(key: &VirtualKeyRow, report: Option<SpendReport>) -> (r: LimitStep)
    ensures
        r@ == (match monthly_fault(*key, report) {
            Some(f) => LimitMove::Refused(f),
            None => LimitMove::Granted,
        }),
{
    match check_monthly(key, report) {
        Some(e) => LimitStep::Refused(e),
        None => LimitStep::Granted,
    }
}

/// Whether a key may be used at all for a model.
pub open spec fn usable(key: VirtualKeyRow, permitted: bool, now: Timestamp) -> bool {
    key.status@ != "revoked"@ && key.status@ != "disabled"@ && !has_expired(key, now) && permitted
}

/// Whether no limit of a key is hit, on what the store told.
pub open spec fn grants(
    key: VirtualKeyRow,
    permitted: bool,
    now: Timestamp,
    usage: Option<(i64, i64)>,
    daily: Option<SpendReport>,
    monthly: Option<SpendReport>,
) -> bool {
    &&& usable(key, permitted, now)
    &&& !(usage matches Some((count, _)) && count_reaches(key.rpm_limit, count))
    &&& !(usage matches Some((_, tokens)) && count_reaches(key.tpm_limit, tokens))
    &&& !(daily matches Some(p) && spend_reaches(key.daily_budget, p.spent))
    &&& !(monthly matches Some(p) && spend_reaches(key.monthly_budget, p.spent))
}

/// The error of the first check that fails, in their order: the key itself, the
/// requests and the tokens of the last minute, the spend of the day, and that of
/// the month. `None` where none fails.
pub open spec fn refusal(
    key: VirtualKeyRow,
    requested_model: Seq<char>,
    permitted: bool,
    now: Timestamp,
    usage: Option<(i64, i64)>,
    daily: Option<SpendReport>,
    monthly: Option<SpendReport>,
) -> Option<Fault> {
    if key_fault(key, requested_model, permitted, now) is Some {
        key_fault(key, requested_model, permitted, now)
    } else if usage_fault(key, usage) is Some {
        usage_fault(key, usage)
    } else if daily_fault(key, daily) is Some {
        daily_fault(key, daily)
    } else {
        monthly_fault(key, monthly)
    }
}

/// Checks all per-key limits in their order, on what the store told: the
/// requests and tokens of the last minute, and the spends of the day and of the
/// month. A number that is not limited, or that the store could not give, is
/// `None`. The first check that fails gives the error.
pub fn enforce(
    key: &VirtualKeyRow,
    requested_model: &str,
    permitted: bool,
    now: Timestamp,
    usage: Option<(i64, i64)>,
    daily: Option<SpendReport>,
    monthly: Option<SpendReport>,
) -> (r: Result<(), ProxyError>)
    ensures
        r is Ok == grants(*key, permitted, now, usage, daily, monthly),
        match refusal(*key, requested_model@, permitted, now, usage, daily, monthly) {
            Some(f) => r matches Err(e) && e@ == f,
            None => r is Ok,
        },
{
    if let Some(e) = check_key(key, requested_model, permitted, now) {
        return Err(e);
    }
    if let Some(e) = check_usage(key, usage) {
        return Err(e);
    }
    if let Some(e) = check_daily(key, daily) {
        return Err(e);
    }
    match check_monthly(key, monthly) {
        Some(e) => Err(e),
        None => Ok(()),
    }
}

/// Only the numbers that the steps ask for decide: a spend that is not limited is
/// not asked for and changes nothing.
pub proof fn law_only_asked_numbers_decide(
    key: VirtualKeyRow,
    requested_model: Seq<char>,
    permitted: bool,
    now: Timestamp,
    usage: Option<(i64, i64)>,
    daily: Option<SpendReport>,
    monthly: Option<SpendReport>,
)
    ensures
        ({
            let asked_daily = limits_spend(key.daily_budget);
            let asked_monthly = limits_spend(key.monthly_budget);
            refusal(key, requested_model, permitted, now, usage, daily, monthly) == refusal(
                key,
                requested_model,
                permitted,
                now,
                usage,
                if asked_daily {
                    daily
                } else {
                    None
                },
                if asked_monthly {
                    monthly
                } else {
                    None
                },
            )
        }),
        budget_step(key, now) is NeedDailySpend == limits_spend(key.daily_budget),
        monthly_step(key, now) is NeedMonthlySpend == limits_spend(key.monthly_budget),
{
}

/// A number that the store cannot give never costs a request: what is granted
/// with the numbers is granted without them, and without any a key that may be
/// used at all is granted.
pub proof fn law_limits_fail_open(
    key: VirtualKeyRow,
    permitted: bool,
    now: Timestamp,
    usage: Option<(i64, i64)>,
    daily: Option<SpendReport>,
    monthly: Option<SpendReport>,
)
    ensures
        grants(key, permitted, now, usage, daily, monthly) ==> grants(
            key,
            permitted,
            now,
            None,
            daily,
            monthly,
        ) && grants(key, permitted, now, usage, None, monthly) && grants(
            key,
            permitted,
            now,
            usage,
            daily,
            None,
        ),
        grants(key, permitted, now, None, None, None) == usable(key, permitted, now),
{
}

/// A key's own state decides first: a revoked, disabled or expired key is refused,
/// and a usable one may use the models it is permitted.
pub proof fn law_unusable_keys_are_refused(
    key: VirtualKeyRow,
    model: Seq<char>,
    permitted: bool,
    now: Timestamp,
)
    ensures
        ({
            let f = key_fault(key, model, permitted, now);
            &&& f is Some <==> key.status@ == "revoked"@ || key.status@ == "disabled"@ || (time_of(
                key.expires_at,
            ) is Some && time_of(key.expires_at)->0.at_most(now)) || !permitted
            &&& key.status@ == "revoked"@ ==> f->0.kind == ErrorKind::Unauthorized
            &&& key.status@ == "disabled"@ ==> f->0.kind == ErrorKind::Forbidden
            &&& f is Some && key.status@ != "revoked"@ && key.status@ != "disabled"@ && permitted
                ==> f->0.kind == ErrorKind::Unauthorized
            &&& f is Some && key.status@ != "revoked"@ && key.status@ != "disabled"@
                && key.expires_at is None ==> f->0.kind == ErrorKind::Forbidden
        }),
{
    reveal_strlit("revoked");
    reveal_strlit("disabled");
    assert("revoked"@[0] == 'r' && "disabled"@[0] == 'd');
}

/// A key expires at its time and stays expired; before that time it has not.
pub proof fn law_keys_expire_on_time(
    key: VirtualKeyRow,
    at: Timestamp,
    now: Timestamp,
    then: Timestamp,
)
    ensures
        time_of(key.expires_at) == Some(at) && now.secs < at.secs ==> !has_expired(key, now),
        time_of(key.expires_at) == Some(at) && at.secs < now.secs ==> has_expired(key, now),
        time_of(key.expires_at) == Some(now) ==> has_expired(key, now),
        key.expires_at is None ==> !has_expired(key, now),
        has_expired(key, now) && now.at_most(then) ==> has_expired(key, then),
{
}

/// A key may use the models it lists, all of them where it lists `*`, and none
/// where it lists nothing; each further entry only permits more.
pub proof fn law_listed_models_are_permitted(
    allowed: Seq<String>,
    i: int,
    model: Seq<char>,
    more: Seq<String>,
)
    ensures
        0 <= i < allowed.len() && (allowed[i]@ == model || allowed[i]@ == "*"@) ==> holds_model(
            allowed,
            model,
        ),
        (forall|k: int|
            0 <= k < allowed.len() ==> (#[trigger] allowed[k])@ != model && allowed[k]@ != "*"@)
            ==> !holds_model(allowed, model),
        allowed.len() == 0 ==> !holds_model(allowed, model),
        holds_model(allowed, model) ==> holds_model(allowed + more, model),
{
    if holds_model(allowed, model) {
        let k = choose|k: int|
            0 <= k < allowed.len() && ((#[trigger] allowed[k])@ == "*"@ || allowed[k]@ == model);
        assert((allowed + more)[k] == allowed[k]);
    }
}

/// A limit on requests or tokens is reached from the limit on, for each of the
/// two on its own; a limit of zero or less is none. Whoever is refused may ask
/// again in a minute.
pub proof fn law_minute_limits(key: VirtualKeyRow, count: i64, tokens: i64)
    ensures
        ({
            let f = usage_fault(key, Some((count, tokens)));
            &&& f is Some <==> (key.rpm_limit is Some && 0 < key.rpm_limit->0 <= count) || (
            key.tpm_limit is Some && 0 < key.tpm_limit->0 <= tokens)
            &&& f is Some ==> f->0.kind == ErrorKind::RateLimited && f->0.retry_after_secs
                == Some(60u64)
        }),
        usage_fault(key, None) is None,
{
}

/// A budget that is spent refuses, each period on its own and as a budget; one
/// that is not spent, or not known, does not.
pub proof fn law_budgets_refuse_once_spent(key: VirtualKeyRow, report: SpendReport)
    ensures
        daily_fault(key, Some(report)) is Some <==> spend_reaches(key.daily_budget, report.spent),
        monthly_fault(key, Some(report)) is Some <==> spend_reaches(
            key.monthly_budget,
            report.spent,
        ),
        daily_fault(key, Some(report)) is Some ==> daily_fault(key, Some(report))->0.kind
            == ErrorKind::BudgetExceeded,
        monthly_fault(key, Some(report)) is Some ==> monthly_fault(key, Some(report))->0.kind
            == ErrorKind::BudgetExceeded,
        daily_fault(key, None) is None,
        monthly_fault(key, None) is None,
{
}

/// What a key spends is counted from the beginning of its period: the day for the
/// daily budget, the month for the monthly one.
pub proof fn law_budgets_have_their_periods(key: VirtualKeyRow, now: Timestamp)
    ensures
        limits_spend(key.daily_budget) ==> budget_step(key, now) == (LimitMove::NeedDailySpend {
            since: stored(now.midnight()),
        }),
        !limits_spend(key.daily_budget) ==> budget_step(key, now) == monthly_step(key, now),
        limits_spend(key.monthly_budget) ==> monthly_step(key, now) == (
        LimitMove::NeedMonthlySpend { since: stored(window_start_of("monthly"@, None, now)) }),
        !limits_spend(key.monthly_budget) ==> monthly_step(key, now) == LimitMove::Granted,
{
}

/// A request is granted exactly where nothing refuses it, and a refusal stays one
/// with more used or more spent.
pub proof fn law_refusals_last(
    key: VirtualKeyRow,
    model: Seq<char>,
    permitted: bool,
    now: Timestamp,
    count: i64,
    tokens: i64,
    daily: Option<SpendReport>,
    monthly: Option<SpendReport>,
    more: i64,
    more_tokens: i64,
)
    requires
        count <= more,
        tokens <= more_tokens,
    ensures
        grants(key, permitted, now, Some((count, tokens)), daily, monthly) <==> refusal(
            key,
            model,
            permitted,
            now,
            Some((count, tokens)),
            daily,
            monthly,
        ) is None,
        grants(key, permitted, now, Some((more, more_tokens)), daily, monthly) ==> grants(
            key,
            permitted,
            now,
            Some((count, tokens)),
            daily,
            monthly,
        ),
        !permitted ==> !grants(key, permitted, now, Some((count, tokens)), daily, monthly),
{
}

/// A refusal for a budget names its period, what was spent and what there was to
/// spend.
pub proof fn law_budget_refusals_name_their_period(key: VirtualKeyRow, report: SpendReport)
    ensures
        daily_fault(key, Some(report)) matches Some(f) ==> begins_with(f.message, "daily"@),
        monthly_fault(key, Some(report)) matches Some(f) ==> begins_with(f.message, "monthly"@),
        daily_fault(key, Some(report)) matches Some(f) ==> contains_part(
            f.message,
            "$"@ + report.spent_text@ + " of $"@ + report.budget_text@,
        ),
        monthly_fault(key, Some(report)) matches Some(f) ==> contains_part(
            f.message,
            "$"@ + report.spent_text@ + " of $"@ + report.budget_text@,
        ),
{
    lemma_budget_text("daily"@, report, "resets at 00:00 UTC"@);
    lemma_budget_text("monthly"@, report, "resets on the 1st"@);
}

proof fn lemma_budget_text(period: Seq<char>, report: SpendReport, reset: Seq<char>)
    ensures
        begins_with(budget_text(period, report, reset), period),
        contains_part(
            budget_text(period, report, reset),
            "$"@ + report.spent_text@ + " of $"@ + report.budget_text@,
        ),
{
    let s = budget_text(period, report, reset);
    let numbers = "$"@ + report.spent_text@ + " of $"@ + report.budget_text@;
    reveal_strlit(" budget exceeded ($");
    reveal_strlit(" budget exceeded (");
    reveal_strlit("$");
    assert(" budget exceeded ($"@ =~= " budget exceeded ("@ + "$"@);
    assert(s.take(period.len() as int) =~= period);
    assert(s =~= (period + " budget exceeded ("@) + numbers + ("); "@ + reset));
    law_parts_occur(period + " budget exceeded ("@, numbers, "); "@ + reset);
}

} // verus!
