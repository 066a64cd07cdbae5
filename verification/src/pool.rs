//! Health of the accounts in a provider's pool.
//!
//! Selection is health-aware: an account that is disabled, cooling down or out
//! of quota is skipped. A change of state is handed out to be stored, so that it
//! survives a restart.

use crate::clock::{
    now, parse_dt, stored, time_in, to_rfc3339, window_start_at, window_start_of, Timestamp,
    MAX_SECS, MIN_SECS,
};
use crate::crypto::{redact, redacted};
use crate::text::same;
use crate::number::{
    at_least, double_at_least, double_below, double_positive, is_positive, law_doubles_are_ordered,
};
use crate::types::{copy_text, text_in, AccountRow, Dollars};
use vstd::prelude::*;

verus! {

/// The health of an account.
#[derive(Debug, Clone, Copy, PartialEq, Eq, Structural)]
pub enum AccountStatus {
    Healthy,
    Cooldown,
    Exhausted,
    Disabled,
    /// It failed repeatedly, and is only probed.
    CircuitOpen,
}

/// The status that a stored text stands for. Any other text is healthy.
pub open spec fn status_of(s: Seq<char>) -> AccountStatus {
    if s == "cooldown"@ {
        AccountStatus::Cooldown
    } else if s == "exhausted"@ {
        AccountStatus::Exhausted
    } else if s == "disabled"@ {
        AccountStatus::Disabled
    } else if s == "circuit_open"@ {
        AccountStatus::CircuitOpen
    } else {
        AccountStatus::Healthy
    }
}

/// A status as it is stored.
pub open spec fn status_text(s: AccountStatus) -> Seq<char> {
    match s {
        AccountStatus::Healthy => "healthy"@,
        AccountStatus::Cooldown => "cooldown"@,
        AccountStatus::Exhausted => "exhausted"@,
        AccountStatus::Disabled => "disabled"@,
        AccountStatus::CircuitOpen => "circuit_open"@,
    }
}

impl AccountStatus {
    pub fn parse(s: &str) -> (r: Self)
        ensures
            r == status_of(s@),
    {
        if same(s, "cooldown") {
            AccountStatus::Cooldown
        } else if same(s, "exhausted") {
            AccountStatus::Exhausted
        } else if same(s, "disabled") {
            AccountStatus::Disabled
        } else if same(s, "circuit_open") {
            AccountStatus::CircuitOpen
        } else {
            AccountStatus::Healthy
        }
    }

    pub fn as_str(&self) -> (r: &'static str)
        ensures
            r@ == status_text(*self),
    {
        match self {
            AccountStatus::Healthy => "healthy",
            AccountStatus::Cooldown => "cooldown",
            AccountStatus::Exhausted => "exhausted",
            AccountStatus::Disabled => "disabled",
            AccountStatus::CircuitOpen => "circuit_open",
        }
    }
}

/// A status is read back from its stored text.
pub proof fn law_status_round_trip(s: AccountStatus)
    ensures
        status_of(status_text(s)) == s,
{
    reveal_strlit("healthy");
    reveal_strlit("cooldown");
    reveal_strlit("exhausted");
    reveal_strlit("disabled");
    reveal_strlit("circuit_open");
    assert("healthy"@[0] == 'h' && "cooldown"@[0] == 'c' && "exhausted"@[0] == 'e' && "disabled"@[0]
        == 'd' && "circuit_open"@[0] == 'c' && "cooldown"@.len() != "circuit_open"@.len());
}

/// The time in an optional stored text.
pub open spec fn time_of(text: Option<String>) -> Option<Timestamp> {
    match text {
        Some(s) => time_in(s@),
        None => None,
    }
}

fn read_time(text: &Option<String>) -> (r: Option<Timestamp>)
    ensures
        r == time_of(*text),
        r matches Some(t) ==> t.wf(),
{
    match text {
        Some(s) => parse_dt(s.as_str()),
        None => None,
    }
}

/// The status at a time, from the stored status and the times at which a
/// cooldown and a quota window end. An elapsed cooldown or window is over; a
/// cooldown without an end is too; a quota without a reset time stays
/// exhausted. An open circuit admits a probe from its time on, and at once where
/// it has none.
pub open spec fn status_from(
    status: AccountStatus,
    cooldown: Option<Timestamp>,
    reset: Option<Timestamp>,
    now: Timestamp,
) -> AccountStatus {
    match status {
        AccountStatus::Cooldown => if cooldown matches Some(until) && !until.at_most(now) {
            AccountStatus::Cooldown
        } else {
            AccountStatus::Healthy
        },
        AccountStatus::Exhausted => if reset matches Some(at) && at.at_most(now) {
            AccountStatus::Healthy
        } else {
            AccountStatus::Exhausted
        },
        AccountStatus::CircuitOpen => if cooldown matches Some(until) && !until.at_most(now) {
            AccountStatus::CircuitOpen
        } else {
            AccountStatus::Healthy
        },
        other => other,
    }
}

/// The status of an account at a time.
pub open spec fn status_when(account: AccountRow, now: Timestamp) -> AccountStatus {
    status_from(
        status_of(account.status@),
        time_of(account.cooldown_until),
        time_of(account.quota_reset_at),
        now,
    )
}

/// The status at a time, from the stored status and the times at which a
/// cooldown and a quota window end.
pub fn decide_status(
    status: AccountStatus,
    cooldown: Option<Timestamp>,
    reset: Option<Timestamp>,
    now: Timestamp,
) -> (r: AccountStatus)
    ensures
        r == status_from(status, cooldown, reset, now),
{
    match status {
        AccountStatus::Cooldown => match cooldown {
            Some(until) => if until.not_after(now) {
                AccountStatus::Healthy
            } else {
                AccountStatus::Cooldown
            },
            None => AccountStatus::Healthy,
        },
        AccountStatus::Exhausted => match reset {
            Some(at) => if at.not_after(now) {
                AccountStatus::Healthy
            } else {
                AccountStatus::Exhausted
            },
            None => AccountStatus::Exhausted,
        },
        AccountStatus::CircuitOpen => match cooldown {
            Some(until) => if until.not_after(now) {
                AccountStatus::Healthy
            } else {
                AccountStatus::CircuitOpen
            },
            None => AccountStatus::Healthy,
        },
        other => other,
    }
}

/// The status of an account at a time.
pub fn status_at(account: &AccountRow, now: Timestamp) -> (r: AccountStatus)
    ensures
        r == status_when(*account, now),
{
    decide_status(
        AccountStatus::parse(account.status.as_str()),
        read_time(&account.cooldown_until),
        read_time(&account.quota_reset_at),
        now,
    )
}

/// The status of an account now, after elapsed cooldowns and quota windows.
pub fn effective_status(account: &AccountRow) -> (r: AccountStatus)
    ensures
        exists|now: Timestamp| now.plain() && r == #[trigger] status_when(*account, now),
{
    let t = now();
    status_at(account, t)
}

/// Whether an account can serve a request now.
pub fn is_available(account: &AccountRow) -> (r: bool)
    ensures
        exists|now: Timestamp|
            now.plain() && r == (#[trigger] status_when(*account, now) == AccountStatus::Healthy),
{
    let t = now();
    matches!(status_at(account, t), AccountStatus::Healthy)
}

/// Time only heals: an account that is healthy stays so until its stored state
/// changes.
pub proof fn law_health_lasts(account: AccountRow, now: Timestamp, then: Timestamp)
    requires
        now.at_most(then),
        status_when(account, now) == AccountStatus::Healthy,
    ensures
        status_when(account, then) == AccountStatus::Healthy,
{
}

/// What to store of an account whose state changed.
#[derive(Debug)]
pub struct StatusChange {
    pub status: String,
    pub cooldown_until: Option<String>,
    pub quota_reset_at: Option<String>,
    pub last_error: Option<String>,
    pub failures: i64,
}

/// What a `StatusChange` stores.
pub struct StoredStatus {
    pub status: Seq<char>,
    pub cooldown_until: Option<Seq<char>>,
    pub quota_reset_at: Option<Seq<char>>,
    pub last_error: Option<Seq<char>>,
    pub failures: i64,
}

impl View for StatusChange {
    type V = StoredStatus;

    open spec fn view(&self) -> StoredStatus {
        StoredStatus {
            status: self.status@,
            cooldown_until: text_in(self.cooldown_until),
            quota_reset_at: text_in(self.quota_reset_at),
            last_error: text_in(self.last_error),
            failures: self.failures,
        }
    }
}

/// The account is cooling down for so many seconds, with the error redacted.
pub open spec fn rate_limited_change(secs: int, error: Seq<char>, now: Timestamp) -> StoredStatus {
    StoredStatus {
        status: "cooldown"@,
        cooldown_until: Some(stored(now.later(secs))),
        quota_reset_at: None,
        last_error: Some(redacted(error)),
        failures: 0,
    }
}

/// Marks an account rate-limited for `cooldown_secs` seconds from `now` on.
pub fn mark_rate_limited(cooldown_secs: u64, error: &str, now: Timestamp) -> (r: (
    StatusChange,
    Timestamp,
))
    requires
        now.plain(),
        now.secs + cooldown_secs <= MAX_SECS,
    ensures
        r.0@ == rate_limited_change(cooldown_secs as int, error@, now),
        r.1 == now.later(cooldown_secs as int),
        r.1.dated() ==> time_of(r.0.cooldown_until) == Some(r.1),
{
    let until = now.plus(cooldown_secs as i64);
    (
        StatusChange {
            status: "cooldown".to_owned(),
            cooldown_until: Some(to_rfc3339(until)),
            quota_reset_at: None,
            last_error: Some(redact(error)),
            failures: 0,
        },
        until,
    )
}

/// When a quota is reset: at the time that the provider told, or after the
/// default window.
pub open spec fn reset_time(reset_at: Option<Timestamp>, window_secs: int, now: Timestamp) -> Timestamp {
    match reset_at {
        Some(t) => t,
        None => now.later(window_secs),
    }
}

/// The account is out of quota until the reset, with the error redacted.
pub open spec fn exhausted_change(reset: Timestamp, error: Seq<char>) -> StoredStatus {
    StoredStatus {
        status: "exhausted"@,
        cooldown_until: None,
        quota_reset_at: Some(stored(reset)),
        last_error: Some(redacted(error)),
        failures: 0,
    }
}

/// Marks an account out of quota until `reset_at`, or for the default window
/// from `now` on.
pub fn mark_exhausted(
    reset_at: Option<Timestamp>,
    default_window_secs: i64,
    error: &str,
    now: Timestamp,
) -> (r: (StatusChange, Timestamp))
    requires
        now.plain(),
        reset_at matches Some(t) ==> t.wf(),
        reset_at is None ==> MIN_SECS <= now.secs + default_window_secs <= MAX_SECS,
    ensures
        r.0@ == exhausted_change(reset_time(reset_at, default_window_secs as int, now), error@),
        r.1 == reset_time(reset_at, default_window_secs as int, now),
        r.1.dated() ==> time_of(r.0.quota_reset_at) == Some(r.1),
{
    let reset = match reset_at {
        Some(t) => t,
        None => now.plus(default_window_secs),
    };
    (
        StatusChange {
            status: "exhausted".to_owned(),
            cooldown_until: None,
            quota_reset_at: Some(to_rfc3339(reset)),
            last_error: Some(redact(error)),
            failures: 0,
        },
        reset,
    )
}

/// How many failures in a row open the circuit of an account.
pub const CIRCUIT_FAILURES: i64 = 5;

/// How many seconds lie between two probes of an open circuit.
pub const PROBE_SECS: i64 = 5;

/// A count of failures with one more.
pub open spec fn one_failure_more(failures: i64) -> i64 {
    if failures < 0 {
        1
    } else if failures < i64::MAX {
        (failures + 1) as i64
    } else {
        failures
    }
}

/// What is stored of an account whose upstream failed or gave no answer: a short
/// rest, or an open circuit where that happened too often in a row.
pub open spec fn failed_change(failures: i64, error: Seq<char>, now: Timestamp) -> StoredStatus {
    let n = one_failure_more(failures);
    if n >= CIRCUIT_FAILURES {
        StoredStatus {
            status: "circuit_open"@,
            cooldown_until: Some(stored(now.later(PROBE_SECS as int))),
            quota_reset_at: None,
            last_error: Some(error),
            failures: n,
        }
    } else {
        StoredStatus {
            status: "cooldown"@,
            cooldown_until: Some(stored(now.later(10))),
            quota_reset_at: None,
            last_error: Some(error),
            failures: n,
        }
    }
}

/// Marks an account whose upstream failed or gave no answer.
pub fn mark_failed(failures: i64, error: &str, now: Timestamp) -> (r: (StatusChange, Timestamp))
    requires
        now.plain(),
        now.secs + 10 <= MAX_SECS,
    ensures
        r.0@ == failed_change(failures, error@, now),
        r.1.dated() ==> time_of(r.0.cooldown_until) == Some(r.1),
        r.1 == (if one_failure_more(failures) >= CIRCUIT_FAILURES {
            now.later(PROBE_SECS as int)
        } else {
            now.later(10)
        }),
{
    let n: i64 = if failures < 0 {
        1
    } else if failures < i64::MAX {
        failures + 1
    } else {
        failures
    };
    let (status, until) = if n >= CIRCUIT_FAILURES {
        ("circuit_open".to_owned(), now.plus(PROBE_SECS))
    } else {
        ("cooldown".to_owned(), now.plus(10))
    };
    (
        StatusChange {
            status,
            cooldown_until: Some(to_rfc3339(until)),
            quota_reset_at: None,
            last_error: Some(error.to_owned()),
            failures: n,
        },
        until,
    )
}

/// What is stored of an account with an open circuit when a probe of it begins:
/// the next one has to wait.
pub open spec fn probed_change(account: AccountRow, now: Timestamp) -> StoredStatus {
    StoredStatus {
        status: "circuit_open"@,
        cooldown_until: Some(stored(now.later(PROBE_SECS as int))),
        quota_reset_at: None,
        last_error: text_in(account.last_error),
        failures: account.failures,
    }
}

/// Marks an account with an open circuit that is about to be probed.
pub fn mark_probed(account: &AccountRow, now: Timestamp) -> (r: (StatusChange, Timestamp))
    requires
        now.plain(),
        now.secs + PROBE_SECS <= MAX_SECS,
    ensures
        r.0@ == probed_change(*account, now),
        r.1 == now.later(PROBE_SECS as int),
        r.1.dated() ==> time_of(r.0.cooldown_until) == Some(r.1),
{
    let until = now.plus(PROBE_SECS);
    (
        StatusChange {
            status: "circuit_open".to_owned(),
            cooldown_until: Some(to_rfc3339(until)),
            quota_reset_at: None,
            last_error: copy_text(&account.last_error),
            failures: account.failures,
        },
        until,
    )
}

/// Whether an account is in the state that a change stored.
pub open spec fn is_in(account: AccountRow, change: StatusChange) -> bool {
    &&& account.status@ == change.status@
    &&& account.cooldown_until == change.cooldown_until
    &&& account.quota_reset_at == change.quota_reset_at
}

/// A cooldown lasts to its end and no longer: an account that was marked
/// rate-limited serves nothing before, and serves again from then on.
pub proof fn law_cooldown_ends_on_time(
    account: AccountRow,
    change: StatusChange,
    until: Timestamp,
    now: Timestamp,
)
    requires
        is_in(account, change),
        change.status@ == "cooldown"@,
        time_of(change.cooldown_until) == Some(until),
    ensures
        status_when(account, now) == (if until.at_most(now) {
            AccountStatus::Healthy
        } else {
            AccountStatus::Cooldown
        }),
{
}

/// Enough failures in a row open a circuit and fewer do not, and an open circuit
/// that fails again stays open.
pub proof fn law_repeated_failures_open_the_circuit(failures: i64, error: Seq<char>, now: Timestamp)
    ensures
        status_of(failed_change(failures, error, now).status) == (if failures + 1
            >= CIRCUIT_FAILURES {
            AccountStatus::CircuitOpen
        } else {
            AccountStatus::Cooldown
        }),
        failures + 1 >= CIRCUIT_FAILURES ==> one_failure_more(failures) + 1 >= CIRCUIT_FAILURES,
{
    law_status_round_trip(AccountStatus::CircuitOpen);
    law_status_round_trip(AccountStatus::Cooldown);
}

/// An open circuit is probed no sooner than its time, which every probe and
/// every failure puts off.
pub proof fn law_probes_are_spaced(
    account: AccountRow,
    change: StatusChange,
    until: Timestamp,
    now: Timestamp,
)
    requires
        is_in(account, change),
        change.status@ == "circuit_open"@,
        time_of(change.cooldown_until) == Some(until),
    ensures
        status_when(account, now) == (if until.at_most(now) {
            AccountStatus::Healthy
        } else {
            AccountStatus::CircuitOpen
        }),
{
    law_status_round_trip(AccountStatus::CircuitOpen);
}

/// A quota is back at its reset and not before.
pub proof fn law_quota_returns_on_time(
    account: AccountRow,
    change: StatusChange,
    reset: Timestamp,
    now: Timestamp,
)
    requires
        is_in(account, change),
        change.status@ == "exhausted"@,
        time_of(change.quota_reset_at) == Some(reset),
    ensures
        status_when(account, now) == (if reset.at_most(now) {
            AccountStatus::Healthy
        } else {
            AccountStatus::Exhausted
        }),
{
    reveal_strlit("cooldown");
    reveal_strlit("exhausted");
    assert("cooldown"@[0] == 'c' && "exhausted"@[0] == 'e');
}

/// The account is back in service.
pub open spec fn healthy_change() -> StoredStatus {
    StoredStatus {
        status: "healthy"@,
        cooldown_until: None,
        quota_reset_at: None,
        last_error: None,
        failures: 0,
    }
}

/// Puts an account back in service.
pub fn mark_healthy() -> (r: StatusChange)
    ensures
        r@ == healthy_change(),
{
    StatusChange {
        status: "healthy".to_owned(),
        cooldown_until: None,
        quota_reset_at: None,
        last_error: None,
        failures: 0,
    }
}

/// Ends a cooldown and puts the account back in service.
pub fn clear_cooldown() -> (r: StatusChange)
    ensures
        r@ == healthy_change(),
{
    mark_healthy()
}

/// Whether a limit is set: one that is not above zero limits nothing.
pub open spec fn limits_spend(limit: Option<Dollars>) -> bool {
    limit matches Some(l) && double_positive(l.bits)
}

/// Whether a spend has reached a limit.
pub open spec fn spend_reaches(limit: Option<Dollars>, spent: Dollars) -> bool {
    limits_spend(limit) && double_at_least(spent.bits, limit->0.bits)
}

/// Whether a limit is set, so that the spend matters.
pub fn has_limit(limit: Option<Dollars>) -> (r: bool)
    ensures
        r == limits_spend(limit),
{
    match limit {
        Some(l) => is_positive(l.bits),
        None => false,
    }
}

/// Whether a spend has reached a limit.
pub fn reaches(limit: Option<Dollars>, spent: Dollars) -> (r: bool)
    ensures
        r == spend_reaches(limit, spent),
{
    match limit {
        Some(l) => is_positive(l.bits) && at_least(spent.bits, l.bits),
        None => false,
    }
}

/// Whether an account's soft quota is reached by what it spent in its window.
pub fn soft_quota_reached(account: &AccountRow, spent: Dollars) -> (r: bool)
    ensures
        r == spend_reaches(account.soft_quota_usd, spent),
{
    reaches(account.soft_quota_usd, spent)
}

/// When an account that is out of service comes back, where that is known.
pub open spec fn recovery_of(account: AccountRow) -> Option<Timestamp> {
    match status_of(account.status@) {
        AccountStatus::Cooldown => time_of(account.cooldown_until),
        AccountStatus::Exhausted => time_of(account.quota_reset_at),
        AccountStatus::CircuitOpen => time_of(account.cooldown_until),
        _ => None,
    }
}

fn recovery(account: &AccountRow) -> (r: Option<Timestamp>)
    ensures
        r == recovery_of(*account),
        r matches Some(t) ==> t.wf(),
{
    match AccountStatus::parse(account.status.as_str()) {
        AccountStatus::Cooldown => read_time(&account.cooldown_until),
        AccountStatus::Exhausted => read_time(&account.quota_reset_at),
        AccountStatus::CircuitOpen => read_time(&account.cooldown_until),
        _ => None,
    }
}

/// Whether `t` is the soonest of the times at which the accounts come back.
pub open spec fn is_soonest(accounts: Seq<AccountRow>, t: Timestamp) -> bool {
    &&& exists|i: int| 0 <= i < accounts.len() && recovery_of(#[trigger] accounts[i]) == Some(t)
    &&& forall|i: int|
        0 <= i < accounts.len() && recovery_of(#[trigger] accounts[i]) is Some ==> t.at_most(
            recovery_of(accounts[i])->0,
        )
}

/// Whether no account's time of return is known.
pub open spec fn none_recovers(accounts: Seq<AccountRow>) -> bool {
    forall|i: int| 0 <= i < accounts.len() ==> recovery_of(#[trigger] accounts[i]) is None
}

/// The soonest of the times at which the accounts come back.
pub open spec fn soonest_of(accounts: Seq<AccountRow>) -> Option<Timestamp>
    decreases accounts.len(),
{
    if accounts.len() == 0 {
        None
    } else {
        let before = soonest_of(accounts.drop_last());
        match recovery_of(accounts.last()) {
            None => before,
            Some(t) => if before is None || t.at_most(before->0) {
                Some(t)
            } else {
                before
            },
        }
    }
}

/// The soonest time is the time of some account, and no account comes back
/// sooner; there is none where no account's time is known.
pub proof fn law_soonest(accounts: Seq<AccountRow>)
    ensures
        match soonest_of(accounts) {
            Some(t) => is_soonest(accounts, t),
            None => none_recovers(accounts),
        },
    decreases accounts.len(),
{
    if accounts.len() > 0 {
        let before = accounts.drop_last();
        law_soonest(before);
        assert(forall|k: int| 0 <= k < before.len() ==> before[k] == accounts[k]);
        assert(accounts[accounts.len() - 1] == accounts.last());
        if let Some(s) = soonest_of(accounts) {
            if recovery_of(accounts.last()) == Some(s) {
                assert(recovery_of(accounts[accounts.len() - 1]) == Some(s));
            } else {
                let k = choose|k: int|
                    0 <= k < before.len() && recovery_of(#[trigger] before[k]) == Some(s);
                assert(recovery_of(accounts[k]) == Some(s));
            }
            assert forall|k: int|
                0 <= k < accounts.len() && recovery_of(
                    #[trigger] accounts[k],
                ) is Some implies s.at_most(recovery_of(accounts[k])->0) by {
                if k < before.len() {
                    assert(before[k] == accounts[k]);
                }
            }
        } else {
            assert forall|k: int| 0 <= k < accounts.len() implies recovery_of(
                #[trigger] accounts[k],
            ) is None by {
                if k < before.len() {
                    assert(before[k] == accounts[k]);
                }
            }
        }
    }
}

/// The soonest time at which one of the accounts comes back.
pub fn soonest_recovery(accounts: &Vec<AccountRow>) -> (r: Option<Timestamp>)
    ensures
        r == soonest_of(accounts@),
        r matches Some(t) ==> t.wf(),
{
    let mut soonest: Option<Timestamp> = None;
    let mut i: usize = 0;
    while i < accounts.len()
        invariant
            i <= accounts@.len(),
            soonest == soonest_of(accounts@.take(i as int)),
            soonest matches Some(t) ==> t.wf(),
        decreases accounts@.len() - i,
    {
        assert(accounts@.take(i + 1).drop_last() =~= accounts@.take(i as int));
        if let Some(t) = recovery(&accounts[i]) {
            soonest = match soonest {
                Some(cur) => if t.not_after(cur) {
                    Some(t)
                } else {
                    Some(cur)
                },
                None => Some(t),
            };
        }
        i = i + 1;
    }
    assert(accounts@.take(accounts@.len() as int) =~= accounts@);
    soonest
}

/// Whether the start of a quota window that ends at `now` can be represented.
pub open spec fn window_fits(quota_type: Seq<char>, window_secs: Option<i64>, now: Timestamp) -> bool {
    &&& now.plain()
    &&& MIN_SECS + 86_400 <= now.secs
    &&& quota_type == "rolling"@ && window_secs is Some ==> MIN_SECS <= now.secs - window_secs->0
        <= MAX_SECS
}

/// The start of a quota window that ends at `now`, as it is stored; `None` where
/// it cannot be represented.
pub open spec fn window_text(quota_type: Seq<char>, window_secs: Option<i64>, now: Timestamp) -> Option<
    Seq<char>,
> {
    if window_fits(quota_type, window_secs, now) {
        Some(stored(window_start_of(quota_type, window_secs, now)))
    } else {
        None
    }
}

/// The start of a quota window that ends at `now`, as it is stored.
pub fn window_since(quota_type: &str, window_secs: Option<i64>, now: Timestamp) -> (r: Option<
    String,
>)
    ensures
        text_in(r) == window_text(quota_type@, window_secs, now),
{
    let reach: i128 = match window_secs {
        Some(w) => if same(quota_type, "rolling") {
            w as i128
        } else {
            0
        },
        None => 0,
    };
    let start: i128 = now.secs as i128 - reach;
    let fits = now.secs >= MIN_SECS + 86_400 && now.secs <= MAX_SECS && now.nanos < 1_000_000_000
        && start >= MIN_SECS as i128 && start <= MAX_SECS as i128;
    if fits {
        Some(to_rfc3339(window_start_at(quota_type, window_secs, now)))
    } else {
        None
    }
}

/// The start of a quota window that ends now, as it is stored. A rolling window
/// may lie ahead; of one that reaches beyond the times that can be represented
/// nothing is promised.
pub fn window_start(quota_type: &str, window_secs: Option<i64>) -> (r: String)
    requires
        quota_type@ == "rolling"@ && window_secs is Some ==> window_secs->0 <= -MIN_SECS,
    ensures
        exists|now: Timestamp|
            now.plain() && now.secs >= 0 && (#[trigger] window_fits(quota_type@, window_secs, now)
                ==> r@ == stored(window_start_of(quota_type@, window_secs, now))),
{
    let t = now();
    match window_since(quota_type, window_secs, t) {
        Some(s) => s,
        None => to_rfc3339(t),
    }
}

/// An account rests until its time and not longer: before that time it is in the
/// state it was put in, from that time on it is healthy; one that has no time to
/// come back at is healthy at once if it rested, and stays out if its quota was
/// used up.
pub proof fn law_rest_ends_when_it_says(
    until: Timestamp,
    cooldown: Option<Timestamp>,
    reset: Option<Timestamp>,
    now: Timestamp,
)
    ensures
        ({
            let cooling = status_from(AccountStatus::Cooldown, cooldown, reset, now);
            let open = status_from(AccountStatus::CircuitOpen, cooldown, reset, now);
            let spent = status_from(AccountStatus::Exhausted, cooldown, reset, now);
            &&& cooldown == Some(until) && now.secs < until.secs ==> cooling
                == AccountStatus::Cooldown && open == AccountStatus::CircuitOpen
            &&& cooldown == Some(until) && now.secs > until.secs ==> cooling
                == AccountStatus::Healthy && open == AccountStatus::Healthy
            &&& cooldown == Some(now) ==> cooling == AccountStatus::Healthy && open
                == AccountStatus::Healthy
            &&& cooldown is None ==> cooling == AccountStatus::Healthy && open
                == AccountStatus::Healthy
            &&& reset == Some(until) && now.secs < until.secs ==> spent == AccountStatus::Exhausted
            &&& reset == Some(until) && now.secs > until.secs ==> spent == AccountStatus::Healthy
            &&& reset == Some(now) ==> spent == AccountStatus::Healthy
            &&& reset is None ==> spent == AccountStatus::Exhausted
        }),
        status_from(AccountStatus::Disabled, cooldown, reset, now) == AccountStatus::Disabled,
        status_from(AccountStatus::Healthy, cooldown, reset, now) == AccountStatus::Healthy,
{
}

/// A text that names no state is read as healthy.
pub proof fn law_unknown_states_are_healthy(s: Seq<char>)
    requires
        s != "cooldown"@,
        s != "exhausted"@,
        s != "disabled"@,
        s != "circuit_open"@,
    ensures
        status_of(s) == AccountStatus::Healthy,
{
}

/// A rate limit rests the account for as long as was asked; what is stored is the
/// time of its end, and the error without the secrets in it.
pub proof fn law_rate_limit_rests(secs: int, error: Seq<char>, now: Timestamp)
    ensures
        ({
            let c = rate_limited_change(secs, error, now);
            &&& status_of(c.status) == AccountStatus::Cooldown
            &&& c.cooldown_until == Some(stored(now.later(secs)))
            &&& c.quota_reset_at is None
            &&& c.last_error == Some(redacted(error))
            &&& c.failures == 0
        }),
{
    law_status_round_trip(AccountStatus::Cooldown);
}

/// A used-up quota keeps the account out until the time the provider named, or
/// for the window where it named none.
pub proof fn law_exhaustion_lasts(
    reset_at: Option<Timestamp>,
    window_secs: int,
    error: Seq<char>,
    now: Timestamp,
)
    requires
        i64::MIN <= now.secs + window_secs <= i64::MAX,
    ensures
        ({
            let t = reset_time(reset_at, window_secs, now);
            let c = exhausted_change(t, error);
            &&& reset_at is Some ==> Some(t) == reset_at
            &&& reset_at is None ==> t.secs - now.secs == window_secs && t.nanos == now.nanos
            &&& status_of(c.status) == AccountStatus::Exhausted
            &&& c.quota_reset_at == Some(stored(t))
            &&& c.cooldown_until is None
            &&& c.last_error == Some(redacted(error))
            &&& c.failures == 0
        }),
{
    law_status_round_trip(AccountStatus::Exhausted);
}

/// Failures add up one by one. The first four of a row rest the account for ten
/// seconds each, the fifth and every further one open the circuit, which lets a
/// probe through after five seconds.
pub proof fn law_failures_add_up(failures: i64, error: Seq<char>, now: Timestamp)
    requires
        0 <= failures < i64::MAX,
    ensures
        ({
            let c = failed_change(failures, error, now);
            &&& c.failures == failures + 1
            &&& failures < 4 ==> status_of(c.status) == AccountStatus::Cooldown
                && c.cooldown_until == Some(stored(now.later(10)))
            &&& failures >= 4 ==> status_of(c.status) == AccountStatus::CircuitOpen
                && c.cooldown_until == Some(stored(now.later(5)))
            &&& c.quota_reset_at is None
            &&& c.last_error == Some(error)
        }),
{
    law_status_round_trip(AccountStatus::CircuitOpen);
    law_status_round_trip(AccountStatus::Cooldown);
}

/// A probe keeps the circuit open for another five seconds and forgets nothing of
/// the failures.
pub proof fn law_probe_keeps_the_circuit_open(account: AccountRow, now: Timestamp)
    ensures
        ({
            let c = probed_change(account, now);
            &&& status_of(c.status) == AccountStatus::CircuitOpen
            &&& c.cooldown_until == Some(stored(now.later(5)))
            &&& c.failures == account.failures
            &&& c.last_error == text_in(account.last_error)
        }),
{
    law_status_round_trip(AccountStatus::CircuitOpen);
}

/// A success wipes the slate clean: the account is healthy at any time, and no
/// failure, error or time is kept.
pub proof fn law_success_clears(now: Timestamp, cooldown: Option<Timestamp>, reset: Option<Timestamp>)
    ensures
        status_from(status_of(healthy_change().status), cooldown, reset, now)
            == AccountStatus::Healthy,
        healthy_change().failures == 0,
        healthy_change().last_error is None,
        healthy_change().cooldown_until is None,
        healthy_change().quota_reset_at is None,
{
    law_status_round_trip(AccountStatus::Healthy);
}

/// Spending reaches a limit from the limit on: once reached it stays reached with
/// more spent or a lower limit; a limit that is missing, zero, below zero or no
/// number is none.
pub proof fn law_spending_reaches_limits(limit: Dollars, lower: Dollars, spent: Dollars, more: Dollars)
    ensures
        !spend_reaches(None, spent),
        !double_positive(limit.bits) ==> !limits_spend(Some(limit)) && !spend_reaches(
            Some(limit),
            spent,
        ),
        double_positive(limit.bits) ==> limits_spend(Some(limit)),
        double_positive(limit.bits) ==> spend_reaches(Some(limit), limit),
        spend_reaches(Some(limit), spent) && double_at_least(more.bits, spent.bits)
            ==> spend_reaches(Some(limit), more),
        spend_reaches(Some(limit), spent) && double_positive(lower.bits) && double_at_least(
            limit.bits,
            lower.bits,
        ) ==> spend_reaches(Some(lower), spent),
        double_below(spent.bits, limit.bits) ==> !spend_reaches(Some(limit), spent),
{
    law_doubles_are_ordered(limit.bits, spent.bits, more.bits);
}

/// The time an account comes back is the time its state says: the end of its rest,
/// or the reset of its quota. An account that is well or switched off has none.
pub proof fn law_recovery_is_when_the_state_ends(account: AccountRow, now: Timestamp)
    ensures
        status_of(account.status@) == AccountStatus::Healthy || status_of(account.status@)
            == AccountStatus::Disabled ==> recovery_of(account) is None,
        recovery_of(account) matches Some(t) ==> (t.at_most(now) <==> status_when(account, now)
            == AccountStatus::Healthy),
        status_of(account.status@) == AccountStatus::Exhausted ==> recovery_of(account) == time_of(
            account.quota_reset_at,
        ),
{
}

/// Where the window of a quota cannot be told, none is.
pub proof fn law_windows_are_stored(quota_type: Seq<char>, w: Option<i64>, now: Timestamp)
    requires
        now.plain(),
        0 <= now.secs,
        w matches Some(s) ==> 0 <= s <= -MIN_SECS,
    ensures
        window_text(quota_type, w, now) == Some(stored(window_start_of(quota_type, w, now))),
{
}

} // verus!
