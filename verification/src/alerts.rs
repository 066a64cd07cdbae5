//! Alerting: which conditions fire and which resolve.
//!
//! Alerts are edge-triggered: a condition must clear before it can fire again,
//! so that a lasting problem is reported once.

use crate::number::{at_least, double_at_least, double_positive, is_nan, is_positive, no_number};
use crate::order::{is_stable_order, order_by_key};
use crate::registry::{row_of, find_row, Id, RowKey, Snapshot};
use crate::text::{decimal, decimal_text, same, text2, text3, text4, text5};
use crate::types::{copy_text, text_in, AccountRow, Dollars, RouteTargetRow};
use std::collections::VecDeque;
use vstd::prelude::*;

verus! {

/// One added-latency sample: when it was taken, and how long, in milliseconds.
#[derive(Debug, Clone, Copy, PartialEq, Eq, Structural)]
pub struct LatencySample {
    pub at_ms: u64,
    pub ms: u64,
}

/// The samples of the last ten minutes, at most twenty thousand.
#[derive(Debug)]
pub struct LatencyWindow {
    samples: VecDeque<LatencySample>,
}

/// How far back the samples go.
pub const WINDOW_MS: u64 = 600_000;

/// How many samples are kept.
pub const MAX_SAMPLES: usize = 20_000;

impl View for LatencyWindow {
    type V = Seq<LatencySample>;

    closed spec fn view(&self) -> Seq<LatencySample> {
        self.samples@
    }
}

/// Samples without those at the front that were taken before `cutoff`.
pub open spec fn since(samples: Seq<LatencySample>, cutoff: int) -> Seq<LatencySample>
    decreases samples.len(),
{
    if samples.len() > 0 && samples[0].at_ms < cutoff {
        since(samples.skip(1), cutoff)
    } else {
        samples
    }
}

/// The last so many samples.
pub open spec fn newest(samples: Seq<LatencySample>, n: int) -> Seq<LatencySample> {
    if samples.len() > n {
        samples.skip(samples.len() - n)
    } else {
        samples
    }
}

/// The samples after one more was taken at `now`.
pub open spec fn with_sample(samples: Seq<LatencySample>, now_ms: u64, ms: u64) -> Seq<LatencySample> {
    newest(
        since(samples.push(LatencySample { at_ms: now_ms, ms }), now_ms - WINDOW_MS),
        MAX_SAMPLES as int,
    )
}

impl LatencyWindow {
    pub fn new() -> (r: Self)
        ensures
            r@ == Seq::<LatencySample>::empty(),
    {
        LatencyWindow { samples: VecDeque::new() }
    }
}

/// Records an added-latency sample that was taken at `now_ms`.
pub fn record_added_latency(window: &mut LatencyWindow, now_ms: u64, ms: u64)
    ensures
        final(window)@ == with_sample(old(window)@, now_ms, ms),
        final(window)@.len() <= MAX_SAMPLES,
{
    window.samples.push_back(LatencySample { at_ms: now_ms, ms });
    let ghost all = window.samples@;
    let cutoff: u64 = if now_ms < WINDOW_MS {
        0
    } else {
        now_ms - WINDOW_MS
    };
    while window.samples.len() > 0 && window.samples[0].at_ms < cutoff
        invariant
            since(window.samples@, cutoff as int) == since(all, cutoff as int),
        decreases window.samples@.len(),
    {
        let ghost before = window.samples@;
        let _ = window.samples.pop_front();
        assert(window.samples@ =~= before.skip(1));
    }
    let ghost kept = window.samples@;
    proof {
        lemma_since(all, cutoff as int, now_ms - WINDOW_MS);
        assert(kept == since(all, cutoff as int));
    }
    while window.samples.len() > MAX_SAMPLES
        invariant
            newest(window.samples@, MAX_SAMPLES as int) == newest(kept, MAX_SAMPLES as int),
        decreases window.samples@.len(),
    {
        let ghost before = window.samples@;
        let _ = window.samples.pop_front();
        assert(window.samples@ =~= before.skip(1));
        assert(newest(window.samples@, MAX_SAMPLES as int) =~= newest(before, MAX_SAMPLES as int));
    }
}

proof fn lemma_since(samples: Seq<LatencySample>, a: int, b: int)
    requires
        a == b || (a == 0 && b < 0),
    ensures
        since(samples, a) == since(samples, b),
    decreases samples.len(),
{
    if samples.len() > 0 {
        lemma_since(samples.skip(1), a, b);
    }
}

/// The latencies of some samples.
pub open spec fn latencies(samples: Seq<LatencySample>) -> Seq<i128> {
    samples.map_values(|s: LatencySample| s.ms as i128)
}

/// Whether `v` is the 95th percentile of some latencies: it stands at 19/20 of
/// the way through them in ascending order.
pub open spec fn is_p95(values: Seq<i128>, v: u64) -> bool {
    exists|order: Seq<usize>| #[trigger]
        is_stable_order(values, order) && v == values[order[values.len() as int * 19 / 20] as int]
}

impl LatencyWindow {
    /// The 95th percentile of the samples; `None` with fewer than twenty.
    pub fn latency_p95(&self) -> (r: Option<u64>)
        requires
            self@.len() <= MAX_SAMPLES,
        ensures
            match r {
                Some(v) => self@.len() >= 20 && is_p95(latencies(self@), v),
                None => self@.len() < 20,
            },
    {
        let n: usize = self.samples.len();
        if n < 20 {
            return None;
        }
        let mut keys: Vec<i128> = Vec::new();
        let mut i: usize = 0;
        while i < n
            invariant
                i <= n,
                n == self@.len(),
                keys@.len() == i,
                forall|k: int| 0 <= k < i ==> (#[trigger] keys@[k]) == self@[k].ms,
            decreases n - i,
        {
            keys.push(self.samples[i].ms as i128);
            i = i + 1;
        }
        assert(keys@ =~= latencies(self@));
        let order = order_by_key(&keys);
        let at: usize = n * 19 / 20;
        let pos: usize = order[at];
        assert(pos < self.samples@.len());
        Some(self.samples[pos].ms)
    }
}

/// Takes note of whether the latency is too high, and says whether it has been
/// so for ten minutes. `since_ms` is when it began to be.
pub fn breach_sustained(since_ms: &mut Option<u64>, over: bool, now_ms: u64) -> (r: bool)
    ensures
        *final(since_ms) == (if !over {
            None
        } else if *old(since_ms) is Some {
            *old(since_ms)
        } else {
            Some(now_ms)
        }),
        r == (over && (*old(since_ms) matches Some(s) && s <= now_ms && now_ms - s >= WINDOW_MS)),
{
    if !over {
        *since_ms = None;
        return false;
    }
    match *since_ms {
        Some(s) => s <= now_ms && now_ms - s >= WINDOW_MS,
        None => {
            *since_ms = Some(now_ms);
            false
        },
    }
}

/// The conditions that fire at present.
#[derive(Debug)]
pub struct AlertState {
    active: Vec<String>,
}

/// The characters of the texts in a list, as a set.
pub open spec fn text_set(v: Seq<String>) -> Set<Seq<char>> {
    Set::new(|s: Seq<char>| exists|i: int| 0 <= i < v.len() && (#[trigger] v[i])@ == s)
}

impl View for AlertState {
    type V = Set<Seq<char>>;

    closed spec fn view(&self) -> Set<Seq<char>> {
        text_set(self.active@)
    }
}

impl AlertState {
    /// No condition is listed twice.
    pub closed spec fn wf(self) -> bool {
        forall|i: int, j: int|
            0 <= i < j < self.active@.len() ==> (#[trigger] self.active@[i])@ != (
            #[trigger] self.active@[j])@
    }

    pub fn new() -> (r: Self)
        ensures
            r.wf(),
            r@ == Set::<Seq<char>>::empty(),
    {
        let r = AlertState { active: Vec::new() };
        assert(r@ =~= Set::<Seq<char>>::empty());
        r
    }

    fn place(&self, key: &str) -> (r: usize)
        ensures
            r <= self.active@.len(),
            r < self.active@.len() ==> self.active@[r as int]@ == key@,
            r == self.active@.len() ==> !self@.contains(key@),
    {
        let mut i: usize = 0;
        while i < self.active.len()
            invariant
                i <= self.active@.len(),
                forall|k: int| 0 <= k < i ==> (#[trigger] self.active@[k])@ != key@,
            decreases self.active@.len() - i,
        {
            if same(self.active[i].as_str(), key) {
                return i;
            }
            i = i + 1;
        }
        i
    }

    /// Whether a condition newly became active.
    pub fn should_fire(&mut self, key: &str) -> (r: bool)
        requires
            old(self).wf(),
        ensures
            final(self).wf(),
            r == !old(self)@.contains(key@),
            final(self)@ == old(self)@.insert(key@),
    {
        let at = self.place(key);
        let ghost before = self.active@;
        if at < self.active.len() {
            assert(self@.contains(key@));
            assert(self@ =~= self@.insert(key@));
            return false;
        }
        self.active.push(key.to_owned());
        proof {
            assert forall|i: int, j: int| 0 <= i < j < self.active@.len() implies (
            #[trigger] self.active@[i])@ != (#[trigger] self.active@[j])@ by {
                if j == before.len() {
                    assert(before[i]@ != key@) by {
                        if before[i]@ == key@ {
                            assert(old(self)@.contains(key@));
                        }
                    }
                } else {
                    assert(before[i]@ != before[j]@);
                }
            }
            assert forall|s: Seq<char>| self@.contains(s) == old(self)@.insert(key@).contains(s) by {
                if old(self)@.contains(s) {
                    let k = choose|k: int| 0 <= k < before.len() && (#[trigger] before[k])@ == s;
                    assert(self.active@[k]@ == s);
                }
                if s == key@ {
                    assert(self.active@[before.len() as int]@ == s);
                }
                if self@.contains(s) {
                    let k = choose|k: int|
                        0 <= k < self.active@.len() && (#[trigger] self.active@[k])@ == s;
                    if k < before.len() {
                        assert(before[k]@ == s);
                    }
                }
            }
            assert(self@ =~= old(self)@.insert(key@));
        }
        true
    }

    /// Whether a condition went from firing to resolved.
    pub fn should_resolve(&mut self, key: &str) -> (r: bool)
        requires
            old(self).wf(),
        ensures
            final(self).wf(),
            r == old(self)@.contains(key@),
            final(self)@ == old(self)@.remove(key@),
    {
        let at = self.place(key);
        let ghost before = self.active@;
        if at == self.active.len() {
            assert(self@ =~= self@.remove(key@));
            return false;
        }
        assert(before[at as int]@ == key@);
        let _ = self.active.remove(at);
        proof {
            assert(old(self)@.contains(key@));
            let now = self.active@;
            assert(forall|k: int| 0 <= k < at ==> now[k] == before[k]);
            assert(forall|k: int| at <= k < now.len() ==> now[k] == before[k + 1]);
            assert forall|i: int, j: int| 0 <= i < j < now.len() implies (#[trigger] now[i])@ != (
            #[trigger] now[j])@ by {
                let a = if i < at {
                    i
                } else {
                    i + 1
                };
                let b = if j < at {
                    j
                } else {
                    j + 1
                };
                assert(before[a]@ != before[b]@);
            }
            assert forall|s: Seq<char>| self@.contains(s) == old(self)@.remove(key@).contains(s) by {
                if self@.contains(s) {
                    let k = choose|k: int| 0 <= k < now.len() && (#[trigger] now[k])@ == s;
                    let a = if k < at {
                        k
                    } else {
                        k + 1
                    };
                    assert(before[a]@ == s);
                    if a < at {
                        assert(before[a]@ != before[at as int]@);
                    } else {
                        assert(before[at as int]@ != before[a]@);
                    }
                }
                if old(self)@.contains(s) && s != key@ {
                    let k = choose|k: int| 0 <= k < before.len() && (#[trigger] before[k])@ == s;
                    if k < at {
                        assert(now[k]@ == s);
                    } else {
                        assert(now[k - 1]@ == s);
                    }
                }
            }
            assert(self@ =~= old(self)@.remove(key@));
        }
        true
    }
}

/// What a check found.
#[derive(Debug, Clone, Copy, PartialEq, Eq, Structural)]
pub enum Verdict {
    /// The condition holds.
    Firing,
    /// The condition does not hold.
    Clear,
    /// The condition has not held for long enough to be reported.
    Pending,
}

/// What an alert is about.
#[derive(Debug)]
pub enum Detail {
    FallbackRate { rate: u64, window: usize },
    ErrorRate { rate: u64, window: usize },
    Account { label: String, status: String },
    Route { name: String, targets: usize },
    Latency { p95_ms: u64, threshold_ms: u64 },
    Queue { depth: u64, capacity: u64, dropped: u64 },
    Backup { last_at: Option<String> },
    Budget { name: String, spend: Dollars, budget: Dollars },
    Credentials { failures: u64 },
}

/// What a `Detail` holds.
pub enum DetailModel {
    FallbackRate { rate: u64, window: int },
    ErrorRate { rate: u64, window: int },
    Account { label: Seq<char>, status: Seq<char> },
    Route { name: Seq<char>, targets: int },
    Latency { p95_ms: u64, threshold_ms: u64 },
    Queue { depth: u64, capacity: u64, dropped: u64 },
    Backup { last_at: Option<Seq<char>> },
    Budget { name: Seq<char>, spend: Dollars, budget: Dollars },
    Credentials { failures: u64 },
}

impl View for Detail {
    type V = DetailModel;

    open spec fn view(&self) -> DetailModel {
        match *self {
            Detail::FallbackRate { rate, window } => DetailModel::FallbackRate {
                rate,
                window: window as int,
            },
            Detail::ErrorRate { rate, window } => DetailModel::ErrorRate {
                rate,
                window: window as int,
            },
            Detail::Account { label, status } => DetailModel::Account {
                label: label@,
                status: status@,
            },
            Detail::Route { name, targets } => DetailModel::Route {
                name: name@,
                targets: targets as int,
            },
            Detail::Latency { p95_ms, threshold_ms } => DetailModel::Latency {
                p95_ms,
                threshold_ms,
            },
            Detail::Queue { depth, capacity, dropped } => DetailModel::Queue {
                depth,
                capacity,
                dropped,
            },
            Detail::Backup { last_at } => DetailModel::Backup { last_at: text_in(last_at) },
            Detail::Credentials { failures } => DetailModel::Credentials { failures },
            Detail::Budget { name, spend, budget } => DetailModel::Budget {
                name: name@,
                spend,
                budget,
            },
        }
    }
}

/// One check of an evaluation.
#[derive(Debug)]
pub struct Check {
    pub key: String,
    pub verdict: Verdict,
    pub message: String,
    pub detail: Detail,
}

/// What a `Check` says.
pub struct CheckModel {
    pub key: Seq<char>,
    pub verdict: Verdict,
    pub message: Seq<char>,
    pub detail: DetailModel,
}

impl View for Check {
    type V = CheckModel;

    open spec fn view(&self) -> CheckModel {
        CheckModel {
            key: self.key@,
            verdict: self.verdict,
            message: self.message@,
            detail: self.detail@,
        }
    }
}

/// The checks of a list.
pub open spec fn check_views(v: Seq<Check>) -> Seq<CheckModel> {
    v.map_values(|c: Check| c@)
}

/// What the webhook is told.
#[derive(Debug)]
pub enum Notice {
    Fire { key: String, message: String, detail: Detail },
    Resolve { key: String },
}

/// What a `Notice` says.
pub enum NoticeModel {
    Fire { key: Seq<char>, message: Seq<char>, detail: DetailModel },
    Resolve { key: Seq<char> },
}

impl View for Notice {
    type V = NoticeModel;

    open spec fn view(&self) -> NoticeModel {
        match *self {
            Notice::Fire { key, message, detail } => NoticeModel::Fire {
                key: key@,
                message: message@,
                detail: detail@,
            },
            Notice::Resolve { key } => NoticeModel::Resolve { key: key@ },
        }
    }
}

/// The notices of a list.
pub open spec fn notice_views(v: Seq<Notice>) -> Seq<NoticeModel> {
    v.map_values(|n: Notice| n@)
}

/// What a check does: the conditions that then fire, and the notice it gives.
pub open spec fn settled(active: Set<Seq<char>>, c: CheckModel) -> (Set<Seq<char>>, Option<NoticeModel>) {
    match c.verdict {
        Verdict::Firing => (
            active.insert(c.key),
            if active.contains(c.key) {
                None
            } else {
                Some(
                    NoticeModel::Fire { key: c.key, message: c.message, detail: c.detail },
                )
            },
        ),
        Verdict::Clear => (
            active.remove(c.key),
            if active.contains(c.key) {
                Some(NoticeModel::Resolve { key: c.key })
            } else {
                None
            },
        ),
        Verdict::Pending => (active, None),
    }
}

/// What a list of checks does, one after the other.
pub open spec fn settled_all(active: Set<Seq<char>>, checks: Seq<CheckModel>) -> (
    Set<Seq<char>>,
    Seq<NoticeModel>,
)
    decreases checks.len(),
{
    if checks.len() == 0 {
        (active, Seq::empty())
    } else {
        let (before, notices) = settled_all(active, checks.drop_last());
        let (now, notice) = settled(before, checks.last());
        (
            now,
            match notice {
                Some(n) => notices.push(n),
                None => notices,
            },
        )
    }
}

/// Settles the checks of an evaluation, one after the other, and gives the
/// notices for the webhook.
pub fn settle(alerts: &mut AlertState, checks: Vec<Check>) -> (r: Vec<Notice>)
    requires
        old(alerts).wf(),
    ensures
        final(alerts).wf(),
        (final(alerts)@, notice_views(r@)) == settled_all(old(alerts)@, check_views(checks@)),
{
    let ghost list = checks@;
    let ghost all = check_views(list);
    let mut out: Vec<Notice> = Vec::new();
    assert(all.take(0).len() == 0);
    assert(notice_views(out@) =~= Seq::<NoticeModel>::empty());
    for c in it: checks.into_iter()
        invariant
            it.seq() == list,
            all == check_views(list),
            alerts.wf(),
            (alerts@, notice_views(out@)) == settled_all(old(alerts)@, all.take(it.index())),
    {
        let ghost before = notice_views(out@);
        proof {
            assert(all.take(it.index() + 1).drop_last() =~= all.take(it.index()));
            assert(all.take(it.index() + 1).last() == c@);
        }
        match c.verdict {
            Verdict::Firing => {
                if alerts.should_fire(c.key.as_str()) {
                    out.push(Notice::Fire { key: c.key, message: c.message, detail: c.detail });
                    assert(notice_views(out@) =~= before.push(
                        NoticeModel::Fire { key: c@.key, message: c@.message, detail: c@.detail },
                    ));
                }
            },
            Verdict::Clear => {
                if alerts.should_resolve(c.key.as_str()) {
                    out.push(Notice::Resolve { key: c.key });
                    assert(notice_views(out@) =~= before.push(
                        NoticeModel::Resolve { key: c@.key },
                    ));
                }
            },
            Verdict::Pending => {},
        }
    }
    assert(all.take(all.len() as int) =~= all);
    out
}

/// A condition that fires does not fire again until it has resolved, and once
/// resolved it can.
pub proof fn law_edge_triggered(active: Set<Seq<char>>, firing: CheckModel, clear: CheckModel)
    requires
        firing.verdict == Verdict::Firing,
        clear.verdict == Verdict::Clear,
        firing.key == clear.key,
    ensures
        ({
            let once = settled(active, firing).0;
            let resolved = settled(once, clear).0;
            &&& settled(once, firing).1 is None
            &&& settled(once, firing).0 == once
            &&& settled(once, clear).1 is Some
            &&& settled(resolved, clear).1 is None
            &&& settled(resolved, firing).1 is Some
        }),
{
    let once = settled(active, firing).0;
    assert(once.insert(firing.key) =~= once);
}

/// A check reports a change of its condition and of no other.
pub proof fn law_notice_is_a_transition(active: Set<Seq<char>>, c: CheckModel)
    ensures
        ({
            let (now, notice) = settled(active, c);
            &&& notice is Some == (active.contains(c.key) != now.contains(c.key))
            &&& forall|k: Seq<char>| k != c.key ==> active.contains(k) == now.contains(k)
        }),
{
}

/// What the checks need of a row of the usage log.
#[derive(Debug)]
pub struct RecentUsage {
    pub fallback_hops: i64,
    pub status: String,
    pub status_code: i64,
}

/// Whether a request fell back at least once.
pub open spec fn fell_back(u: RecentUsage) -> bool {
    u.fallback_hops > 0
}

/// Whether a request failed on the side of the upstream or of the proxy.
pub open spec fn went_wrong(u: RecentUsage) -> bool {
    u.status@ == "upstream_error"@ || u.status@ == "stream_error"@ || u.status@ == "rate_limited"@
        || u.status@ == "quota_exhausted"@ || u.status_code >= 500
}

/// How many of the requests fell back.
pub fn count_fallbacks(recent: &Vec<RecentUsage>) -> (r: usize)
    ensures
        r == recent@.filter(|u: RecentUsage| fell_back(u)).len(),
{
    let mut n: usize = 0;
    let mut i: usize = 0;
    proof {
        reveal(Seq::filter);
        assert(recent@.take(0).len() == 0);
    }
    while i < recent.len()
        invariant
            i <= recent@.len(),
            n <= i,
            n == recent@.take(i as int).filter(|u: RecentUsage| fell_back(u)).len(),
        decreases recent@.len() - i,
    {
        proof {
            reveal(Seq::filter);
            assert(recent@.take(i + 1).drop_last() =~= recent@.take(i as int));
        }
        if recent[i].fallback_hops > 0 {
            n = n + 1;
        }
        i = i + 1;
    }
    assert(recent@.take(recent@.len() as int) =~= recent@);
    n
}

/// How many of the requests failed.
pub fn count_errors(recent: &Vec<RecentUsage>) -> (r: usize)
    ensures
        r == recent@.filter(|u: RecentUsage| went_wrong(u)).len(),
{
    let mut n: usize = 0;
    let mut i: usize = 0;
    proof {
        reveal(Seq::filter);
        assert(recent@.take(0).len() == 0);
    }
    while i < recent.len()
        invariant
            i <= recent@.len(),
            n <= i,
            n == recent@.take(i as int).filter(|u: RecentUsage| went_wrong(u)).len(),
        decreases recent@.len() - i,
    {
        proof {
            reveal(Seq::filter);
            assert(recent@.take(i + 1).drop_last() =~= recent@.take(i as int));
        }
        let status = recent[i].status.as_str();
        if same(status, "upstream_error") || same(status, "stream_error") || same(
            status,
            "rate_limited",
        ) || same(status, "quota_exhausted") || recent[i].status_code >= 500 {
            n = n + 1;
        }
        i = i + 1;
    }
    assert(recent@.take(recent@.len() as int) =~= recent@);
    n
}

/// A share of the recent requests: the bits of the double, how it is written in
/// percent, and the bits of the share from which on it alerts.
#[derive(Debug)]
pub struct Rate {
    pub bits: u64,
    pub percent: String,
    pub threshold: u64,
}

/// A Route and its targets.
#[derive(Debug)]
pub struct RouteStatus {
    pub id: String,
    pub name: String,
    pub enabled: i64,
    pub targets: Vec<RouteTargetRow>,
}

/// What a virtual key spent of its monthly budget. `limit` is four fifths of
/// the budget.
#[derive(Debug)]
pub struct BudgetStatus {
    pub id: String,
    pub name: String,
    pub spend: Dollars,
    pub spend_text: String,
    pub budget: Option<Dollars>,
    pub budget_text: String,
    pub limit: Dollars,
}

/// What an evaluation looks at.
#[derive(Debug)]
pub struct Evaluation {
    /// How many recent requests there are.
    pub total: usize,
    /// Below this number of requests the rates say nothing.
    pub min_requests: i64,
    pub fallback: Rate,
    pub errors: Rate,
    pub accounts: Vec<AccountRow>,
    pub routes: Vec<RouteStatus>,
    pub p95_ms: Option<u64>,
    pub latency_threshold_ms: u64,
    /// The latency has been above the threshold for ten minutes.
    pub latency_sustained: bool,
    pub queue_depth: u64,
    pub queue_capacity: u64,
    pub queue_dropped: u64,
    pub backup_failed: bool,
    pub last_backup_at: Option<String>,
    pub budgets: Vec<BudgetStatus>,
    /// How many credentials could not be resolved since the start.
    pub credential_failures: u64,
    /// How many of those were counted at the evaluation before.
    pub credential_failures_before: u64,
}

/// From how many failures on they are repeated ones.
pub const REPEATED_FAILURES: u64 = 2;

/// Firing or clear.
pub open spec fn verdict(firing: bool) -> Verdict {
    if firing {
        Verdict::Firing
    } else {
        Verdict::Clear
    }
}

fn judge(firing: bool) -> (r: Verdict)
    ensures
        r == verdict(firing),
{
    if firing {
        Verdict::Firing
    } else {
        Verdict::Clear
    }
}

/// The checks of the shares of fallbacks and errors; none with too few
/// requests.
pub open spec fn rate_checks(e: Evaluation) -> Seq<CheckModel> {
    if e.total < e.min_requests {
        Seq::empty()
    } else {
        let over = "% over the last "@ + decimal(e.total as nat) + " requests"@;
        seq![
            CheckModel {
                key: "high_fallback_rate"@,
                verdict: verdict(double_at_least(e.fallback.bits, e.fallback.threshold)),
                message: "Route fallback rate is "@ + e.fallback.percent@ + over,
                detail: DetailModel::FallbackRate { rate: e.fallback.bits, window: e.total as int },
            },
            CheckModel {
                key: "high_error_rate"@,
                verdict: verdict(double_at_least(e.errors.bits, e.errors.threshold)),
                message: "Error rate is "@ + e.errors.percent@ + over,
                detail: DetailModel::ErrorRate { rate: e.errors.bits, window: e.total as int },
            },
        ]
    }
}

/// Whether an account is out of service.
pub open spec fn is_unhealthy(status: Seq<char>) -> bool {
    status == "exhausted"@ || status == "circuit_open"@ || status == "disabled"@
}

/// The check of an account: why it is out of service is its last error, else
/// its status.
pub open spec fn account_check(a: AccountRow) -> CheckModel {
    CheckModel {
        key: "account_unhealthy:"@ + a.id@,
        verdict: verdict(is_unhealthy(a.status@)),
        message: "Account '"@ + a.label@ + "' is "@ + (match a.last_error {
            Some(err) => if err@.len() > 0 {
                err@
            } else {
                a.status@
            },
            None => a.status@,
        }),
        detail: DetailModel::Account { label: a.label@, status: a.status@ },
    }
}

/// Whether a provider has a healthy account.
pub open spec fn has_healthy_account(accounts: Seq<AccountRow>, provider_id: Seq<char>) -> bool {
    exists|i: int|
        0 <= i < accounts.len() && (#[trigger] accounts[i]).status@ == "healthy"@
            && accounts[i].provider_id@ == provider_id
}

/// Whether the provider of a target's model has a healthy account.
pub open spec fn target_alive(s: Snapshot, accounts: Seq<AccountRow>, t: RouteTargetRow) -> bool {
    match row_of(s.models@, RowKey::One(t.model_id@)) {
        Some(m) => has_healthy_account(accounts, m.provider_id@),
        None => false,
    }
}

/// Whether some target of a Route can serve.
pub open spec fn any_alive(s: Snapshot, accounts: Seq<AccountRow>, targets: Seq<RouteTargetRow>) -> bool {
    exists|i: int| 0 <= i < targets.len() && target_alive(s, accounts, #[trigger] targets[i])
}

/// The check of an enabled Route: it fires where the Route has targets and none
/// can serve.
pub open spec fn route_check(s: Snapshot, accounts: Seq<AccountRow>, r: RouteStatus) -> CheckModel {
    CheckModel {
        key: "route_unavailable:"@ + r.id@,
        verdict: verdict(!any_alive(s, accounts, r.targets@) && r.targets@.len() > 0),
        message: "Route '"@ + r.name@ + "' has no healthy target"@,
        detail: DetailModel::Route { name: r.name@, targets: r.targets@.len() as int },
    }
}

/// The checks of the enabled Routes, in order.
pub open spec fn route_checks(
    s: Snapshot,
    accounts: Seq<AccountRow>,
    routes: Seq<RouteStatus>,
) -> Seq<CheckModel>
    decreases routes.len(),
{
    if routes.len() == 0 {
        Seq::empty()
    } else {
        let before = route_checks(s, accounts, routes.drop_last());
        if routes.last().enabled == 0 {
            before
        } else {
            before.push(route_check(s, accounts, routes.last()))
        }
    }
}

/// The check of the added latency.
pub open spec fn latency_check(e: Evaluation) -> CheckModel {
    let p95 = match e.p95_ms {
        Some(v) => v,
        None => 0,
    };
    CheckModel {
        key: "high_added_latency"@,
        verdict: if e.p95_ms is Some && p95 > e.latency_threshold_ms {
            if e.latency_sustained {
                Verdict::Firing
            } else {
                Verdict::Pending
            }
        } else {
            Verdict::Clear
        },
        message: "p95 added proxy latency is "@ + decimal(p95 as nat) + " ms (threshold "@
            + decimal(e.latency_threshold_ms as nat) + " ms for 10m)"@,
        detail: DetailModel::Latency { p95_ms: p95, threshold_ms: e.latency_threshold_ms },
    }
}

/// The check of the usage-log queue: four fifths full, or a row was dropped.
pub open spec fn queue_check(e: Evaluation) -> CheckModel {
    CheckModel {
        key: "usage_queue_saturated"@,
        verdict: verdict(
            (e.queue_capacity > 0 && e.queue_depth * 100 >= e.queue_capacity * 80)
                || e.queue_dropped > 0,
        ),
        message: "usage-log queue depth "@ + decimal(e.queue_depth as nat) + "/"@ + decimal(
            e.queue_capacity as nat,
        ) + ", dropped "@ + decimal(e.queue_dropped as nat),
        detail: DetailModel::Queue {
            depth: e.queue_depth,
            capacity: e.queue_capacity,
            dropped: e.queue_dropped,
        },
    }
}

/// The check of the last backup.
pub open spec fn backup_check(e: Evaluation) -> CheckModel {
    CheckModel {
        key: "backup_failed"@,
        verdict: verdict(e.backup_failed),
        message: "the last scheduled database backup failed"@,
        detail: DetailModel::Backup { last_at: text_in(e.last_backup_at) },
    }
}

/// Whether a budget is checked: it is set, and it is not zero or less.
pub open spec fn is_budgeted(b: BudgetStatus) -> bool {
    b.budget matches Some(v) && (is_nan(v.bits) || double_positive(v.bits))
}

/// The check of a key's monthly budget.
pub open spec fn budget_check(b: BudgetStatus) -> CheckModel {
    CheckModel {
        key: "key_budget:"@ + b.id@,
        verdict: verdict(double_at_least(b.spend.bits, b.limit.bits)),
        message: "virtual key '"@ + b.name@ + "' has spent "@ + b.spend_text@ + " of its "@
            + b.budget_text@ + " monthly budget"@,
        detail: DetailModel::Budget { name: b.name@, spend: b.spend, budget: b.budget->0 },
    }
}

/// The checks of the keys with a budget, in order.
pub open spec fn budget_checks(budgets: Seq<BudgetStatus>) -> Seq<CheckModel>
    decreases budgets.len(),
{
    if budgets.len() == 0 {
        Seq::empty()
    } else {
        let before = budget_checks(budgets.drop_last());
        if is_budgeted(budgets.last()) {
            before.push(budget_check(budgets.last()))
        } else {
            before
        }
    }
}

/// How many credentials could not be resolved since the evaluation before.
pub open spec fn new_failures(e: Evaluation) -> u64 {
    if e.credential_failures >= e.credential_failures_before {
        (e.credential_failures - e.credential_failures_before) as u64
    } else {
        0
    }
}

/// The check of the credential strategy: it fires where resolving a credential
/// failed more than once since the evaluation before.
pub open spec fn credential_check(e: Evaluation) -> CheckModel {
    CheckModel {
        key: "credential_failures"@,
        verdict: verdict(new_failures(e) >= REPEATED_FAILURES),
        message: "resolving a credential failed "@ + decimal(new_failures(e) as nat)
            + " times since the last evaluation"@,
        detail: DetailModel::Credentials { failures: new_failures(e) },
    }
}

/// All checks of an evaluation, in order.
pub open spec fn all_checks(e: Evaluation, s: Snapshot) -> Seq<CheckModel> {
    rate_checks(e) + e.accounts@.map_values(|a: AccountRow| account_check(a)) + route_checks(
        s,
        e.accounts@,
        e.routes@,
    ) + seq![latency_check(e), queue_check(e), backup_check(e)] + budget_checks(e.budgets@).push(
        credential_check(e),
    )
}

fn push_check(list: &mut Vec<Check>, c: Check)
    ensures
        check_views(final(list)@) == check_views(old(list)@).push(c@),
{
    let ghost before = list@;
    list.push(c);
    assert(check_views(list@) =~= check_views(before).push(c@));
}

fn check_rates(e: &Evaluation, list: &mut Vec<Check>)
    ensures
        check_views(final(list)@) == check_views(old(list)@) + rate_checks(*e),
{
    let too_few = e.min_requests > 0 && (e.total as u128) < e.min_requests as u128;
    if too_few {
        assert(check_views(list@) + Seq::<CheckModel>::empty() =~= check_views(list@));
        return;
    }
    let over = text3("% over the last ", decimal_text(e.total as u64).as_str(), " requests");
    let message = text3("Route fallback rate is ", e.fallback.percent.as_str(), over.as_str());
    push_check(
        list,
        Check {
            key: "high_fallback_rate".to_owned(),
            verdict: judge(at_least(e.fallback.bits, e.fallback.threshold)),
            message,
            detail: Detail::FallbackRate { rate: e.fallback.bits, window: e.total },
        },
    );
    let message = text3("Error rate is ", e.errors.percent.as_str(), over.as_str());
    push_check(
        list,
        Check {
            key: "high_error_rate".to_owned(),
            verdict: judge(at_least(e.errors.bits, e.errors.threshold)),
            message,
            detail: Detail::ErrorRate { rate: e.errors.bits, window: e.total },
        },
    );
    assert(check_views(list@) =~= check_views(old(list)@) + rate_checks(*e));
}

fn check_accounts(accounts: &Vec<AccountRow>, list: &mut Vec<Check>)
    ensures
        check_views(final(list)@) == check_views(old(list)@) + accounts@.map_values(
            |a: AccountRow| account_check(a),
        ),
{
    let ghost start = check_views(list@);
    let mut i: usize = 0;
    assert(start + accounts@.take(0).map_values(|a: AccountRow| account_check(a)) =~= start);
    while i < accounts.len()
        invariant
            i <= accounts@.len(),
            check_views(list@) == start + accounts@.take(i as int).map_values(
                |a: AccountRow| account_check(a),
            ),
        decreases accounts@.len() - i,
    {
        let ghost before = check_views(list@);
        let a = &accounts[i];
        let status = a.status.as_str();
        let unhealthy = same(status, "exhausted") || same(status, "circuit_open") || same(
            status,
            "disabled",
        );
        let why = match &a.last_error {
            Some(err) => if err.as_str().is_empty() {
                status
            } else {
                err.as_str()
            },
            None => status,
        };
        push_check(
            list,
            Check {
                key: text2("account_unhealthy:", a.id.as_str()),
                verdict: judge(unhealthy),
                message: text4("Account '", a.label.as_str(), "' is ", why),
                detail: Detail::Account { label: a.label.clone(), status: a.status.clone() },
            },
        );
        proof {
            assert(check_views(list@) =~= before.push(account_check(accounts@[i as int])));
            assert(start + accounts@.take(i + 1).map_values(|a: AccountRow| account_check(a))
                =~= before.push(account_check(accounts@[i as int])));
        }
        i = i + 1;
    }
    assert(accounts@.take(accounts@.len() as int) =~= accounts@);
}

fn provider_alive(accounts: &Vec<AccountRow>, provider_id: &str) -> (r: bool)
    ensures
        r == has_healthy_account(accounts@, provider_id@),
{
    let mut i: usize = 0;
    while i < accounts.len()
        invariant
            i <= accounts@.len(),
            forall|k: int|
                0 <= k < i ==> !((#[trigger] accounts@[k]).status@ == "healthy"@
                    && accounts@[k].provider_id@ == provider_id@),
        decreases accounts@.len() - i,
    {
        if same(accounts[i].status.as_str(), "healthy") && same(
            accounts[i].provider_id.as_str(),
            provider_id,
        ) {
            return true;
        }
        i = i + 1;
    }
    false
}

fn route_alive(s: &Snapshot, accounts: &Vec<AccountRow>, targets: &Vec<RouteTargetRow>) -> (r: bool)
    ensures
        r == any_alive(*s, accounts@, targets@),
{
    let mut i: usize = 0;
    while i < targets.len()
        invariant
            i <= targets@.len(),
            forall|k: int| 0 <= k < i ==> !target_alive(*s, accounts@, #[trigger] targets@[k]),
        decreases targets@.len() - i,
    {
        let alive = match find_row(&s.models, &Id::One(targets[i].model_id.as_str())) {
            Some(m) => provider_alive(accounts, m.provider_id.as_str()),
            None => false,
        };
        if alive {
            assert(target_alive(*s, accounts@, targets@[i as int]));
            return true;
        }
        i = i + 1;
    }
    false
}

fn check_routes(
    s: &Snapshot,
    accounts: &Vec<AccountRow>,
    routes: &Vec<RouteStatus>,
    list: &mut Vec<Check>,
)
    ensures
        check_views(final(list)@) == check_views(old(list)@) + route_checks(
            *s,
            accounts@,
            routes@,
        ),
{
    let ghost start = check_views(list@);
    let mut i: usize = 0;
    assert(routes@.take(0).len() == 0);
    assert(start + route_checks(*s, accounts@, routes@.take(0)) =~= start);
    while i < routes.len()
        invariant
            i <= routes@.len(),
            check_views(list@) == start + route_checks(*s, accounts@, routes@.take(i as int)),
        decreases routes@.len() - i,
    {
        let ghost before = check_views(list@);
        assert(routes@.take(i + 1).drop_last() =~= routes@.take(i as int));
        let r = &routes[i];
        if r.enabled != 0 {
            let alive = route_alive(s, accounts, &r.targets);
            push_check(
                list,
                Check {
                    key: text2("route_unavailable:", r.id.as_str()),
                    verdict: judge(!alive && r.targets.len() > 0),
                    message: text3("Route '", r.name.as_str(), "' has no healthy target"),
                    detail: Detail::Route { name: r.name.clone(), targets: r.targets.len() },
                },
            );
            assert(start + route_checks(*s, accounts@, routes@.take(i + 1)) =~= before.push(
                route_check(*s, accounts@, routes@[i as int]),
            ));
        }
        i = i + 1;
    }
    assert(routes@.take(routes@.len() as int) =~= routes@);
}

fn check_latency(e: &Evaluation, list: &mut Vec<Check>)
    ensures
        check_views(final(list)@) == check_views(old(list)@).push(latency_check(*e)),
{
    let p95: u64 = match e.p95_ms {
        Some(v) => v,
        None => 0,
    };
    let over = e.p95_ms.is_some() && p95 > e.latency_threshold_ms;
    let verdict = if over {
        if e.latency_sustained {
            Verdict::Firing
        } else {
            Verdict::Pending
        }
    } else {
        Verdict::Clear
    };
    push_check(
        list,
        Check {
            key: "high_added_latency".to_owned(),
            verdict,
            message: text5(
                "p95 added proxy latency is ",
                decimal_text(p95).as_str(),
                " ms (threshold ",
                decimal_text(e.latency_threshold_ms).as_str(),
                " ms for 10m)",
            ),
            detail: Detail::Latency { p95_ms: p95, threshold_ms: e.latency_threshold_ms },
        },
    );
}

fn check_queue(e: &Evaluation, list: &mut Vec<Check>)
    ensures
        check_views(final(list)@) == check_views(old(list)@).push(queue_check(*e)),
{
    let full = e.queue_capacity > 0 && e.queue_depth as u128 * 100 >= e.queue_capacity as u128 * 80;
    let head = text5(
        "usage-log queue depth ",
        decimal_text(e.queue_depth).as_str(),
        "/",
        decimal_text(e.queue_capacity).as_str(),
        ", dropped ",
    );
    push_check(
        list,
        Check {
            key: "usage_queue_saturated".to_owned(),
            verdict: judge(full || e.queue_dropped > 0),
            message: text2(head.as_str(), decimal_text(e.queue_dropped).as_str()),
            detail: Detail::Queue {
                depth: e.queue_depth,
                capacity: e.queue_capacity,
                dropped: e.queue_dropped,
            },
        },
    );
}

fn check_budgets(budgets: &Vec<BudgetStatus>, list: &mut Vec<Check>)
    ensures
        check_views(final(list)@) == check_views(old(list)@) + budget_checks(budgets@),
{
    let ghost start = check_views(list@);
    let mut i: usize = 0;
    assert(budgets@.take(0).len() == 0);
    assert(start + budget_checks(budgets@.take(0)) =~= start);
    while i < budgets.len()
        invariant
            i <= budgets@.len(),
            check_views(list@) == start + budget_checks(budgets@.take(i as int)),
        decreases budgets@.len() - i,
    {
        let ghost before = check_views(list@);
        assert(budgets@.take(i + 1).drop_last() =~= budgets@.take(i as int));
        let b = &budgets[i];
        if let Some(budget) = b.budget {
            if no_number(budget.bits) || is_positive(budget.bits) {
                let head = text5(
                    "virtual key '",
                    b.name.as_str(),
                    "' has spent ",
                    b.spend_text.as_str(),
                    " of its ",
                );
                push_check(
                    list,
                    Check {
                        key: text2("key_budget:", b.id.as_str()),
                        verdict: judge(at_least(b.spend.bits, b.limit.bits)),
                        message: text3(head.as_str(), b.budget_text.as_str(), " monthly budget"),
                        detail: Detail::Budget { name: b.name.clone(), spend: b.spend, budget },
                    },
                );
                assert(start + budget_checks(budgets@.take(i + 1)) =~= before.push(
                    budget_check(budgets@[i as int]),
                ));
            }
        }
        i = i + 1;
    }
    assert(budgets@.take(budgets@.len() as int) =~= budgets@);
}

fn check_credentials(e: &Evaluation, list: &mut Vec<Check>)
    ensures
        check_views(final(list)@) == check_views(old(list)@).push(credential_check(*e)),
{
    let failures: u64 = if e.credential_failures >= e.credential_failures_before {
        e.credential_failures - e.credential_failures_before
    } else {
        0
    };
    push_check(
        list,
        Check {
            key: "credential_failures".to_owned(),
            verdict: judge(failures >= REPEATED_FAILURES),
            message: text3(
                "resolving a credential failed ",
                decimal_text(failures).as_str(),
                " times since the last evaluation",
            ),
            detail: Detail::Credentials { failures },
        },
    );
}

/// Evaluates every condition in order and gives the notices for the webhook:
/// one for each condition that began to hold or ceased to.
pub fn evaluate(alerts: &mut AlertState, e: &Evaluation, s: &Snapshot) -> (r: Vec<Notice>)
    requires
        old(alerts).wf(),
    ensures
        final(alerts).wf(),
        (final(alerts)@, notice_views(r@)) == settled_all(old(alerts)@, all_checks(*e, *s)),
{
    let mut list: Vec<Check> = Vec::new();
    check_rates(e, &mut list);
    check_accounts(&e.accounts, &mut list);
    check_routes(s, &e.accounts, &e.routes, &mut list);
    check_latency(e, &mut list);
    check_queue(e, &mut list);
    push_check(
        &mut list,
        Check {
            key: "backup_failed".to_owned(),
            verdict: judge(e.backup_failed),
            message: "the last scheduled database backup failed".to_owned(),
            detail: Detail::Backup { last_at: copy_text(&e.last_backup_at) },
        },
    );
    check_budgets(&e.budgets, &mut list);
    check_credentials(e, &mut list);
    assert(check_views(list@) =~= all_checks(*e, *s));
    settle(alerts, list)
}

/// The sample window holds the latest measurements of ten minutes: the new one is
/// at its end, what is left keeps its order, there are at most 20000, and as long
/// as there is room the first is not older than ten minutes.
pub proof fn law_window_holds_the_latest(samples: Seq<LatencySample>, now_ms: u64, ms: u64)
    ensures
        ({
            let kept = with_sample(samples, now_ms, ms);
            &&& kept.len() >= 1
            &&& kept.last() == (LatencySample { at_ms: now_ms, ms })
            &&& kept.len() < 20_000 ==> kept[0].at_ms + 600_000 >= now_ms
            &&& kept.len() <= 20_000
            &&& kept == samples.push(LatencySample { at_ms: now_ms, ms }).skip(
                samples.len() + 1 - kept.len(),
            )
            &&& samples.len() < 20_000 && (samples.len() > 0 ==> samples[0].at_ms + 600_000 >= now_ms)
                ==> kept.len() == samples.len() + 1
        }),
{
    let all = samples.push(LatencySample { at_ms: now_ms, ms });
    lemma_since_keeps(all, now_ms - WINDOW_MS);
    let fresh = since(all, now_ms - WINDOW_MS);
    let kept = newest(fresh, MAX_SAMPLES as int);
    assert(kept.last() == fresh.last());
    if samples.len() < 20_000 && (samples.len() > 0 ==> samples[0].at_ms + 600_000 >= now_ms) {
        assert(fresh == all);
    }
    assert(kept =~= all.skip(all.len() - kept.len()));
}

/// Measurements that came in one after the other stay until they are ten minutes
/// old, unless newer ones need the room.
pub proof fn law_fresh_samples_stay(samples: Seq<LatencySample>, now_ms: u64, ms: u64, i: int)
    requires
        0 <= i < samples.len() < 20_000,
        samples[i].at_ms + 600_000 >= now_ms,
    ensures
        with_sample(samples, now_ms, ms).contains(samples[i]),
{
    let all = samples.push(LatencySample { at_ms: now_ms, ms });
    lemma_since_keeps(all, now_ms - WINDOW_MS);
    lemma_since_fresh(all, now_ms - WINDOW_MS, i);
    assert(all[i] == samples[i]);
}

proof fn lemma_since_keeps(samples: Seq<LatencySample>, cutoff: int)
    requires
        samples.len() > 0,
        samples.last().at_ms >= cutoff,
    ensures
        0 < since(samples, cutoff).len() <= samples.len(),
        since(samples, cutoff).last() == samples.last(),
        since(samples, cutoff)[0].at_ms >= cutoff,
        since(samples, cutoff) == samples.skip(samples.len() - since(samples, cutoff).len()),
    decreases samples.len(),
{
    if samples[0].at_ms < cutoff {
        assert(samples.len() > 1);
        let rest = samples.skip(1);
        assert(rest.last() == samples.last());
        lemma_since_keeps(rest, cutoff);
        let n = since(rest, cutoff).len();
        assert(rest.skip(rest.len() - n) =~= samples.skip(samples.len() - n));
    } else {
        assert(samples.skip(0) =~= samples);
    }
}

proof fn lemma_since_fresh(samples: Seq<LatencySample>, cutoff: int, i: int)
    requires
        0 <= i < samples.len(),
    ensures
        samples[i].at_ms >= cutoff ==> since(samples, cutoff).contains(samples[i]),
    decreases samples.len(),
{
    if samples[i].at_ms >= cutoff {
        if samples[0].at_ms < cutoff {
            assert(i > 0);
            assert(samples.skip(1)[i - 1] == samples[i]);
            lemma_since_fresh(samples.skip(1), cutoff, i - 1);
        } else {
            assert(since(samples, cutoff)[i] == samples[i]);
        }
    }
}

/// An alert that fires is on from then on, one that clears is off, and one that
/// waits changes nothing and says nothing.
pub proof fn law_verdicts_decide(active: Set<Seq<char>>, c: CheckModel)
    ensures
        c.verdict == Verdict::Firing ==> settled(active, c).0.contains(c.key),
        c.verdict == Verdict::Clear ==> !settled(active, c).0.contains(c.key),
        c.verdict == Verdict::Pending ==> settled(active, c) == (active, None::<NoticeModel>),
        c.verdict == Verdict::Firing && !active.contains(c.key) ==> settled(active, c).1 == Some(
            NoticeModel::Fire { key: c.key, message: c.message, detail: c.detail },
        ),
        c.verdict == Verdict::Clear && active.contains(c.key) ==> settled(active, c).1 == Some(
            NoticeModel::Resolve { key: c.key },
        ),
{
}

/// Checks are settled one after the other: the later ones begin with what the
/// earlier ones left, and their notices follow.
pub proof fn law_checks_are_settled_in_order(
    active: Set<Seq<char>>,
    a: Seq<CheckModel>,
    b: Seq<CheckModel>,
)
    ensures
        ({
            let first = settled_all(active, a);
            let second = settled_all(first.0, b);
            settled_all(active, a + b) == (second.0, first.1 + second.1)
        }),
        settled_all(active, Seq::empty()) == (active, Seq::<NoticeModel>::empty()),
    decreases b.len(),
{
    if b.len() == 0 {
        assert(a + b =~= a);
        assert(settled_all(active, a).1 + Seq::<NoticeModel>::empty() =~= settled_all(active, a).1);
    } else {
        law_checks_are_settled_in_order(active, a, b.drop_last());
        assert((a + b).drop_last() =~= a + b.drop_last());
        assert((a + b).last() == b.last());
        let first = settled_all(active, a);
        let mid = settled_all(first.0, b.drop_last());
        let notice = settled(mid.0, b.last()).1;
        if let Some(n) = notice {
            assert((first.1 + mid.1).push(n) =~= first.1 + mid.1.push(n));
        }
    }
}

/// A request that fell back did so at least once, and one went wrong where its
/// provider failed it or the answer was an error of a server.
pub proof fn law_usage_tells_what_went_wrong(u: RecentUsage)
    ensures
        fell_back(u) <==> u.fallback_hops >= 1,
        u.status_code >= 500 ==> went_wrong(u),
        u.status@ == "upstream_error"@ || u.status@ == "stream_error"@ || u.status@
            == "rate_limited"@ || u.status@ == "quota_exhausted"@ ==> went_wrong(u),
        u.status_code < 500 && u.status@ == "success"@ ==> !went_wrong(u),
        u.status_code < 500 && u.status@ == "client_error"@ ==> !went_wrong(u),
{
    reveal_strlit("success");
    reveal_strlit("client_error");
    reveal_strlit("upstream_error");
    reveal_strlit("stream_error");
    reveal_strlit("rate_limited");
    reveal_strlit("quota_exhausted");
    assert("success"@.len() == 7 && "upstream_error"@.len() == 14 && "stream_error"@.len() == 12
        && "rate_limited"@.len() == 12 && "quota_exhausted"@.len() == 15 && "client_error"@.len()
        == 12);
    assert("client_error"@[0] == 'c' && "stream_error"@[0] == 's' && "rate_limited"@[0] == 'r');
}

/// Rates are judged from the least number of requests on, each against its own
/// threshold and from the threshold on.
pub proof fn law_rates_are_judged_by_their_thresholds(e: Evaluation)
    ensures
        e.total < e.min_requests ==> rate_checks(e).len() == 0,
        e.total >= e.min_requests ==> {
            &&& rate_checks(e).len() == 2
            &&& rate_checks(e)[0].key == "high_fallback_rate"@
            &&& rate_checks(e)[1].key == "high_error_rate"@
            &&& rate_checks(e)[0].verdict == Verdict::Firing <==> double_at_least(
                e.fallback.bits,
                e.fallback.threshold,
            )
            &&& rate_checks(e)[1].verdict == Verdict::Firing <==> double_at_least(
                e.errors.bits,
                e.errors.threshold,
            )
            &&& rate_checks(e)[0].verdict != Verdict::Pending
            &&& rate_checks(e)[1].verdict != Verdict::Pending
        },
{
}

/// An account is reported where its quota is used up, its circuit is open or it is
/// switched off; an account that only rests is not.
pub proof fn law_unwell_accounts_are_reported(a: AccountRow)
    ensures
        a.status@ == "exhausted"@ || a.status@ == "circuit_open"@ || a.status@ == "disabled"@
            ==> account_check(a).verdict == Verdict::Firing,
        a.status@ == "healthy"@ || a.status@ == "cooldown"@ ==> account_check(a).verdict
            == Verdict::Clear,
        account_check(a).key == "account_unhealthy:"@ + a.id@,
{
    reveal_strlit("healthy");
    reveal_strlit("cooldown");
    reveal_strlit("exhausted");
    reveal_strlit("disabled");
    reveal_strlit("circuit_open");
    assert("healthy"@[0] == 'h' && "cooldown"@[0] == 'c' && "exhausted"@[0] == 'e' && "disabled"@[0]
        == 'd' && "circuit_open"@[0] == 'c' && "cooldown"@.len() == 8 && "circuit_open"@.len()
        == 12);
}

/// A Route is reported where it has targets and none of them can be served: no
/// healthy account of the provider of its model. One healthy account clears it.
pub proof fn law_dead_routes_are_reported(
    s: Snapshot,
    accounts: Seq<AccountRow>,
    r: RouteStatus,
    i: int,
    j: int,
    m: crate::types::ModelRow,
)
    ensures
        r.targets@.len() == 0 ==> route_check(s, accounts, r).verdict == Verdict::Clear,
        0 <= i < r.targets@.len() && 0 <= j < accounts.len() && row_of(
            s.models@,
            RowKey::One(r.targets@[i].model_id@),
        ) == Some(m) && accounts[j].provider_id@ == m.provider_id@ && accounts[j].status@
            == "healthy"@ ==> route_check(s, accounts, r).verdict == Verdict::Clear,
        r.targets@.len() > 0 && (forall|k: int|
            0 <= k < accounts.len() ==> (#[trigger] accounts[k]).status@ != "healthy"@)
            ==> route_check(s, accounts, r).verdict == Verdict::Firing,
        route_check(s, accounts, r).key == "route_unavailable:"@ + r.id@,
{
    if 0 <= i < r.targets@.len() && 0 <= j < accounts.len() && row_of(
        s.models@,
        RowKey::One(r.targets@[i].model_id@),
    ) == Some(m) && accounts[j].provider_id@ == m.provider_id@ && accounts[j].status@
        == "healthy"@ {
        assert(has_healthy_account(accounts, m.provider_id@));
        assert(target_alive(s, accounts, r.targets@[i]));
    }
}

/// Every enabled Route is checked, in order, and no other.
pub proof fn law_enabled_routes_are_checked(
    s: Snapshot,
    accounts: Seq<AccountRow>,
    a: Seq<RouteStatus>,
    r: RouteStatus,
    b: Seq<RouteStatus>,
)
    ensures
        route_checks(s, accounts, a + b) == route_checks(s, accounts, a) + route_checks(
            s,
            accounts,
            b,
        ),
        r.enabled != 0 ==> route_checks(s, accounts, seq![r]) == seq![route_check(s, accounts, r)],
        r.enabled == 0 ==> route_checks(s, accounts, seq![r]).len() == 0,
    decreases b.len(),
{
    assert(seq![r].drop_last() =~= Seq::<RouteStatus>::empty());
    assert(route_checks(s, accounts, seq![r].drop_last()) =~= Seq::<CheckModel>::empty());
    assert(Seq::<CheckModel>::empty().push(route_check(s, accounts, r)) =~= seq![
        route_check(s, accounts, r),
    ]);
    if b.len() == 0 {
        assert(a + b =~= a);
        assert(route_checks(s, accounts, a) + route_checks(s, accounts, b) =~= route_checks(
            s,
            accounts,
            a,
        ));
    } else {
        law_enabled_routes_are_checked(s, accounts, a, r, b.drop_last());
        assert((a + b).drop_last() =~= a + b.drop_last());
        assert((a + b).last() == b.last());
        assert(route_checks(s, accounts, a + b) =~= route_checks(s, accounts, a) + route_checks(
            s,
            accounts,
            b,
        ));
    }
}

/// A latency is reported once it has been over its threshold for long; while it is
/// over and not yet for long, the alert waits as it is; at the threshold or
/// without enough measurements it is clear.
pub proof fn law_latency_is_reported_once_sustained(e: Evaluation)
    ensures
        e.p95_ms is None ==> latency_check(e).verdict == Verdict::Clear,
        e.p95_ms matches Some(v) ==> {
            &&& v <= e.latency_threshold_ms ==> latency_check(e).verdict == Verdict::Clear
            &&& v > e.latency_threshold_ms && e.latency_sustained ==> latency_check(e).verdict
                == Verdict::Firing
            &&& v > e.latency_threshold_ms && !e.latency_sustained ==> latency_check(e).verdict
                == Verdict::Pending
        },
        latency_check(e).key == "high_added_latency"@,
{
}

/// The queue is reported from four fifths of its room on, and where anything was
/// dropped; a queue with fewer waiting and nothing dropped is clear.
pub proof fn law_full_queues_are_reported(e: Evaluation)
    ensures
        e.queue_dropped > 0 ==> queue_check(e).verdict == Verdict::Firing,
        e.queue_capacity > 0 && e.queue_depth >= e.queue_capacity ==> queue_check(e).verdict
            == Verdict::Firing,
        e.queue_capacity > 0 && 5 * e.queue_depth >= 4 * e.queue_capacity ==> queue_check(e).verdict
            == Verdict::Firing,
        e.queue_dropped == 0 && 5 * e.queue_depth < 4 * e.queue_capacity ==> queue_check(e).verdict
            == Verdict::Clear,
        e.queue_dropped == 0 && e.queue_capacity == 0 ==> queue_check(e).verdict == Verdict::Clear,
        queue_check(e).key == "usage_queue_saturated"@,
{
}

/// A failed backup is reported, and a budget from its limit on.
pub proof fn law_backups_and_budgets_are_reported(e: Evaluation, b: BudgetStatus)
    ensures
        backup_check(e).verdict == Verdict::Firing <==> e.backup_failed,
        backup_check(e).verdict == Verdict::Clear <==> !e.backup_failed,
        backup_check(e).key == "backup_failed"@,
        budget_check(b).verdict == Verdict::Firing <==> double_at_least(b.spend.bits, b.limit.bits),
        budget_check(b).verdict == Verdict::Clear <==> !double_at_least(b.spend.bits, b.limit.bits),
        budget_check(b).key == "key_budget:"@ + b.id@,
{
}

/// Every key with a budget is checked, in order, and no key without one.
pub proof fn law_budgeted_keys_are_checked(
    a: Seq<BudgetStatus>,
    k: BudgetStatus,
    b: Seq<BudgetStatus>,
)
    ensures
        budget_checks(a + b) == budget_checks(a) + budget_checks(b),
        k.budget is None ==> budget_checks(seq![k]).len() == 0,
        k.budget matches Some(v) ==> (double_positive(v.bits) ==> budget_checks(seq![k]) == seq![
            budget_check(k),
        ]) && (!double_positive(v.bits) && !is_nan(v.bits) ==> budget_checks(seq![k]).len() == 0),
    decreases b.len(),
{
    assert(seq![k].drop_last() =~= Seq::<BudgetStatus>::empty());
    assert(budget_checks(seq![k].drop_last()) =~= Seq::<CheckModel>::empty());
    assert(Seq::<CheckModel>::empty().push(budget_check(k)) =~= seq![budget_check(k)]);
    if b.len() == 0 {
        assert(a + b =~= a);
        assert(budget_checks(a) + budget_checks(b) =~= budget_checks(a));
    } else {
        law_budgeted_keys_are_checked(a, k, b.drop_last());
        assert((a + b).drop_last() =~= a + b.drop_last());
        assert((a + b).last() == b.last());
        assert(budget_checks(a + b) =~= budget_checks(a) + budget_checks(b));
    }
}

/// Credentials are reported where two or more failed since the last evaluation:
/// one failure alone is none to report, however many came before.
pub proof fn law_repeated_failures_are_reported(e: Evaluation)
    ensures
        credential_check(e).verdict == Verdict::Firing <==> e.credential_failures
            >= e.credential_failures_before + 2,
        credential_check(e).verdict == Verdict::Clear <==> e.credential_failures
            < e.credential_failures_before + 2,
        credential_check(e).key == "credential_failures"@,
{
}

/// Nothing is forgotten: an evaluation checks the rates, every account, the
/// Routes, latency, queue and backup, the budgets and the credentials.
pub proof fn law_everything_is_checked(e: Evaluation, s: Snapshot, i: int)
    ensures
        0 <= i < rate_checks(e).len() ==> all_checks(e, s).contains(rate_checks(e)[i]),
        0 <= i < e.accounts@.len() ==> all_checks(e, s).contains(account_check(e.accounts@[i])),
        0 <= i < route_checks(s, e.accounts@, e.routes@).len() ==> all_checks(e, s).contains(
            route_checks(s, e.accounts@, e.routes@)[i],
        ),
        all_checks(e, s).contains(latency_check(e)),
        all_checks(e, s).contains(queue_check(e)),
        all_checks(e, s).contains(backup_check(e)),
        0 <= i < budget_checks(e.budgets@).len() ==> all_checks(e, s).contains(
            budget_checks(e.budgets@)[i],
        ),
        all_checks(e, s).contains(credential_check(e)),
{
    let rates = rate_checks(e);
    let accounts = e.accounts@.map_values(|a: AccountRow| account_check(a));
    let routes = route_checks(s, e.accounts@, e.routes@);
    let three = seq![latency_check(e), queue_check(e), backup_check(e)];
    let budgets = budget_checks(e.budgets@);
    lemma_parts_are_held(rates, accounts, routes, three, budgets.push(credential_check(e)), i);
    lemma_parts_are_held(rates, accounts, routes, three, budgets.push(credential_check(e)), 0);
    lemma_parts_are_held(rates, accounts, routes, three, budgets.push(credential_check(e)), 1);
    lemma_parts_are_held(rates, accounts, routes, three, budgets.push(credential_check(e)), 2);
    let n = budgets.len() as int;
    lemma_parts_are_held(rates, accounts, routes, three, budgets.push(credential_check(e)), n);
    assert(three[0] == latency_check(e) && three[1] == queue_check(e) && three[2] == backup_check(
        e,
    ));
    assert(budgets.push(credential_check(e))[n] == credential_check(e));
    if 0 <= i < n {
        assert(budgets.push(credential_check(e))[i] == budgets[i]);
    }
    if 0 <= i < e.accounts@.len() {
        assert(accounts[i] == account_check(e.accounts@[i]));
    }
}

proof fn lemma_parts_are_held(
    a: Seq<CheckModel>,
    b: Seq<CheckModel>,
    c: Seq<CheckModel>,
    d: Seq<CheckModel>,
    e: Seq<CheckModel>,
    i: int,
)
    ensures
        0 <= i < a.len() ==> (a + b + c + d + e).contains(a[i]),
        0 <= i < b.len() ==> (a + b + c + d + e).contains(b[i]),
        0 <= i < c.len() ==> (a + b + c + d + e).contains(c[i]),
        0 <= i < d.len() ==> (a + b + c + d + e).contains(d[i]),
        0 <= i < e.len() ==> (a + b + c + d + e).contains(e[i]),
{
    let all = a + b + c + d + e;
    if 0 <= i < a.len() {
        assert(all[i] == a[i]);
    }
    if 0 <= i < b.len() {
        assert(all[a.len() + i] == b[i]);
    }
    if 0 <= i < c.len() {
        assert(all[a.len() + b.len() + i] == c[i]);
    }
    if 0 <= i < d.len() {
        assert(all[a.len() + b.len() + c.len() + i] == d[i]);
    }
    if 0 <= i < e.len() {
        assert(all[a.len() + b.len() + c.len() + d.len() + i] == e[i]);
    }
}

/// Nineteen of twenty measurements are at most the one that is reported: all that
/// stand before it in order are no greater, and all behind it no smaller.
pub proof fn law_p95_splits_the_measurements(values: Seq<i128>, v: u64)
    requires
        values.len() >= 20,
        is_p95(values, v),
    ensures
        exists|order: Seq<usize>| #[trigger] splits_at(values, order, v),
{
    let order = choose|order: Seq<usize>| #[trigger]
        is_stable_order(values, order) && v == values[order[values.len() as int * 19 / 20] as int];
    let at = values.len() as int * 19 / 20;
    assert(0 <= at < values.len());
    assert(splits_at(values, order, v)) by {
        assert forall|i: int| 0 <= i < at implies values[#[trigger] order[i] as int] <= v by {
            assert(values[order[i] as int] <= values[order[at] as int]);
        }
        assert forall|i: int| at <= i < values.len() implies values[#[trigger] order[i] as int]
            >= v by {
            assert(values[order[at] as int] <= values[order[i] as int]);
        }
    }
}

/// Whether nineteen of twenty values in an order are at most `v`, and the others
/// at least.
pub open spec fn splits_at(values: Seq<i128>, order: Seq<usize>, v: u64) -> bool {
    &&& is_stable_order(values, order)
    &&& forall|i: int|
        0 <= i < values.len() * 19 / 20 ==> values[#[trigger] order[i] as int] <= v
    &&& forall|i: int|
        values.len() * 19 / 20 <= i < values.len() ==> values[#[trigger] order[i] as int] >= v
}

} // verus!
