//! The per-IP abuse limiter: a fixed window for each client address.
//!
//! It is coarse and bounded in memory: once too many addresses are tracked, the
//! windows that have ended are dropped. Without a client address a request is
//! allowed.

use crate::net::IpAddr;
use dashmap::DashMap;
use std::time::Instant;
use vstd::prelude::*;

verus! {

/// The concurrent map of `dashmap`.
#[verifier::external_type_specification]
#[verifier::external_body]
#[verifier::reject_recursive_types(K)]
#[verifier::reject_recursive_types(V)]
#[verifier::reject_recursive_types(S)]
pub struct ExDashMap<K, V, S>(DashMap<K, V, S>);

/// A point in time of a monotonic clock.
#[verifier::external_type_specification]
#[verifier::external_body]
pub struct ExInstant(Instant);

/// The entries of a map of windows: the start of a window in nanoseconds, and
/// how many requests fell into it, by the number of an address.
pub uninterp spec fn window_entries(m: DashMap<(u8, u64, u64), (u64, u64)>) -> Map<
    (u8, u64, u64),
    (u64, u64),
>;

/// No windows at all.
pub open spec fn no_windows() -> Map<(u8, u64, u64), (u64, u64)> {
    Map::empty()
}

/// `DashMap::new`: a map without entries.
#[verifier::external_body]
fn new_windows() -> (r: DashMap<(u8, u64, u64), (u64, u64)>)
    ensures
        window_entries(r) == no_windows(),
{
    DashMap::new()
}

/// `DashMap::len`: the number of entries.
#[verifier::external_body]
fn windows_len(m: &DashMap<(u8, u64, u64), (u64, u64)>) -> (r: usize)
    ensures
        r == window_entries(*m).len(),
{
    m.len()
}

/// `DashMap::get`: a copy of the value under a key.
#[verifier::external_body]
fn get_window(m: &DashMap<(u8, u64, u64), (u64, u64)>, key: (u8, u64, u64)) -> (r: Option<
    (u64, u64),
>)
    ensures
        match r {
            Some(v) => window_entries(*m).contains_key(key) && window_entries(*m)[key] == v,
            None => !window_entries(*m).contains_key(key),
        },
{
    m.get(&key).map(|e| *e.value())
}

/// `DashMap::insert`: the value under the key is replaced or added.
#[verifier::external_body]
fn put_window(
    m: &mut DashMap<(u8, u64, u64), (u64, u64)>,
    key: (u8, u64, u64),
    value: (u64, u64),
)
    ensures
        window_entries(*final(m)) == window_entries(*old(m)).insert(key, value),
{
    let _ = m.insert(key, value);
}

/// `DashMap::retain`: the entries stay whose window `is_live` at `now`.
#[verifier::external_body]
fn keep_live_windows(m: &mut DashMap<(u8, u64, u64), (u64, u64)>, now_ns: u64)
    ensures
        window_entries(*final(m)) == live_windows(window_entries(*old(m)), now_ns),
{
    m.retain(|_, w| is_live(w.0, now_ns));
}

/// `Instant::now`: nothing is promised of the time.
#[verifier::external_body]
pub(crate) fn clock_start() -> (r: Instant)
{
    Instant::now()
}

/// `Instant::elapsed`: the nanoseconds since the start, whatever they are.
#[verifier::external_body]
pub(crate) fn nanos_since(start: &Instant) -> (r: u64)
{
    start.elapsed().as_nanos() as u64
}

/// How many addresses are tracked before ended windows are dropped.
pub const MAX_ENTRIES: usize = 100_000;

/// The length of a window, sixty seconds.
pub const WINDOW_NS: u64 = 60_000_000_000;

/// The time from one point to another, none where it lies back.
pub open spec fn elapsed(from_ns: u64, now_ns: u64) -> int {
    if now_ns < from_ns {
        0
    } else {
        now_ns - from_ns
    }
}

pub(crate) fn elapsed_ns(from_ns: u64, now_ns: u64) -> (r: u64)
    ensures
        r == elapsed(from_ns, now_ns),
{
    if now_ns < from_ns {
        0
    } else {
        now_ns - from_ns
    }
}

/// Whether a window began less than two window lengths ago.
pub open spec fn live(from_ns: u64, now_ns: u64) -> bool {
    elapsed(from_ns, now_ns) < 2 * WINDOW_NS
}

fn is_live(from_ns: u64, now_ns: u64) -> (r: bool)
    ensures
        r == live(from_ns, now_ns),
{
    elapsed_ns(from_ns, now_ns) < 120_000_000_000
}

/// The entries whose window is live.
pub open spec fn live_windows(
    m: Map<(u8, u64, u64), (u64, u64)>,
    now_ns: u64,
) -> Map<(u8, u64, u64), (u64, u64)> {
    m.restrict(Set::new(|k: (u8, u64, u64)| m.contains_key(k) && live(m[k].0, now_ns)))
}

/// An address as a number: its family, and its bits in two halves.
pub open spec fn address_key(ip: IpAddr) -> (u8, u64, u64) {
    match ip {
        IpAddr::V4(a, b, c, d) => (4, 0, (((a * 256 + b) * 256 + c) * 256 + d) as u64),
        IpAddr::V6(s) => (
            6,
            (((s@[0] * 0x1_0000 + s@[1]) * 0x1_0000 + s@[2]) * 0x1_0000 + s@[3]) as u64,
            (((s@[4] * 0x1_0000 + s@[5]) * 0x1_0000 + s@[6]) * 0x1_0000 + s@[7]) as u64,
        ),
    }
}

fn key_of(ip: IpAddr) -> (r: (u8, u64, u64))
    ensures
        r == address_key(ip),
{
    match ip {
        IpAddr::V4(a, b, c, d) => (
            4,
            0,
            ((a as u64 * 256 + b as u64) * 256 + c as u64) * 256 + d as u64,
        ),
        IpAddr::V6(s) => (
            6,
            ((s[0] as u64 * 0x1_0000 + s[1] as u64) * 0x1_0000 + s[2] as u64) * 0x1_0000
                + s[3] as u64,
            ((s[4] as u64 * 0x1_0000 + s[5] as u64) * 0x1_0000 + s[6] as u64) * 0x1_0000
                + s[7] as u64,
        ),
    }
}

/// What a limiter holds: the requests allowed in a window, the windows, and how
/// many requests were rejected.
pub struct Limiter {
    pub limit: u64,
    pub windows: Map<(u8, u64, u64), (u64, u64)>,
    pub limited: u64,
}

/// A window after one more request: a window that has ended begins anew.
pub open spec fn counted(window: (u64, u64), now_ns: u64) -> (u64, u64) {
    if elapsed(window.0, now_ns) >= WINDOW_NS {
        (now_ns, 1)
    } else if window.1 == u64::MAX {
        window
    } else {
        (window.0, (window.1 + 1) as u64)
    }
}

/// The whole seconds until a window ends, at least one.
pub open spec fn wait_secs(from_ns: u64, now_ns: u64) -> u64 {
    let left = 60 - elapsed(from_ns, now_ns) / 1_000_000_000;
    if left < 1 {
        1
    } else {
        left as u64
    }
}

/// What a request from an address does at a time: the limiter after it, and
/// either nothing or the seconds to wait.
pub open spec fn checked(l: Limiter, ip: Option<IpAddr>, now_ns: u64) -> (Limiter, Result<(), u64>) {
    if l.limit == 0 || ip is None {
        (l, Ok(()))
    } else {
        let key = address_key(ip->0);
        let kept = if l.windows.len() > MAX_ENTRIES {
            live_windows(l.windows, now_ns)
        } else {
            l.windows
        };
        let window = counted(
            if kept.contains_key(key) {
                kept[key]
            } else {
                (now_ns, 0u64)
            },
            now_ns,
        );
        let windows = kept.insert(key, window);
        if window.1 > l.limit {
            (
                Limiter { windows, limited: l.limited.wrapping_add(1), ..l },
                Err(wait_secs(window.0, now_ns)),
            )
        } else {
            (Limiter { windows, ..l }, Ok(()))
        }
    }
}

/// The per-IP limiter.
pub struct IpLimiter {
    limit: u64,
    map: DashMap<(u8, u64, u64), (u64, u64)>,
    limited: u64,
    start: Instant,
}

impl View for IpLimiter {
    type V = Limiter;

    closed spec fn view(&self) -> Limiter {
        Limiter { limit: self.limit, windows: window_entries(self.map), limited: self.limited }
    }
}

impl IpLimiter {
    /// A limiter that allows so many requests in sixty seconds; zero disables
    /// it.
    pub fn new(limit_per_min: u64) -> (r: Self)
        ensures
            r@ == (Limiter { limit: limit_per_min, windows: Map::empty(), limited: 0 }),
    {
        IpLimiter { limit: limit_per_min, map: new_windows(), limited: 0, start: clock_start() }
    }

    pub fn enabled(&self) -> (r: bool)
        ensures
            r == (self@.limit > 0),
    {
        self.limit > 0
    }

    /// How many requests were rejected.
    pub fn limited_total(&self) -> (r: u64)
        ensures
            r == self@.limited,
    {
        self.limited
    }

    /// Records a request from an address at a time; the error is the seconds to
    /// wait.
    pub fn check_at(&mut self, ip: Option<IpAddr>, now_ns: u64) -> (r: Result<(), u64>)
        ensures
            (final(self)@, r) == checked(old(self)@, ip, now_ns),
    {
        if self.limit == 0 {
            return Ok(());
        }
        let key = match ip {
            Some(ip) => key_of(ip),
            None => {
                return Ok(());
            },
        };
        if windows_len(&self.map) > MAX_ENTRIES {
            keep_live_windows(&mut self.map, now_ns);
        }
        let found = match get_window(&self.map, key) {
            Some(w) => w,
            None => (now_ns, 0u64),
        };
        let window = if elapsed_ns(found.0, now_ns) >= WINDOW_NS {
            (now_ns, 1u64)
        } else if found.1 == u64::MAX {
            found
        } else {
            (found.0, found.1 + 1)
        };
        put_window(&mut self.map, key, window);
        if window.1 > self.limit {
            self.limited = self.limited.wrapping_add(1);
            let secs: u64 = elapsed_ns(window.0, now_ns) / 1_000_000_000;
            return Err(
                if secs >= 60 {
                    1
                } else {
                    60 - secs
                },
            );
        }
        Ok(())
    }

    /// Records a request from an address now; the error is the seconds to wait.
    pub fn check(&mut self, ip: Option<IpAddr>) -> (r: Result<(), u64>)
        ensures
            exists|now_ns: u64| (final(self)@, r) == #[trigger] checked(old(self)@, ip, now_ns),
    {
        let now_ns = nanos_since(&self.start);
        self.check_at(ip, now_ns)
    }
}

/// Different addresses have different windows.
pub proof fn law_addresses_are_told_apart(a: IpAddr, b: IpAddr)
    requires
        address_key(a) == address_key(b),
    ensures
        match (a, b) {
            (IpAddr::V4(a0, a1, a2, a3), IpAddr::V4(b0, b1, b2, b3)) => a0 == b0 && a1 == b1 && a2
                == b2 && a3 == b3,
            (IpAddr::V6(s), IpAddr::V6(t)) => s@ == t@,
            _ => false,
        },
{
    if let (IpAddr::V6(s), IpAddr::V6(t)) = (a, b) {
        assert(s@ =~= t@);
    }
}

/// A request of one address leaves the windows of the others as they are, as
/// long as there is room.
pub proof fn law_addresses_do_not_interfere(l: Limiter, ip: IpAddr, other: IpAddr, now_ns: u64)
    requires
        address_key(ip) != address_key(other),
        l.windows.len() <= MAX_ENTRIES,
    ensures
        ({
            let after = checked(l, Some(ip), now_ns).0;
            let key = address_key(other);
            &&& after.windows.contains_key(key) == l.windows.contains_key(key)
            &&& l.windows.contains_key(key) ==> after.windows[key] == l.windows[key]
        }),
{
}

/// A request: the address that it came from, if it is known, and its time.
pub struct Call {
    pub ip: Option<IpAddr>,
    pub now_ns: u64,
}

/// A limiter after some requests.
pub open spec fn after_calls(l: Limiter, calls: Seq<Call>) -> Limiter
    decreases calls.len(),
{
    if calls.len() == 0 {
        l
    } else {
        checked(after_calls(l, calls.drop_last()), calls.last().ip, calls.last().now_ns).0
    }
}

/// What the last of some requests is told.
pub open spec fn last_answer(l: Limiter, calls: Seq<Call>) -> Result<(), u64> {
    checked(after_calls(l, calls.drop_last()), calls.last().ip, calls.last().now_ns).1
}

/// How many of some requests came from an address.
pub open spec fn times_asked(calls: Seq<Call>, key: (u8, u64, u64)) -> nat
    decreases calls.len(),
{
    if calls.len() == 0 {
        0
    } else {
        let before = times_asked(calls.drop_last(), key);
        if calls.last().ip matches Some(ip) && address_key(ip) == key {
            before + 1
        } else {
            before
        }
    }
}

/// How many of some requests were refused.
pub open spec fn times_refused(l: Limiter, calls: Seq<Call>) -> nat
    decreases calls.len(),
{
    if calls.len() == 0 {
        0
    } else {
        let before = times_refused(l, calls.drop_last());
        if last_answer(l, calls) is Err {
            before + 1
        } else {
            before
        }
    }
}

/// Whether some requests all fall into the sixty seconds from a time on.
pub open spec fn in_one_window(calls: Seq<Call>, start_ns: u64) -> bool {
    forall|i: int|
        0 <= i < calls.len() ==> start_ns <= (#[trigger] calls[i]).now_ns && calls[i].now_ns
            - start_ns < WINDOW_NS
}

/// A new limiter.
pub open spec fn new_limiter(limit: u64) -> Limiter {
    Limiter { limit, windows: Map::empty(), limited: 0 }
}

/// In one window exactly the first `limit` requests of an address are allowed,
/// at whatever times they come and whatever other addresses do. A refused one is
/// told to wait from one to sixty seconds, and refusals are counted. A request
/// of no known address is always allowed, and without a limit every one is.
pub proof fn law_limit_per_window(limit: u64, calls: Seq<Call>, start_ns: u64)
    requires
        calls.len() > 0,
        calls.len() <= u64::MAX,
        in_one_window(calls, start_ns),
    ensures
        last_answer(new_limiter(limit), calls) is Ok == (limit == 0 || match calls.last().ip {
            Some(ip) => times_asked(calls, address_key(ip)) <= limit,
            None => true,
        }),
        last_answer(new_limiter(limit), calls) matches Err(wait) ==> 1 <= wait <= 60,
        after_calls(new_limiter(limit), calls).limited == times_refused(new_limiter(limit), calls),
{
    lemma_calls(limit, calls.drop_last(), start_ns);
    lemma_calls(limit, calls, start_ns);
    lemma_one_call(limit, calls, start_ns);
}

/// Whether a limiter holds the window of an address after some requests in one
/// window: none where it did not ask, and else one with its count.
spec fn holds_window(
    l: Limiter,
    calls: Seq<Call>,
    start_ns: u64,
    key: (u8, u64, u64),
) -> bool {
    &&& l.windows.contains_key(key) == (l.limit > 0 && times_asked(calls, key) > 0)
    &&& l.windows.contains_key(key) ==> {
        &&& start_ns <= l.windows[key].0
        &&& l.windows[key].0 - start_ns < WINDOW_NS
        &&& l.windows[key].1 == times_asked(calls, key)
    }
}

/// What a new limiter holds after some requests in one window.
spec fn holds_calls(l: Limiter, limit: u64, calls: Seq<Call>, start_ns: u64) -> bool {
    &&& l.limit == limit
    &&& l.limited == times_refused(new_limiter(limit), calls)
    &&& times_refused(new_limiter(limit), calls) <= calls.len()
    &&& forall|key: (u8, u64, u64)| #[trigger] holds_window(l, calls, start_ns, key)
}

proof fn lemma_times_asked(calls: Seq<Call>, key: (u8, u64, u64))
    ensures
        times_asked(calls, key) <= calls.len(),
    decreases calls.len(),
{
    if calls.len() > 0 {
        lemma_times_asked(calls.drop_last(), key);
    }
}

proof fn lemma_calls(limit: u64, calls: Seq<Call>, start_ns: u64)
    requires
        calls.len() <= u64::MAX,
        in_one_window(calls, start_ns),
    ensures
        holds_calls(after_calls(new_limiter(limit), calls), limit, calls, start_ns),
    decreases calls.len(),
{
    if calls.len() > 0 {
        let before = calls.drop_last();
        assert forall|i: int| 0 <= i < before.len() implies start_ns <= (
        #[trigger] before[i]).now_ns && before[i].now_ns - start_ns < WINDOW_NS by {
            assert(before[i] == calls[i]);
        }
        lemma_calls(limit, before, start_ns);
        lemma_one_call(limit, calls, start_ns);
    }
}

proof fn lemma_one_call(limit: u64, calls: Seq<Call>, start_ns: u64)
    requires
        0 < calls.len() <= u64::MAX,
        in_one_window(calls, start_ns),
        holds_calls(
            after_calls(new_limiter(limit), calls.drop_last()),
            limit,
            calls.drop_last(),
            start_ns,
        ),
    ensures
        holds_calls(after_calls(new_limiter(limit), calls), limit, calls, start_ns),
        last_answer(new_limiter(limit), calls) is Ok == (limit == 0 || match calls.last().ip {
            Some(ip) => times_asked(calls, address_key(ip)) <= limit,
            None => true,
        }),
        last_answer(new_limiter(limit), calls) matches Err(wait) ==> 1 <= wait <= 60,
{
    let before = calls.drop_last();
    let l = after_calls(new_limiter(limit), before);
    let next = after_calls(new_limiter(limit), calls);
    let call = calls.last();
    assert(call == calls[calls.len() - 1]);
    if limit > 0 && call.ip is Some {
        let key = address_key(call.ip->0);
        assert(holds_window(l, before, start_ns, key));
        lemma_times_asked(before, key);
        assert(live_windows(l.windows, call.now_ns) =~= l.windows) by {
            assert forall|k: (u8, u64, u64)| l.windows.contains_key(k) implies live(
                l.windows[k].0,
                call.now_ns,
            ) by {
                assert(holds_window(l, before, start_ns, k));
            }
        }
        assert(next.windows.contains_key(key));
        assert(next.windows[key].1 == times_asked(calls, key));
    }
    assert forall|k: (u8, u64, u64)| #[trigger] holds_window(next, calls, start_ns, k) by {
        assert(holds_window(l, before, start_ns, k));
    }
}

/// A window is a minute: within it requests are counted one by one from its
/// beginning, and a minute after its beginning the next request begins a new one.
pub proof fn law_windows_are_a_minute(from_ns: u64, count: u64, now_ns: u64)
    requires
        count < u64::MAX,
    ensures
        now_ns < from_ns + 60_000_000_000 ==> counted((from_ns, count), now_ns) == (
            from_ns,
            (count + 1) as u64,
        ),
        now_ns >= from_ns + 60_000_000_000 ==> counted((from_ns, count), now_ns) == (now_ns, 1u64),
{
}

/// The wait is the rest of the minute: time passed and wait make up a minute, and
/// nobody waits less than a second or more than a minute.
pub proof fn law_wait_is_the_rest_of_the_minute(from_ns: u64, now_ns: u64)
    ensures
        1 <= wait_secs(from_ns, now_ns) <= 60,
        from_ns <= now_ns < from_ns + 60_000_000_000 ==> {
            let end = from_ns + 60_000_000_000;
            let back = now_ns + wait_secs(from_ns, now_ns) * 1_000_000_000;
            end <= back < end + 1_000_000_000
        },
        now_ns <= from_ns ==> wait_secs(from_ns, now_ns) == 60,
        now_ns >= from_ns + 60_000_000_000 ==> wait_secs(from_ns, now_ns) == 1,
{
}

/// A limit of zero limits nobody and counts nothing, and neither does a request
/// without an address. Any other request is counted under its own address.
pub proof fn law_requests_are_counted(l: Limiter, ip: IpAddr, now_ns: u64)
    ensures
        l.limit == 0 ==> checked(l, Some(ip), now_ns) == (l, Ok::<(), u64>(())),
        checked(l, None, now_ns) == (l, Ok::<(), u64>(())),
        l.limit > 0 ==> {
            let (after, answer) = checked(l, Some(ip), now_ns);
            let key = address_key(ip);
            &&& after.windows.contains_key(key)
            &&& answer is Ok <==> after.windows[key].1 <= l.limit
            &&& answer is Err ==> after.limited == l.limited.wrapping_add(1)
            &&& answer is Ok ==> after.limited == l.limited
            &&& after.limit == l.limit
            &&& !l.windows.contains_key(key) ==> after.windows[key] == (now_ns, 1u64)
        },
{
}

/// A full table sheds windows that began two minutes ago or more, and no other.
pub proof fn law_old_windows_are_shed(l: Limiter, ip: IpAddr, other: IpAddr, now_ns: u64)
    requires
        l.limit > 0,
        address_key(ip) != address_key(other),
        l.windows.contains_key(address_key(other)),
    ensures
        ({
            let began = l.windows[address_key(other)].0;
            let kept = checked(l, Some(ip), now_ns).0.windows.contains_key(address_key(other));
            &&& l.windows.len() <= 100_000 ==> kept
            &&& now_ns < began + 120_000_000_000 ==> kept
            &&& l.windows.len() > 100_000 && now_ns >= began + 120_000_000_000 ==> !kept
        }),
{
}

/// Time passed is what lies between two moments, and none where the second is not
/// after the first.
pub proof fn law_time_only_passes(from_ns: u64, now_ns: u64)
    ensures
        now_ns <= from_ns ==> elapsed(from_ns, now_ns) == 0,
        from_ns <= now_ns ==> from_ns + elapsed(from_ns, now_ns) == now_ns,
{
}

/// An address is kept under its kind and its number, the first part the most
/// significant.
pub proof fn law_addresses_are_kept_by_number(a: u8, b: u8, c: u8, d: u8, s: [u16; 8])
    ensures
        address_key(IpAddr::V4(a, b, c, d)) == (
            4u8,
            0u64,
            (a * 16_777_216 + b * 65_536 + c * 256 + d) as u64,
        ),
        address_key(IpAddr::V6(s)).0 == 6,
        address_key(IpAddr::V6(s)).1 as int == s@[0] * 0x1_0000_0000_0000 + s@[1] * 0x1_0000_0000
            + s@[2] * 0x1_0000 + s@[3],
        address_key(IpAddr::V6(s)).2 as int == s@[4] * 0x1_0000_0000_0000 + s@[5] * 0x1_0000_0000
            + s@[6] * 0x1_0000 + s@[7],
{
}

} // verus!
