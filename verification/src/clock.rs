//! Points in time in UTC.

use crate::text::same;
use chrono::Datelike;
use vstd::prelude::*;

verus! {

/// The first second that `chrono` represents: the start of the year -262143.
pub const MIN_SECS: i64 = -8_334_601_228_800;

/// The last second that `chrono` represents: the end of the year 262142.
pub const MAX_SECS: i64 = 8_210_266_876_799;

/// A point in time: seconds since 1970-01-01T00:00:00Z, and nanoseconds. From a
/// thousand million on, the nanoseconds lie in a leap second.
#[derive(Debug, Clone, Copy, PartialEq, Eq, Structural)]
pub struct Timestamp {
    pub secs: i64,
    pub nanos: u32,
}

impl Timestamp {
    /// Whether `chrono` represents the time.
    pub open spec fn wf(self) -> bool {
        &&& MIN_SECS <= self.secs <= MAX_SECS
        &&& self.nanos < 2_000_000_000
        &&& self.nanos >= 1_000_000_000 ==> self.secs % 60 == 59
    }

    /// Whether a time is one that a clock shows, outside a leap second.
    pub open spec fn plain(self) -> bool {
        self.wf() && self.nanos < 1_000_000_000
    }

    /// Whether a time lies in a year of four digits.
    pub open spec fn dated(self) -> bool {
        -62_167_219_200 <= self.secs <= 253_402_300_799
    }

    /// Whether a time is not later than another.
    pub open spec fn at_most(self, other: Timestamp) -> bool {
        self.secs < other.secs || (self.secs == other.secs && self.nanos <= other.nanos)
    }

    /// Whether the time is not later than another.
    pub fn not_after(self, other: Timestamp) -> (r: bool)
        ensures
            r == self.at_most(other),
    {
        self.secs < other.secs || (self.secs == other.secs && self.nanos <= other.nanos)
    }

    /// The time so many seconds later.
    pub open spec fn later(self, secs: int) -> Timestamp {
        Timestamp { secs: (self.secs + secs) as i64, nanos: self.nanos }
    }

    /// The time so many seconds later.
    pub fn plus(self, secs: i64) -> (r: Timestamp)
        requires
            self.plain(),
            MIN_SECS <= self.secs + secs <= MAX_SECS,
        ensures
            r == self.later(secs as int),
            r.plain(),
    {
        Timestamp { secs: self.secs + secs, nanos: self.nanos }
    }

    /// The midnight at which the day began.
    pub open spec fn midnight(self) -> Timestamp {
        Timestamp { secs: (self.secs - self.secs % 86_400) as i64, nanos: 0 }
    }
}

/// The time that an RFC 3339 text states, as seconds and nanoseconds.
pub uninterp spec fn rfc3339_time(text: Seq<char>) -> Option<(int, int)>;

/// A time written as RFC 3339 in UTC.
pub uninterp spec fn rfc3339_text(secs: int, nanos: int) -> Seq<char>;

/// The day of the month of a time in UTC, from its seconds.
pub uninterp spec fn month_day(secs: int) -> int;

/// The whole seconds from the second time to the first, towards zero.
pub uninterp spec fn seconds_apart(secs: int, nanos: int, from_secs: int, from_nanos: int) -> int;

/// The time that a stored text states; `None` where it states none.
pub open spec fn time_in(text: Seq<char>) -> Option<Timestamp> {
    match rfc3339_time(text) {
        Some((secs, nanos)) => Some(Timestamp { secs: secs as i64, nanos: nanos as u32 }),
        None => None,
    }
}

/// `DateTime::parse_from_rfc3339`, read as seconds and nanoseconds. A text that
/// parses is a time that `chrono` represents.
#[verifier::external_body]
fn read_rfc3339(text: &str) -> (r: Option<(i64, u32)>)
    ensures
        match r {
            Some((secs, nanos)) => rfc3339_time(text@) == Some((secs as int, nanos as int)) && (
                Timestamp { secs, nanos }).wf(),
            None => rfc3339_time(text@) is None,
        },
{
    let t = chrono::DateTime::parse_from_rfc3339(text).ok()?;
    Some((t.timestamp(), t.timestamp_subsec_nanos()))
}

/// `DateTime::<Utc>::to_rfc3339`. In the years of four digits
/// `DateTime::parse_from_rfc3339` reads the same time back; other years are
/// written with a sign, which it refuses.
#[verifier::external_body]
fn write_rfc3339(secs: i64, nanos: u32) -> (r: String)
    requires
        (Timestamp { secs, nanos }).wf(),
    ensures
        r@ == rfc3339_text(secs as int, nanos as int),
        (Timestamp { secs, nanos }).dated() ==> rfc3339_time(r@) == Some(
            (secs as int, nanos as int),
        ),
{
    chrono::DateTime::<chrono::Utc>::from_timestamp(secs, nanos).map_or(
        String::new(),
        |t| t.to_rfc3339(),
    )
}

/// `Datelike::day` of a time in UTC: from one to 31.
#[verifier::external_body]
fn day_of_month(secs: i64) -> (r: u32)
    requires
        MIN_SECS <= secs <= MAX_SECS,
    ensures
        r == month_day(secs as int),
        1 <= r <= 31,
        MIN_SECS <= secs - secs % 86_400 - (r - 1) * 86_400,
{
    chrono::DateTime::<chrono::Utc>::from_timestamp(secs, 0).map_or(1, |t| t.day())
}

/// `Utc::now`: nothing is promised of the time but that `chrono` represents it
/// and that it is not before 1970.
#[verifier::external_body]
pub(crate) fn now() -> (r: Timestamp)
    ensures
        r.plain(),
        r.secs >= 0,
{
    let t = chrono::Utc::now();
    Timestamp { secs: t.timestamp(), nanos: t.timestamp_subsec_nanos() }
}

/// `TimeDelta::num_seconds` of the difference of two times. Outside leap
/// seconds it is the difference in nanoseconds, cut to whole seconds towards
/// zero.
#[verifier::external_body]
fn difference(secs: i64, nanos: u32, from_secs: i64, from_nanos: u32) -> (r: i64)
    requires
        (Timestamp { secs, nanos }).wf(),
        (Timestamp { secs: from_secs, nanos: from_nanos }).wf(),
    ensures
        r == seconds_apart(secs as int, nanos as int, from_secs as int, from_nanos as int),
        nanos < 1_000_000_000 && from_nanos < 1_000_000_000 ==> r == whole_seconds(
            secs - from_secs,
            nanos - from_nanos,
        ),
{
    let a = chrono::DateTime::<chrono::Utc>::from_timestamp(secs, nanos).unwrap_or_default();
    let b = chrono::DateTime::<chrono::Utc>::from_timestamp(from_secs, from_nanos).unwrap_or_default();
    (a - b).num_seconds()
}

/// Seconds and nanoseconds cut to whole seconds towards zero.
pub open spec fn whole_seconds(secs: int, nanos: int) -> int {
    if secs > 0 && nanos < 0 {
        secs - 1
    } else if secs < 0 && nanos > 0 {
        secs + 1
    } else {
        secs
    }
}

/// The time that a stored text states; `None` where it states none.
pub fn parse_dt(text: &str) -> (r: Option<Timestamp>)
    ensures
        r == time_in(text@),
        r matches Some(t) ==> t.wf(),
{
    match read_rfc3339(text) {
        Some((secs, nanos)) => Some(Timestamp { secs, nanos }),
        None => None,
    }
}

/// A time as it is stored.
pub open spec fn stored(t: Timestamp) -> Seq<char> {
    rfc3339_text(t.secs as int, t.nanos as int)
}

/// A time as it is stored. It is read back from there.
pub fn to_rfc3339(t: Timestamp) -> (r: String)
    requires
        t.wf(),
    ensures
        r@ == stored(t),
        t.dated() ==> time_in(r@) == Some(t),
{
    write_rfc3339(t.secs, t.nanos)
}

/// The whole seconds from `from` to `t`, towards zero.
pub fn seconds_between(t: Timestamp, from: Timestamp) -> (r: i64)
    requires
        t.wf(),
        from.wf(),
    ensures
        r == seconds_apart(t.secs as int, t.nanos as int, from.secs as int, from.nanos as int),
        t.plain() && from.plain() ==> r == whole_seconds(t.secs - from.secs, t.nanos - from.nanos),
{
    difference(t.secs, t.nanos, from.secs, from.nanos)
}

/// The start of a quota window that ends now: this UTC day, this UTC month from
/// its first day on, so many seconds, or a day.
pub open spec fn window_start_of(
    quota_type: Seq<char>,
    window_secs: Option<i64>,
    now: Timestamp,
) -> Timestamp {
    if quota_type == "daily"@ {
        now.midnight()
    } else if quota_type == "monthly"@ {
        now.midnight().later(-(month_day(now.secs as int) - 1) * 86_400)
    } else if quota_type == "rolling"@ {
        now.later(
            -(match window_secs {
                Some(w) => w as int,
                None => 86_400,
            }),
        )
    } else {
        now.later(-86_400)
    }
}

/// The start of a quota window that ends at `now`.
pub fn window_start_at(quota_type: &str, window_secs: Option<i64>, now: Timestamp) -> (r: Timestamp)
    requires
        now.plain(),
        MIN_SECS + 86_400 <= now.secs,
        quota_type@ == "rolling"@ && window_secs is Some ==> MIN_SECS <= now.secs - window_secs->0
            <= MAX_SECS,
    ensures
        r == window_start_of(quota_type@, window_secs, now),
        r.plain(),
{
    if same(quota_type, "daily") {
        let into: i64 = seconds_into_day(now.secs);
        Timestamp { secs: now.secs - into, nanos: 0 }
    } else if same(quota_type, "monthly") {
        let into: i64 = seconds_into_day(now.secs);
        let day: i64 = day_of_month(now.secs) as i64;
        Timestamp { secs: now.secs - into - (day - 1) * 86_400, nanos: 0 }
    } else if same(quota_type, "rolling") {
        let w: i64 = match window_secs {
            Some(w) => w,
            None => 86_400,
        };
        Timestamp { secs: now.secs - w, nanos: now.nanos }
    } else {
        Timestamp { secs: now.secs - 86_400, nanos: now.nanos }
    }
}

fn seconds_into_day(secs: i64) -> (r: i64)
    requires
        MIN_SECS <= secs <= MAX_SECS,
    ensures
        r == secs as int % 86_400,
        0 <= r < 86_400,
{
    // Moved by whole days to be non-negative.
    let moved: u64 = (secs + 8_640_000_000_000) as u64;
    let r: u64 = moved % 86_400;
    assert(r as int == secs as int % 86_400) by (nonlinear_arith)
        requires
            r as int == (secs as int + 8_640_000_000_000) % 86_400,
    ;
    r as i64
}

/// Times are in one order: of two, one is at most the other, both only where they
/// are the same, and a time some seconds on is later by as much.
pub proof fn law_times_are_ordered(a: Timestamp, b: Timestamp, c: Timestamp, secs: int)
    requires
        i64::MIN <= a.secs + secs <= i64::MAX,
    ensures
        a.at_most(b) || b.at_most(a),
        a.at_most(b) && b.at_most(a) ==> a == b,
        a.at_most(b) && b.at_most(c) ==> a.at_most(c),
        a.secs < b.secs ==> a.at_most(b) && !b.at_most(a),
        a.secs == b.secs && a.nanos < b.nanos ==> a.at_most(b) && !b.at_most(a),
        a.at_most(a.later(secs)) == (secs >= 0),
        a.later(secs).secs - a.secs == secs,
        a.later(secs).nanos == a.nanos,
{
}

/// A day's window begins at a midnight, not after now and less than a day before;
/// a month's begins at the midnight of its first day, as many days before as the
/// day of the month is past the first.
pub proof fn law_calendar_windows_begin_at_midnight(now: Timestamp, w: Option<i64>)
    requires
        now.plain(),
        1 <= month_day(now.secs as int) <= 31,
        MIN_SECS <= now.secs - 31 * 86_400,
    ensures
        ({
            let day = window_start_of("daily"@, w, now);
            let month = window_start_of("monthly"@, w, now);
            &&& day.secs as int % 86_400 == 0 && day.nanos == 0
            &&& day.secs <= now.secs < day.secs + 86_400
            &&& month.secs as int % 86_400 == 0 && month.nanos == 0
            &&& day.secs - month.secs == (month_day(now.secs as int) - 1) * 86_400
        }),
{
    lemma_window_names();
    let n = now.secs as int;
    let into = n % 86_400;
    vstd::arithmetic::div_mod::lemma_fundamental_div_mod(n, 86_400);
    let d = n / 86_400;
    let k = month_day(n) - 1;
    assert((n - into) % 86_400 == 0) by (nonlinear_arith)
        requires
            into == n % 86_400,
    ;
    assert(now.midnight().secs == n - into);
    assert(-(month_day(n) - 1) * 86_400 == -(k * 86_400)) by (nonlinear_arith)
        requires
            k == month_day(n) - 1,
    ;
    assert((n - into - k * 86_400) % 86_400 == 0) by (nonlinear_arith)
        requires
            n == 86_400 * d + into,
    ;
}

/// A rolling window is as long as asked, and any other, unless it follows the
/// calendar, is a day long.
pub proof fn law_rolling_windows_have_their_length(
    quota_type: Seq<char>,
    w: Option<i64>,
    now: Timestamp,
)
    requires
        now.plain(),
        quota_type != "daily"@,
        quota_type != "monthly"@,
        w matches Some(s) ==> i64::MIN <= now.secs - s <= i64::MAX,
    ensures
        ({
            let start = window_start_of(quota_type, w, now);
            &&& start.nanos == now.nanos
            &&& quota_type == "rolling"@ && w is Some ==> now.secs - start.secs == w->0
            &&& quota_type != "rolling"@ || w is None ==> now.secs - start.secs == 86_400
        }),
{
}

proof fn lemma_window_names()
    ensures
        "daily"@ != "monthly"@,
        "rolling"@ != "daily"@,
        "rolling"@ != "monthly"@,
{
    reveal_strlit("daily");
    reveal_strlit("monthly");
    reveal_strlit("rolling");
    assert("daily"@[0] == 'd' && "monthly"@[0] == 'm' && "rolling"@[0] == 'r');
}

/// Whole seconds between two times are those that have fully passed: the part of
/// a second is left off, whichever time is the later, and the other way round
/// the count is the same with the other sign.
pub proof fn law_part_seconds_are_left_off(secs: int, nanos: int)
    requires
        -1_000_000_000 < nanos < 1_000_000_000,
    ensures
        ({
            let n = whole_seconds(secs, nanos);
            let exact = secs * 1_000_000_000 + nanos;
            &&& exact >= 0 ==> n * 1_000_000_000 <= exact < (n + 1) * 1_000_000_000
            &&& exact <= 0 ==> (n - 1) * 1_000_000_000 < exact <= n * 1_000_000_000
            &&& whole_seconds(-secs, -nanos) == -n
        }),
{
}

/// A plain time is within the calendar and has less than a whole second behind its
/// seconds; only a leap second has more, at the end of a minute.
pub proof fn law_plain_times(t: Timestamp)
    ensures
        t.plain() <==> MIN_SECS <= t.secs <= MAX_SECS && t.nanos < 1_000_000_000,
        t.wf() && !t.plain() ==> t.secs % 60 == 59 && 1_000_000_000 <= t.nanos < 2_000_000_000,
        t.plain() ==> t.wf(),
{
}

} // verus!
