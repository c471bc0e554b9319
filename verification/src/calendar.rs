//! Proleptic Gregorian calendar arithmetic: civil date/time fields to and
//! from epoch seconds (non-leap seconds since 1970-01-01T00:00:00 UTC).

use chrono::TimeZone;
use vstd::prelude::*;

verus! {

use vstd::arithmetic::div_mod::lemma_fundamental_div_mod;
use vstd::arithmetic::div_mod::lemma_mod_pos_bound;

/// A civil (calendar) UTC date and time, second precision.
#[derive(Clone, Copy, Debug, PartialEq, Eq, Structural)]
pub struct CivilTime {
    pub year: u64,
    pub month: u64,
    pub day: u64,
    pub hour: u64,
    pub minute: u64,
    pub second: u64,
}

pub open spec fn is_leap_year(y: int) -> bool {
    (y % 4 == 0 && y % 100 != 0) || y % 400 == 0
}

pub open spec fn days_in_year(y: int) -> int {
    if is_leap_year(y) { 366 } else { 365 }
}

pub open spec fn days_in_month(y: int, m: int) -> int {
    if m == 2 {
        if is_leap_year(y) { 29 } else { 28 }
    } else if m == 4 || m == 6 || m == 9 || m == 11 {
        30
    } else {
        31
    }
}

/// Days in year `y` strictly before the first day of month `m`.
pub open spec fn days_before_month(y: int, m: int) -> int
    decreases m,
{
    if m <= 1 { 0 } else { days_before_month(y, m - 1) + days_in_month(y, m - 1) }
}

/// Days strictly before January 1 of year `y`, counted from 1970-01-01.
pub open spec fn days_before_year(y: int) -> int
    decreases y,
{
    if y <= 1970 { 0 } else { days_before_year(y - 1) + days_in_year(y - 1) }
}

/// Day number of a civil date, with 1970-01-01 as day 0.
pub open spec fn day_number(y: int, m: int, d: int) -> int {
    days_before_year(y) + days_before_month(y, m) + (d - 1)
}

/// Non-leap seconds since 1970-01-01T00:00:00 UTC for the given civil fields.
pub open spec fn epoch_of(y: int, m: int, d: int, h: int, mi: int, s: int) -> int {
    day_number(y, m, d) * 86400 + h * 3600 + mi * 60 + s
}

/// The civil times this crate works on: the representable range of the
/// four-digit-year textual timestamp formats, on or after the epoch.
pub open spec fn valid_civil(y: int, m: int, d: int, h: int, mi: int, s: int) -> bool {
    &&& 1970 <= y <= 9999
    &&& 1 <= m <= 12
    &&& 1 <= d <= days_in_month(y, m)
    &&& 0 <= h < 24
    &&& 0 <= mi < 60
    &&& 0 <= s < 60
}

impl CivilTime {
    pub open spec fn valid(self) -> bool {
        valid_civil(
            self.year as int,
            self.month as int,
            self.day as int,
            self.hour as int,
            self.minute as int,
            self.second as int,
        )
    }

    pub open spec fn epoch(self) -> int {
        epoch_of(
            self.year as int,
            self.month as int,
            self.day as int,
            self.hour as int,
            self.minute as int,
            self.second as int,
        )
    }
}

/// Largest epoch value of a valid civil time (9999-12-31T23:59:59).
pub open spec fn max_epoch() -> int {
    epoch_of(9999, 12, 31, 23, 59, 59)
}

/// Lexicographic order on civil date/time fields; on valid civil times this
/// is chronological order.
pub open spec fn civil_le(a: CivilTime, b: CivilTime) -> bool {
    if a.year != b.year {
        a.year < b.year
    } else if a.month != b.month {
        a.month < b.month
    } else if a.day != b.day {
        a.day < b.day
    } else if a.hour != b.hour {
        a.hour < b.hour
    } else if a.minute != b.minute {
        a.minute < b.minute
    } else {
        a.second <= b.second
    }
}

proof fn lemma_dbm_monotone(y: int, m1: int, m2: int)
    requires
        m1 <= m2,
    ensures
        days_before_month(y, m1) <= days_before_month(y, m2),
    decreases m2 - m1,
{
    if m1 < m2 {
        lemma_dbm_monotone(y, m1, m2 - 1);
    }
}

proof fn lemma_dbm_full_year(y: int)
    ensures
        days_before_month(y, 13) == days_in_year(y),
{
    reveal_with_fuel(days_before_month, 14);
}

proof fn lemma_dbm_in_year(y: int, m: int)
    requires
        1 <= m <= 12,
    ensures
        0 <= days_before_month(y, m),
        days_before_month(y, m) + days_in_month(y, m) <= days_in_year(y),
{
    lemma_dbm_monotone(y, 1, m);
    assert(days_before_month(y, m + 1) == days_before_month(y, m) + days_in_month(y, m));
    lemma_dbm_monotone(y, m + 1, 13);
    lemma_dbm_full_year(y);
}

proof fn lemma_dby_monotone(y1: int, y2: int)
    requires
        y1 <= y2,
    ensures
        days_before_year(y1) <= days_before_year(y2),
    decreases y2 - y1,
{
    if y1 < y2 {
        lemma_dby_monotone(y1, y2 - 1);
    }
}

/// A valid date's day number lies within its year's range of day numbers.
proof fn lemma_day_number_bounds(y: int, m: int, d: int)
    requires
        1970 <= y,
        1 <= m <= 12,
        1 <= d <= days_in_month(y, m),
    ensures
        days_before_year(y) <= day_number(y, m, d),
        day_number(y, m, d) < days_before_year(y + 1),
{
    lemma_dbm_in_year(y, m);
    assert(days_before_year(y + 1) == days_before_year(y) + days_in_year(y));
}

/// Normalization is monotonic: lexicographic order on the civil fields of
/// two valid timestamps implies order of their epoch-seconds values. In a
/// well-formed log whose textual timestamps are non-decreasing, the
/// normalized values are therefore non-decreasing too.
pub proof fn lemma_epoch_of_monotonic(a: CivilTime, b: CivilTime)
    requires
        a.valid(),
        b.valid(),
        civil_le(a, b),
    ensures
        a.epoch() <= b.epoch(),
{
    if a != b {
        lemma_epoch_of_strict(a, b);
    }
}

/// Strict form: an earlier valid civil time has a strictly smaller epoch.
pub proof fn lemma_epoch_of_strict(a: CivilTime, b: CivilTime)
    requires
        a.valid(),
        b.valid(),
        civil_le(a, b),
        a != b,
    ensures
        a.epoch() < b.epoch(),
{
    let y1 = a.year as int;
    let m1 = a.month as int;
    let d1 = a.day as int;
    let y2 = b.year as int;
    let m2 = b.month as int;
    let d2 = b.day as int;
    if y1 == y2 && m1 == m2 && d1 == d2 {
        // same day, so a time-of-day field is strictly smaller
    } else {
        lemma_day_number_bounds(y1, m1, d1);
        lemma_day_number_bounds(y2, m2, d2);
        if y1 < y2 {
            lemma_dby_monotone(y1 + 1, y2);
        } else if m1 < m2 {
            lemma_dbm_in_year(y1, m1);
            assert(days_before_month(y1, m1 + 1) == days_before_month(y1, m1) + days_in_month(
                y1,
                m1,
            ));
            lemma_dbm_monotone(y1, m1 + 1, m2);
        }
        assert(day_number(y1, m1, d1) < day_number(y2, m2, d2));
    }
}

/// No two valid civil times share an epoch value: together with
/// `civil_from_epoch`, each representable epoch value names exactly one
/// civil time.
pub proof fn lemma_epoch_of_injective(a: CivilTime, b: CivilTime)
    requires
        a.valid(),
        b.valid(),
        a.epoch() == b.epoch(),
    ensures
        a == b,
{
    if a != b {
        if civil_le(a, b) {
            lemma_epoch_of_strict(a, b);
        } else {
            lemma_epoch_of_strict(b, a);
        }
    }
}

proof fn lemma_dby_upper(y: int)
    requires
        1970 <= y,
    ensures
        days_before_year(y) <= (y - 1970) * 366,
    decreases y,
{
    if y > 1970 {
        lemma_dby_upper(y - 1);
    }
}

/// The largest representable epoch value is far below `u64::MAX`.
pub proof fn lemma_max_epoch_bound()
    ensures
        max_epoch() < 0x8000000000,
{
    lemma_dby_upper(9999);
    lemma_dbm_in_year(9999, 12);
}

/// Every valid civil time has an epoch value between 0 and `max_epoch`,
/// which in particular fits in u64.
pub proof fn lemma_epoch_of_bounds(a: CivilTime)
    requires
        a.valid(),
    ensures
        0 <= a.epoch() <= max_epoch(),
        a.epoch() < 0x8000000000,
{
    let top = CivilTime { year: 9999, month: 12, day: 31, hour: 23, minute: 59, second: 59 };
    assert(civil_le(a, top));
    lemma_epoch_of_monotonic(a, top);
    lemma_day_number_bounds(a.year as int, a.month as int, a.day as int);
    lemma_dby_monotone(1970, a.year as int);
    lemma_max_epoch_bound();
}

fn days_in_month_x(y: u64, m: u64) -> (r: u64)
    ensures
        r as int == days_in_month(y as int, m as int),
{
    if m == 2 {
        let leap = (y % 4 == 0 && y % 100 != 0) || y % 400 == 0;
        if leap {
            29
        } else {
            28
        }
    } else if m == 4 || m == 6 || m == 9 || m == 11 {
        30
    } else {
        31
    }
}

fn days_in_year_x(y: u64) -> (r: u64)
    ensures
        r as int == days_in_year(y as int),
{
    let leap = (y % 4 == 0 && y % 100 != 0) || y % 400 == 0;
    if leap {
        366
    } else {
        365
    }
}

/// Runtime check of `CivilTime::valid`.
pub fn civil_valid(t: &CivilTime) -> (b: bool)
    ensures
        b == t.valid(),
{
    1970 <= t.year && t.year <= 9999 && 1 <= t.month && t.month <= 12 && 1 <= t.day && t.day
        <= days_in_month_x(t.year, t.month) && t.hour < 24 && t.minute < 60 && t.second < 60
}

/// Relies on chrono: `TimeZone::with_ymd_and_hms` on `Utc` builds the UTC
/// date-time in the proleptic Gregorian calendar (`Single` for every valid
/// civil UTC time), and `DateTime::timestamp` returns the count of non-leap
/// seconds since 1970-01-01T00:00:00 UTC — the value `epoch_of` denotes.
#[verifier::external_body]
pub(crate) fn epoch_from_civil(t: &CivilTime) -> (r: u64)
    requires
        t.valid(),
    ensures
        r as int == t.epoch(),
{
    chrono::Utc.with_ymd_and_hms(
        t.year as i32,
        t.month as u32,
        t.day as u32,
        t.hour as u32,
        t.minute as u32,
        t.second as u32,
    ).single().map(|dt| dt.timestamp()).unwrap_or(0) as u64
}

/// Epoch seconds of a civil time: `Some` exactly on valid civil times.
pub fn civil_to_epoch(t: &CivilTime) -> (r: Option<u64>)
    ensures
        t.valid() ==> r == Some((t.epoch() as u64)),
        !t.valid() ==> r is None,
{
    if civil_valid(t) {
        proof {
            lemma_epoch_of_bounds(*t);
        }
        Some(epoch_from_civil(t))
    } else {
        None
    }
}

/// Civil fields of an epoch value: the inverse direction of `epoch_of`.
pub fn civil_from_epoch(e: u64) -> (t: CivilTime)
    requires
        e as int <= max_epoch(),
    ensures
        t.valid(),
        t.epoch() == e as int,
{
    let days0: u64 = e / 86400;
    let rem: u64 = e % 86400;
    let h: u64 = rem / 3600;
    let rem2: u64 = rem % 3600;
    let mi: u64 = rem2 / 60;
    let s: u64 = rem2 % 60;
    proof {
        lemma_fundamental_div_mod(e as int, 86400);
        lemma_mod_pos_bound(e as int, 86400);
        lemma_fundamental_div_mod(rem as int, 3600);
        lemma_mod_pos_bound(rem as int, 3600);
        lemma_fundamental_div_mod(rem2 as int, 60);
        lemma_mod_pos_bound(rem2 as int, 60);
    }
    let ghost dn_max: int = day_number(9999, 12, 31);
    assert(days0 as int <= dn_max);
    let mut y: u64 = 1970;
    let mut days: u64 = days0;
    loop
        invariant
            1970 <= y <= 9999,
            days_before_year(y as int) + days as int == days0 as int,
            days0 as int <= dn_max,
            dn_max == day_number(9999, 12, 31),
        ensures
            1970 <= y <= 9999,
            days_before_year(y as int) + days as int == days0 as int,
            (days as int) < days_in_year(y as int),
        decreases days,
    {
        let diy = days_in_year_x(y);
        if days < diy {
            break ;
        }
        proof {
            if y == 9999 {
                lemma_dbm_in_year(9999, 12);
                assert(false);
            }
            assert(days_before_year(y as int + 1) == days_before_year(y as int) + days_in_year(
                y as int,
            ));
        }
        days = days - diy;
        y = y + 1;
    }
    let ghost doy: int = days as int;
    let mut m: u64 = 1;
    loop
        invariant
            1 <= m <= 12,
            1970 <= y <= 9999,
            days_before_month(y as int, m as int) + days as int == doy,
            doy < days_in_year(y as int),
        ensures
            1 <= m <= 12,
            days_before_month(y as int, m as int) + days as int == doy,
            (days as int) < days_in_month(y as int, m as int),
        decreases days,
    {
        let dim = days_in_month_x(y, m);
        if days < dim {
            break ;
        }
        proof {
            if m == 12 {
                lemma_dbm_full_year(y as int);
                assert(days_before_month(y as int, 13) == days_before_month(y as int, 12)
                    + days_in_month(y as int, 12));
                assert(false);
            }
        }
        days = days - dim;
        m = m + 1;
    }
    let d: u64 = days + 1;
    CivilTime { year: y, month: m, day: d, hour: h, minute: mi, second: s }
}

} // verus!
