//! Timestamp normalization: the two supported textual timestamp encodings
//! are converted to one integer epoch-seconds representation, and epoch
//! values can be formatted back to the space-separated encoding.

use vstd::prelude::*;

use crate::calendar::CivilTime;
use crate::calendar::civil_le;
use crate::calendar::lemma_epoch_of_monotonic;
use crate::calendar::max_epoch;
use crate::calendar::civil_from_epoch;
use crate::calendar::civil_to_epoch;
use crate::tokenize::copy_range;
use crate::tokenize::digit_of;
use crate::tokenize::digit_run_end;
use crate::tokenize::is_digit;
use crate::tokenize::scan_digits;

verus! {

/// The supported textual timestamp encodings.
#[derive(Clone, Copy, Debug, PartialEq, Eq, Structural)]
pub enum TsFormat {
    /// `YYYY-MM-DD HH:MM:SS`, second precision, UTC.
    Space,
    /// `YYYY-MM-DDTHH:MM:SS.fff`, fractional seconds truncated, UTC; a
    /// trailing zone marker `Z` may be present or absent.
    IsoMillis,
}

/// Value of the two digit bytes at `i`, `i + 1`.
pub open spec fn digit2(s: Seq<u8>, i: int) -> int {
    digit_of(s[i]) * 10 + digit_of(s[i + 1])
}

/// Value of the four digit bytes at `i` .. `i + 3`.
pub open spec fn digit4(s: Seq<u8>, i: int) -> int {
    digit_of(s[i]) * 1000 + digit_of(s[i + 1]) * 100 + digit_of(s[i + 2]) * 10 + digit_of(
        s[i + 3],
    )
}

/// Fixed-width date `YYYY-MM-DD`.
pub open spec fn date_fixed_matches(t: Seq<u8>) -> bool {
    &&& t.len() == 10
    &&& is_digit(t[0]) && is_digit(t[1]) && is_digit(t[2]) && is_digit(t[3])
    &&& t[4] == 45
    &&& is_digit(t[5]) && is_digit(t[6])
    &&& t[7] == 45
    &&& is_digit(t[8]) && is_digit(t[9])
}

/// Fixed-width time `HH:MM:SS`.
pub open spec fn time_fixed_matches(t: Seq<u8>) -> bool {
    &&& t.len() == 8
    &&& is_digit(t[0]) && is_digit(t[1])
    &&& t[2] == 58
    &&& is_digit(t[3]) && is_digit(t[4])
    &&& t[5] == 58
    &&& is_digit(t[6]) && is_digit(t[7])
}

/// The civil fields spelled by a fixed-width date and time.
pub open spec fn civil_of_date_time(d: Seq<u8>, t: Seq<u8>) -> CivilTime {
    CivilTime {
        year: digit4(d, 0) as u64,
        month: digit2(d, 5) as u64,
        day: digit2(d, 8) as u64,
        hour: digit2(t, 0) as u64,
        minute: digit2(t, 3) as u64,
        second: digit2(t, 6) as u64,
    }
}

/// The space-separated encoding: `YYYY-MM-DD HH:MM:SS`.
pub open spec fn space_ts_matches(s: Seq<u8>) -> bool {
    &&& s.len() == 19
    &&& date_fixed_matches(s.subrange(0, 10))
    &&& s[10] == 32
    &&& time_fixed_matches(s.subrange(11, 19))
}

pub open spec fn space_ts_civil(s: Seq<u8>) -> CivilTime {
    civil_of_date_time(s.subrange(0, 10), s.subrange(11, 19))
}

/// Epoch seconds denoted by a space-separated timestamp text: `Some`
/// exactly when the text has the right shape and spells a valid civil time.
pub open spec fn space_ts_epoch(s: Seq<u8>) -> Option<int> {
    if space_ts_matches(s) && space_ts_civil(s).valid() {
        Some(space_ts_civil(s).epoch())
    } else {
        None
    }
}

/// The ISO-like encoding: `YYYY-MM-DDTHH:MM:SS.` then one or more digits,
/// then optionally `Z`.
pub open spec fn iso_ts_matches(s: Seq<u8>) -> bool {
    &&& s.len() >= 21
    &&& date_fixed_matches(s.subrange(0, 10))
    &&& s[10] == 84
    &&& time_fixed_matches(s.subrange(11, 19))
    &&& s[19] == 46
    &&& {
        let fe = digit_run_end(s, 20);
        &&& fe > 20
        &&& (fe == s.len() || (fe == s.len() - 1 && s[s.len() - 1] == 90))
    }
}

pub open spec fn iso_ts_civil(s: Seq<u8>) -> CivilTime {
    civil_of_date_time(s.subrange(0, 10), s.subrange(11, 19))
}

/// Epoch seconds denoted by an ISO timestamp text, fraction truncated.
pub open spec fn iso_ts_epoch(s: Seq<u8>) -> Option<int> {
    if iso_ts_matches(s) && iso_ts_civil(s).valid() {
        Some(iso_ts_civil(s).epoch())
    } else {
        None
    }
}

fn check_date_shape(t: &[u8]) -> (b: bool)
    ensures
        b == date_fixed_matches(t@),
{
    t.len() == 10 && 48 <= t[0] && t[0] <= 57 && 48 <= t[1] && t[1] <= 57 && 48 <= t[2] && t[2]
        <= 57 && 48 <= t[3] && t[3] <= 57 && t[4] == 45 && 48 <= t[5] && t[5] <= 57 && 48 <= t[6]
        && t[6] <= 57 && t[7] == 45 && 48 <= t[8] && t[8] <= 57 && 48 <= t[9] && t[9] <= 57
}

fn check_time_shape(t: &[u8]) -> (b: bool)
    ensures
        b == time_fixed_matches(t@),
{
    t.len() == 8 && 48 <= t[0] && t[0] <= 57 && 48 <= t[1] && t[1] <= 57 && t[2] == 58 && 48 <= t[3]
        && t[3] <= 57 && 48 <= t[4] && t[4] <= 57 && t[5] == 58 && 48 <= t[6] && t[6] <= 57 && 48
        <= t[7] && t[7] <= 57
}

fn parse2(t: &[u8], i: usize) -> (r: u64)
    requires
        i + 2 <= t@.len(),
        is_digit(t@[i as int]),
        is_digit(t@[i + 1]),
    ensures
        r as int == digit2(t@, i as int),
{
    (t[i] - 48) as u64 * 10 + (t[i + 1] - 48) as u64
}

fn parse4(t: &[u8], i: usize) -> (r: u64)
    requires
        i + 4 <= t@.len(),
        is_digit(t@[i as int]),
        is_digit(t@[i + 1]),
        is_digit(t@[i + 2]),
        is_digit(t@[i + 3]),
    ensures
        r as int == digit4(t@, i as int),
{
    (t[i] - 48) as u64 * 1000 + (t[i + 1] - 48) as u64 * 100 + (t[i + 2] - 48) as u64 * 10 + (t[i
        + 3] - 48) as u64
}

/// Epoch seconds of a fixed-width date and time pair: `Some` exactly when
/// both have the right shape and spell a valid civil time.
pub fn parse_date_time(d: &[u8], t: &[u8]) -> (r: Option<u64>)
    ensures
        ({
            let ok = date_fixed_matches(d@) && time_fixed_matches(t@) && civil_of_date_time(
                d@,
                t@,
            ).valid();
            &&& (r is Some) == ok
            &&& ok ==> r == Some((civil_of_date_time(d@, t@).epoch() as u64))
        }),
{
    if !check_date_shape(d) {
        return None;
    }
    if !check_time_shape(t) {
        return None;
    }
    let civil = CivilTime {
        year: parse4(d, 0),
        month: parse2(d, 5),
        day: parse2(d, 8),
        hour: parse2(t, 0),
        minute: parse2(t, 3),
        second: parse2(t, 6),
    };
    civil_to_epoch(&civil)
}

/// Normalize one textual timestamp to epoch seconds, or reject it.
///
/// `Some` exactly when the text conforms to the selected encoding and
/// spells a valid civil time on or after 1970; any other text is a parse
/// error, reported as `None`.
pub fn normalize_timestamp(fmt: TsFormat, text: &[u8]) -> (r: Option<u64>)
    ensures
        fmt is Space ==> match space_ts_epoch(text@) {
            Some(e) => r == Some((e as u64)),
            None => r is None,
        },
        fmt is IsoMillis ==> match iso_ts_epoch(text@) {
            Some(e) => r == Some((e as u64)),
            None => r is None,
        },
{
    match fmt {
        TsFormat::Space => {
            if text.len() != 19 {
                return None;
            }
            if text[10] != 32 {
                return None;
            }
            let date = copy_range(text, 0, 10);
            let time = copy_range(text, 11, 19);
            parse_date_time(&date, &time)
        },
        TsFormat::IsoMillis => {
            if text.len() < 21 {
                return None;
            }
            if text[10] != 84 || text[19] != 46 {
                return None;
            }
            let fe = scan_digits(text, 20);
            if fe == 20 {
                return None;
            }
            if fe < text.len() && !(fe == text.len() - 1 && text[text.len() - 1] == 90) {
                return None;
            }
            let date = copy_range(text, 0, 10);
            let time = copy_range(text, 11, 19);
            parse_date_time(&date, &time)
        },
    }
}

/// Normalization is deterministic (the result is a function of the text)
/// and monotonic: of two space-separated timestamp texts that both
/// normalize, the one spelling the earlier or equal civil time yields the
/// smaller or equal epoch value. In a well-formed file, where textual
/// timestamps are non-decreasing in line order, normalized timestamps are
/// therefore non-decreasing too.
pub proof fn lemma_normalize_monotonic_space(s1: Seq<u8>, s2: Seq<u8>, e1: int, e2: int)
    requires
        space_ts_epoch(s1) == Some(e1),
        space_ts_epoch(s2) == Some(e2),
        civil_le(space_ts_civil(s1), space_ts_civil(s2)),
    ensures
        e1 <= e2,
{
    lemma_epoch_of_monotonic(space_ts_civil(s1), space_ts_civil(s2));
}

/// The same monotonicity for the ISO encoding.
pub proof fn lemma_normalize_monotonic_iso(s1: Seq<u8>, s2: Seq<u8>, e1: int, e2: int)
    requires
        iso_ts_epoch(s1) == Some(e1),
        iso_ts_epoch(s2) == Some(e2),
        civil_le(iso_ts_civil(s1), iso_ts_civil(s2)),
    ensures
        e1 <= e2,
{
    lemma_epoch_of_monotonic(iso_ts_civil(s1), iso_ts_civil(s2));
}

fn two_digits(x: u64) -> (r: (u8, u8))
    requires
        x < 100,
    ensures
        is_digit(r.0),
        is_digit(r.1),
        digit_of(r.0) * 10 + digit_of(r.1) == x,
{
    proof {
        vstd::arithmetic::div_mod::lemma_fundamental_div_mod(x as int, 10);
        vstd::arithmetic::div_mod::lemma_mod_pos_bound(x as int, 10);
    }
    (((x / 10) as u8) + 48, ((x % 10) as u8) + 48)
}

fn four_digits(x: u64) -> (r: (u8, u8, u8, u8))
    requires
        x < 10000,
    ensures
        is_digit(r.0),
        is_digit(r.1),
        is_digit(r.2),
        is_digit(r.3),
        digit_of(r.0) * 1000 + digit_of(r.1) * 100 + digit_of(r.2) * 10 + digit_of(r.3) == x,
{
    let q1 = x / 10;
    let r0 = x % 10;
    let q2 = q1 / 10;
    let r1 = q1 % 10;
    let q3 = q2 / 10;
    let r2 = q2 % 10;
    proof {
        vstd::arithmetic::div_mod::lemma_fundamental_div_mod(x as int, 10);
        vstd::arithmetic::div_mod::lemma_mod_pos_bound(x as int, 10);
        vstd::arithmetic::div_mod::lemma_fundamental_div_mod(q1 as int, 10);
        vstd::arithmetic::div_mod::lemma_mod_pos_bound(q1 as int, 10);
        vstd::arithmetic::div_mod::lemma_fundamental_div_mod(q2 as int, 10);
        vstd::arithmetic::div_mod::lemma_mod_pos_bound(q2 as int, 10);
    }
    ((q3 as u8) + 48, (r2 as u8) + 48, (r1 as u8) + 48, (r0 as u8) + 48)
}

/// Format an epoch-seconds value in the space-separated encoding.
///
/// The result re-normalizes to the same epoch value: formatting inverts
/// normalization on its range.
pub fn format_timestamp(e: u64) -> (out: Vec<u8>)
    requires
        e as int <= max_epoch(),
    ensures
        space_ts_matches(out@),
        space_ts_epoch(out@) == Some(e as int),
{
    let c = civil_from_epoch(e);
    let y = four_digits(c.year);
    let mo = two_digits(c.month);
    let d = two_digits(c.day);
    let h = two_digits(c.hour);
    let mi = two_digits(c.minute);
    let s = two_digits(c.second);
    let mut out: Vec<u8> = Vec::new();
    out.push(y.0);
    out.push(y.1);
    out.push(y.2);
    out.push(y.3);
    out.push(45);
    out.push(mo.0);
    out.push(mo.1);
    out.push(45);
    out.push(d.0);
    out.push(d.1);
    out.push(32);
    out.push(h.0);
    out.push(h.1);
    out.push(58);
    out.push(mi.0);
    out.push(mi.1);
    out.push(58);
    out.push(s.0);
    out.push(s.1);
    proof {
        assert(space_ts_civil(out@) == c);
    }
    out
}

} // verus!