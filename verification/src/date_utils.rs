//! Calendar arithmetic for the proleptic Gregorian calendar, anchored to
//! UTC.  Supported years are 1 through 9999; timestamps are non-negative
//! counts of seconds since the Unix epoch.  A resolved capture instant is
//! represented by [`UtcDateTime`].
use vstd::prelude::*;

use crate::text::{all_digits, digits_val, is_digit};

verus! {

/// A naive UTC instant: a calendar date plus a time of day.  No timezone
/// reasoning is done anywhere in this crate; every instant is treated as
/// UTC.
#[derive(Clone, Copy, Debug, PartialEq, Eq, Structural)]
pub struct UtcDateTime {
    pub year: u16,
    pub month: u8,
    pub day: u8,
    pub hour: u8,
    pub minute: u8,
    pub second: u8,
}

/// Gregorian leap-year rule.
pub open spec fn is_leap_year(y: int) -> bool {
    y % 4 == 0 && (y % 100 != 0 || y % 400 == 0)
}

pub open spec fn days_in_year(y: int) -> int {
    if is_leap_year(y) {
        366
    } else {
        365
    }
}

pub open spec fn days_in_month(y: int, m: int) -> int {
    if m == 2 {
        if is_leap_year(y) {
            29
        } else {
            28
        }
    } else if m == 4 || m == 6 || m == 9 || m == 11 {
        30
    } else {
        31
    }
}

/// A calendar date this crate can represent: years 1 through 9999, with a
/// valid month and day-of-month.
pub open spec fn date_valid(y: int, m: int, d: int) -> bool {
    1 <= y <= 9999 && 1 <= m <= 12 && 1 <= d <= days_in_month(y, m)
}

impl UtcDateTime {
    /// Well-formedness: a valid calendar date and a valid time of day.
    pub open spec fn wf(self) -> bool {
        date_valid(self.year as int, self.month as int, self.day as int)
            && self.hour < 24 && self.minute < 60 && self.second < 60
    }

    /// Well-formedness, decided at run time.
    pub fn check_wf(&self) -> (r: bool)
        ensures
            r == self.wf(),
    {
        1 <= self.year && self.year <= 9999 && 1 <= self.month && self.month <= 12 && 1 <= self.day
            && self.day <= days_in_month_x(self.year, self.month) && self.hour < 24 && self.minute
            < 60 && self.second < 60
    }

    pub fn year(&self) -> (r: u16)
        ensures
            r == self.year,
    {
        self.year
    }

    pub fn month(&self) -> (r: u8)
        ensures
            r == self.month,
    {
        self.month
    }

    pub fn day(&self) -> (r: u8)
        ensures
            r == self.day,
    {
        self.day
    }
}

/// Leap-year test, executable form.
pub fn leap_year(y: u16) -> (r: bool)
    ensures
        r == is_leap_year(y as int),
{
    y % 4 == 0 && (y % 100 != 0 || y % 400 == 0)
}

pub fn days_in_month_x(y: u16, m: u8) -> (r: u8)
    ensures
        r == days_in_month(y as int, m as int),
{
    if m == 2 {
        if leap_year(y) {
            29
        } else {
            28
        }
    } else if m == 4 || m == 6 || m == 9 || m == 11 {
        30
    } else {
        31
    }
}

pub fn days_in_year_x(y: u16) -> (r: u16)
    ensures
        r == days_in_year(y as int),
{
    if leap_year(y) {
        366
    } else {
        365
    }
}

/// Calendar-validity test, executable form.
pub fn date_valid_x(y: u32, m: u32, d: u32) -> (r: bool)
    ensures
        r == date_valid(y as int, m as int, d as int),
{
    1 <= y && y <= 9999 && 1 <= m && m <= 12 && 1 <= d && d <= days_in_month_x(
        y as u16,
        m as u8,
    ) as u32
}

/// The instant at local noon of a calendar date, or `None` when the date is
/// not a valid one.  Noon rather than midnight is used for dates derived
/// from filenames, so that a later reinterpretation of the instant in any
/// timezone still lands on the same calendar day.
pub fn naive_to_utc(y: i32, m: u32, d: u32) -> (r: Option<UtcDateTime>)
    ensures
        date_valid(y as int, m as int, d as int) ==> r == Some(
            UtcDateTime {
                year: y as u16,
                month: m as u8,
                day: d as u8,
                hour: 12,
                minute: 0,
                second: 0,
            },
        ),
        !date_valid(y as int, m as int, d as int) ==> r.is_none(),
        r.is_some() ==> r.unwrap().wf(),
{
    if y < 1 || y > 9999 || m < 1 || m > 12 || d < 1 {
        return None;
    }
    let yy: u16 = y as u16;
    let mm: u8 = m as u8;
    let dd_max = days_in_month_x(yy, mm);
    if d > dd_max as u32 {
        return None;
    }
    Some(UtcDateTime { year: yy, month: mm, day: d as u8, hour: 12, minute: 0, second: 0 })
}

/// Year and day-of-year of the day `days` days after the start of year `y`,
/// found by walking years forward; `None` once the walk passes year 9999.
pub open spec fn ymd_from_days(y: int, days: int) -> Option<(int, int, int)>
    decreases 10000 - y,
{
    if y >= 10000 {
        None
    } else if days < days_in_year(y) {
        Some(md_from_days(y, 1, days))
    } else {
        ymd_from_days(y + 1, days - days_in_year(y))
    }
}

/// Month and day-of-month of the day `rem` days after the start of month
/// `m` of year `y`, found by walking months forward.  The first component
/// of the result is the year `y` unchanged.
pub open spec fn md_from_days(y: int, m: int, rem: int) -> (int, int, int)
    decreases 13 - m,
{
    if m >= 12 {
        (y, 12, rem + 1)
    } else if rem < days_in_month(y, m) {
        (y, m, rem + 1)
    } else {
        md_from_days(y, m + 1, rem - days_in_month(y, m))
    }
}

/// Days in months `m` through 12 of year `y`.
pub open spec fn months_tail(y: int, m: int) -> int
    decreases 13 - m,
{
    if m > 12 {
        0
    } else {
        days_in_month(y, m) + months_tail(y, m + 1)
    }
}

proof fn lemma_year_months(y: int)
    ensures
        months_tail(y, 1) == days_in_year(y),
{
    reveal_with_fuel(months_tail, 14);
}

proof fn lemma_md_valid(y: int, m: int, rem: int)
    requires
        1 <= m <= 12,
        0 <= rem < months_tail(y, m),
    ensures
        ({
            let (yy, mm, dd) = md_from_days(y, m, rem);
            yy == y && m <= mm <= 12 && 1 <= dd <= days_in_month(y, mm)
        }),
    decreases 13 - m,
{
    if rem < days_in_month(y, m) {
    } else {
        assert(months_tail(y, m) == days_in_month(y, m) + months_tail(y, m + 1));
        lemma_md_valid(y, m + 1, rem - days_in_month(y, m));
    }
}

proof fn lemma_ymd_valid(y: int, days: int)
    requires
        1 <= y <= 10000,
        0 <= days,
    ensures
        ({
            match ymd_from_days(y, days) {
                Some((yy, mm, dd)) => date_valid(yy, mm, dd),
                None => true,
            }
        }),
    decreases 10000 - y,
{
    if y >= 10000 {
    } else if days < days_in_year(y) {
        lemma_year_months(y);
        lemma_md_valid(y, 1, days);
    } else {
        lemma_ymd_valid(y + 1, days - days_in_year(y));
    }
}

/// Total days of years `y` through 9999.
pub open spec fn days_until_10000(y: int) -> int
    decreases 10000 - y,
{
    if y >= 10000 {
        0
    } else {
        days_in_year(y) + days_until_10000(y + 1)
    }
}

proof fn lemma_days_until_bound(y: int)
    requires
        y <= 10000,
    ensures
        days_until_10000(y) <= 366 * (10000 - y),
    decreases 10000 - y,
{
    if y < 10000 {
        lemma_days_until_bound(y + 1);
    }
}

proof fn lemma_ymd_none(y: int, days: int)
    requires
        y <= 10000,
        days >= days_until_10000(y),
    ensures
        ymd_from_days(y, days) is None,
    decreases 10000 - y,
{
    if y < 10000 {
        assert(days_until_10000(y) == days_in_year(y) + days_until_10000(y + 1));
        lemma_ymd_none(y + 1, days - days_in_year(y));
    }
}

/// The UTC date and time `secs` seconds after the Unix epoch, or `None`
/// when that instant is negative or past year 9999.
pub open spec fn spec_epoch_datetime(secs: int) -> Option<UtcDateTime> {
    if secs < 0 {
        None
    } else {
        match ymd_from_days(1970, secs / 86400) {
            None => None,
            Some((y, m, d)) => Some(
                UtcDateTime {
                    year: y as u16,
                    month: m as u8,
                    day: d as u8,
                    hour: ((secs % 86400) / 3600) as u8,
                    minute: ((secs % 3600) / 60) as u8,
                    second: (secs % 60) as u8,
                },
            ),
        }
    }
}

/// Converts an epoch-seconds value to a UTC date and time by walking years
/// and then months forward from 1970-01-01.
pub fn epoch_to_datetime(secs: u64) -> (r: Option<UtcDateTime>)
    ensures
        r == spec_epoch_datetime(secs as int),
        r.is_some() ==> r.unwrap().wf(),
{
    let mut days: u64 = secs / 86400;
    let tod: u64 = secs % 86400;
    let mut y: u16 = 1970;
    proof {
        lemma_ymd_valid(1970, secs as int / 86400);
    }
    while days_in_year_x(y) as u64 <= days
        invariant
            1970 <= y <= 9999,
            ymd_from_days(1970, secs as int / 86400) == ymd_from_days(y as int, days as int),
        decreases 10000 - y,
    {
        let dy = days_in_year_x(y);
        if y == 9999 {
            proof {
                assert(ymd_from_days(y as int, days as int) == ymd_from_days(
                    10000,
                    days - days_in_year(y as int),
                ));
                assert(ymd_from_days(10000, days - days_in_year(y as int)) is None);
            }
            return None;
        }
        days = days - dy as u64;
        y = y + 1;
    }
    // days is now the day-of-year; walk the months.
    let mut m: u8 = 1;
    let mut rem: u64 = days;
    proof {
        lemma_year_months(y as int);
    }
    while days_in_month_x(y, m) as u64 <= rem
        invariant
            1 <= m <= 12,
            rem < months_tail(y as int, m as int),
            ymd_from_days(1970, secs as int / 86400) == Some(
                md_from_days(y as int, m as int, rem as int),
            ),
        decreases 13 - m,
    {
        let dm = days_in_month_x(y, m);
        proof {
            assert(months_tail(y as int, m as int) == days_in_month(y as int, m as int)
                + months_tail(y as int, m as int + 1));
            assert(m < 12) by {
                if m == 12 {
                    assert(months_tail(y as int, 13) == 0);
                }
            }
        }
        rem = rem - dm as u64;
        m = m + 1;
    }
    let day: u8 = (rem + 1) as u8;
    let hour: u8 = (tod / 3600) as u8;
    let minute: u8 = ((secs % 3600) / 60) as u8;
    let second: u8 = (secs % 60) as u8;
    proof {
        lemma_ymd_valid(1970, secs as int / 86400);
    }
    Some(UtcDateTime { year: y, month: m, day, hour, minute, second })
}

/// `s` is a decimal integer literal: an optional single `+` or `-` sign
/// followed by one or more ASCII digits and nothing else.
pub open spec fn is_int_literal(s: Seq<char>) -> bool {
    if s.len() == 0 {
        false
    } else if s[0] == '+' || s[0] == '-' {
        s.len() > 1 && all_digits(s.skip(1))
    } else {
        all_digits(s)
    }
}

/// The value of a decimal integer literal.
pub open spec fn int_literal_val(s: Seq<char>) -> int {
    if s[0] == '-' {
        -digits_val(s.skip(1))
    } else if s[0] == '+' {
        digits_val(s.skip(1))
    } else {
        digits_val(s)
    }
}

/// What resolving a timestamp string must yield: the UTC instant of the
/// epoch value it encodes, or `None` when the string is not an integer
/// literal or the instant is out of the supported range.
pub open spec fn spec_timestamp_date(s: Seq<char>) -> Option<UtcDateTime> {
    if is_int_literal(s) {
        spec_epoch_datetime(int_literal_val(s))
    } else {
        None
    }
}

/// Interprets a string-encoded count of seconds since the Unix epoch as a
/// UTC date and time.
pub fn timestamp_string_to_date(ts_str: &str) -> (r: Option<UtcDateTime>)
    ensures
        r == spec_timestamp_date(ts_str@),
        r.is_some() ==> r.unwrap().wf(),
{
    let n = ts_str.unicode_len();
    if n == 0 {
        return None;
    }
    let first = ts_str.get_char(0);
    let start: usize = if first == '+' || first == '-' {
        1
    } else {
        0
    };
    if n == start {
        return None;
    }
    let mut i: usize = start;
    let mut acc: u64 = 0;
    let mut saturated: bool = false;
    let ghost digits: Seq<char> = ts_str@.skip(start as int);
    let ghost mut v: int = 0;
    while i < n
        invariant
            start <= i <= n,
            n == ts_str@.len(),
            start == 0 || start == 1,
            digits == ts_str@.skip(start as int),
            all_digits(ts_str@.subrange(start as int, i as int)),
            v == digits_val(ts_str@.subrange(start as int, i as int)),
            !saturated ==> acc == v && v < 10_000_000_000_000,
            saturated ==> v >= 10_000_000_000_000,
        decreases n - i,
    {
        let c = ts_str.get_char(i);
        if !('0' <= c && c <= '9') {
            proof {
                if start == 1 {
                    assert(ts_str@.skip(1)[i as int - 1] == ts_str@[i as int]);
                } else {
                    assert(!is_digit(ts_str@[i as int]));
                }
            }
            return None;
        }
        proof {
            assert(ts_str@.subrange(start as int, i + 1) =~= ts_str@.subrange(
                start as int,
                i as int,
            ).push(ts_str@[i as int]));
            assert(ts_str@.subrange(start as int, i + 1).drop_last() =~= ts_str@.subrange(
                start as int,
                i as int,
            ));
            v = v * 10 + (c as int - '0' as int);
        }
        if saturated {
        } else if acc >= 1_000_000_000_000 {
            saturated = true;
        } else {
            acc = acc * 10 + (c as u64 - '0' as u64);
        }
        i = i + 1;
    }
    proof {
        assert(ts_str@.subrange(start as int, n as int) =~= digits);
        if start == 0 {
            assert(ts_str@.skip(0) =~= ts_str@);
        }
        assert(is_int_literal(ts_str@));
    }
    if saturated {
        // The value is far past year 9999: no representable date.
        proof {
            if first != '-' {
                let val = int_literal_val(ts_str@);
                lemma_days_until_bound(1970);
                vstd::arithmetic::div_mod::lemma_div_multiples_vanish(2_938_980, 86400);
                vstd::arithmetic::div_mod::lemma_div_is_ordered((86400 * 2_938_980) as int, val, 86400);
                lemma_ymd_none(1970, val / 86400);
            }
        }
        return None;
    }
    if first == '-' {
        if acc > 0 {
            return None;
        }
        return epoch_to_datetime(0);
    }
    epoch_to_datetime(acc)
}

} // verus!
