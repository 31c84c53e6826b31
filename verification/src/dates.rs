//! Calendar dates: parsing of ISO `YYYY-MM-DD` strings and ordering.

use vstd::prelude::*;
use crate::text::{is_ascii_digit, digit_val};

verus! {

/// A calendar date.
#[derive(Clone, Copy, PartialEq, Eq, Structural, Debug)]
pub struct Ymd {
    pub year: u32,
    pub month: u32,
    pub day: u32,
}

pub open spec fn is_leap(y: int) -> bool {
    y % 4 == 0 && (y % 100 != 0 || y % 400 == 0)
}

pub open spec fn days_in_month(y: int, m: int) -> int {
    if m == 2 {
        if is_leap(y) {
            29int
        } else {
            28int
        }
    } else if m == 4 || m == 6 || m == 9 || m == 11 {
        30int
    } else {
        31int
    }
}

/// A real calendar date.
pub open spec fn valid_ymd(d: Ymd) -> bool {
    &&& 1 <= d.month <= 12
    &&& 1 <= d.day <= days_in_month(d.year as int, d.month as int)
}

/// Strict chronological order, component-wise.
pub open spec fn ymd_gt(a: Ymd, b: Ymd) -> bool {
    ||| a.year > b.year
    ||| (a.year == b.year && a.month > b.month)
    ||| (a.year == b.year && a.month == b.month && a.day > b.day)
}

/// What a ten-character `YYYY-MM-DD` string must look like to denote a
/// real calendar date.
pub open spec fn well_formed_ymd(s: Seq<char>) -> bool {
    &&& s.len() == 10
    &&& is_ascii_digit(s[0]) && is_ascii_digit(s[1]) && is_ascii_digit(s[2]) && is_ascii_digit(
        s[3],
    )
    &&& s[4] == '-'
    &&& is_ascii_digit(s[5]) && is_ascii_digit(s[6])
    &&& s[7] == '-'
    &&& is_ascii_digit(s[8]) && is_ascii_digit(s[9])
    &&& valid_ymd(ymd_of(s))
}

/// The date a well-formed `YYYY-MM-DD` string denotes.
pub open spec fn ymd_of(s: Seq<char>) -> Ymd {
    Ymd {
        year: (digit_val(s[0]) * 1000 + digit_val(s[1]) * 100 + digit_val(s[2]) * 10 + digit_val(
            s[3],
        )) as u32,
        month: (digit_val(s[5]) * 10 + digit_val(s[6])) as u32,
        day: (digit_val(s[8]) * 10 + digit_val(s[9])) as u32,
    }
}

/// The date denoted by `s`, if `s` is a well-formed ISO date.
pub open spec fn spec_parse_ymd(s: Seq<char>) -> Option<Ymd> {
    if well_formed_ymd(s) {
        Some(ymd_of(s))
    } else {
        None
    }
}

fn digit_at(s: &str, i: usize) -> (r: Option<u32>)
    requires
        i < s@.len(),
    ensures
        r matches Some(v) ==> is_ascii_digit(s@[i as int]) && v == digit_val(s@[i as int]),
        r is None ==> !is_ascii_digit(s@[i as int]),
{
    let u = s.get_char(i) as u32;
    if 48 <= u && u <= 57 {
        Some(u - 48)
    } else {
        None
    }
}

/// Parses an ISO `YYYY-MM-DD` string into a real calendar date.
pub fn parse_ymd(s: &str) -> (r: Option<Ymd>)
    ensures
        r == spec_parse_ymd(s@),
{
    let n = s.unicode_len();
    if n != 10 {
        return None;
    }
    if s.get_char(4) != '-' || s.get_char(7) != '-' {
        return None;
    }
    let d0 = match digit_at(s, 0) {
        Some(v) => v,
        None => {
            return None;
        },
    };
    let d1 = match digit_at(s, 1) {
        Some(v) => v,
        None => {
            return None;
        },
    };
    let d2 = match digit_at(s, 2) {
        Some(v) => v,
        None => {
            return None;
        },
    };
    let d3 = match digit_at(s, 3) {
        Some(v) => v,
        None => {
            return None;
        },
    };
    let m0 = match digit_at(s, 5) {
        Some(v) => v,
        None => {
            return None;
        },
    };
    let m1 = match digit_at(s, 6) {
        Some(v) => v,
        None => {
            return None;
        },
    };
    let y0 = match digit_at(s, 8) {
        Some(v) => v,
        None => {
            return None;
        },
    };
    let y1 = match digit_at(s, 9) {
        Some(v) => v,
        None => {
            return None;
        },
    };
    let year = d0 * 1000 + d1 * 100 + d2 * 10 + d3;
    let month = m0 * 10 + m1;
    let day = y0 * 10 + y1;
    let date = Ymd { year, month, day };
    if month < 1 || month > 12 {
        return None;
    }
    let max_day = days_in_month_exec(year, month);
    if day < 1 || day > max_day {
        return None;
    }
    Some(date)
}

fn days_in_month_exec(y: u32, m: u32) -> (r: u32)
    ensures
        r == days_in_month(y as int, m as int),
{
    if m == 2 {
        if y % 4 == 0 && (y % 100 != 0 || y % 400 == 0) {
            29
        } else {
            28
        }
    } else if m == 4 || m == 6 || m == 9 || m == 11 {
        30
    } else {
        31
    }
}

/// Relies on `chrono::Local::now`, `NaiveDate::checked_add_signed` and the
/// `Datelike` accessors: the local calendar date `days` days ahead. The
/// result depends on the clock, so only the documented component ranges
/// (month 1 to 12, day 1 to 31) are promised.
#[verifier::external_body]
pub fn current_date_plus_days(days: u32) -> (r: Ymd)
    ensures
        1 <= r.month <= 12,
        1 <= r.day <= 31,
{
    let today = chrono::Local::now().date_naive();
    let ahead = today.checked_add_signed(chrono::Duration::days(days as i64)).unwrap_or(today);
    let y = chrono::Datelike::year(&ahead);
    let year = if y < 0 {
        0
    } else {
        y as u32
    };
    Ymd { year, month: chrono::Datelike::month(&ahead), day: chrono::Datelike::day(&ahead) }
}

/// The hard stop of the fixture scan: thirty days from today.
pub fn fixture_date_limit() -> (r: Ymd)
    ensures
        1 <= r.month <= 12,
        1 <= r.day <= 31,
{
    current_date_plus_days(30)
}

/// Is `a` strictly after `b`?
pub fn ymd_after(a: Ymd, b: Ymd) -> (r: bool)
    ensures
        r == ymd_gt(a, b),
{
    a.year > b.year || (a.year == b.year && a.month > b.month) || (a.year == b.year && a.month
        == b.month && a.day > b.day)
}

} // verus!
