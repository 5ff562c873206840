//! Calendar dates: strict ISO `YYYY-MM-DD` parsing and the fixed
//! "Month Day, Year" display format.

use vstd::prelude::*;

use crate::text::{
    dec_rep, dec_rep2, digit_val, is_digit, is_digit_char, u32_to_string, u32_to_string2,
};

verus! {

/// A proleptic Gregorian calendar date with a four-digit year.
#[derive(Clone, Copy, PartialEq, Eq, Structural, Debug)]
pub struct Date {
    pub year: u32,
    pub month: u32,
    pub day: u32,
}

/// Whether `y` is a leap year.
pub open spec fn is_leap_year(y: int) -> bool {
    y % 4 == 0 && (y % 100 != 0 || y % 400 == 0)
}

/// The number of days of month `m` in year `y`.
pub open spec fn days_in_month(y: int, m: int) -> int {
    if m == 2 {
        if is_leap_year(y) {
            29
        } else {
            28
        }
    } else if m == 4 || m == 6 || m == 9 || m == 11 {
        30
    } else {
        31
    }
}

/// A well-formed date: a four-digit year and a day that exists in its
/// month.
pub open spec fn date_valid(d: Date) -> bool {
    &&& d.year <= 9999
    &&& 1 <= d.month <= 12
    &&& 1 <= d.day <= days_in_month(d.year as int, d.month as int)
}

/// Chronological order on dates: by year, then month, then day.
pub open spec fn spec_date_le(a: Date, b: Date) -> bool {
    if a.year != b.year {
        a.year < b.year
    } else if a.month != b.month {
        a.month < b.month
    } else {
        a.day <= b.day
    }
}

/// The date that `s` spells in strict `YYYY-MM-DD` form, or nothing if it
/// is malformed or names a day that does not exist.
pub open spec fn spec_parse_date(s: Seq<char>) -> Option<Date> {
    if s.len() == 10 && is_digit_char(s[0]) && is_digit_char(s[1]) && is_digit_char(s[2])
        && is_digit_char(s[3]) && s[4] == '-' && is_digit_char(s[5]) && is_digit_char(s[6]) && s[7]
        == '-' && is_digit_char(s[8]) && is_digit_char(s[9]) {
        let y = digit_val(s[0]) * 1000 + digit_val(s[1]) * 100 + digit_val(s[2]) * 10 + digit_val(
            s[3],
        );
        let m = digit_val(s[5]) * 10 + digit_val(s[6]);
        let d = digit_val(s[8]) * 10 + digit_val(s[9]);
        let date = Date { year: y as u32, month: m as u32, day: d as u32 };
        if date_valid(date) {
            Some(date)
        } else {
            None
        }
    } else {
        None
    }
}

fn leap_year(y: u32) -> (r: bool)
    ensures
        r == is_leap_year(y as int),
{
    y % 4 == 0 && (y % 100 != 0 || y % 400 == 0)
}

fn month_days(y: u32, m: u32) -> (r: u32)
    ensures
        r == days_in_month(y as int, m as int),
{
    if m == 2 {
        if leap_year(y) {
            29
        } else {
            28
        }
    } else if m == 4 || m == 6 || m == 9 || m == 11 {
        30
    } else {
        31
    }
}

fn digit_at(s: &str, i: usize) -> (r: Option<u32>)
    requires
        i < s@.len(),
    ensures
        match r {
            Some(v) => is_digit_char(s@[i as int]) && v == digit_val(s@[i as int]) && v < 10,
            None => !is_digit_char(s@[i as int]),
        },
{
    let c = s.get_char(i);
    if is_digit(c) {
        Some(c as u32 - '0' as u32)
    } else {
        None
    }
}

/// Parses a strict `YYYY-MM-DD` date.
pub fn parse_iso_date(s: &str) -> (r: Option<Date>)
    ensures
        r == spec_parse_date(s@),
{
    if s.unicode_len() != 10 {
        return None;
    }
    if s.get_char(4) != '-' || s.get_char(7) != '-' {
        return None;
    }
    let d0 = match digit_at(s, 0) {
        Some(v) => v,
        None => { return None },
    };
    let d1 = match digit_at(s, 1) {
        Some(v) => v,
        None => { return None },
    };
    let d2 = match digit_at(s, 2) {
        Some(v) => v,
        None => { return None },
    };
    let d3 = match digit_at(s, 3) {
        Some(v) => v,
        None => { return None },
    };
    let d5 = match digit_at(s, 5) {
        Some(v) => v,
        None => { return None },
    };
    let d6 = match digit_at(s, 6) {
        Some(v) => v,
        None => { return None },
    };
    let d8 = match digit_at(s, 8) {
        Some(v) => v,
        None => { return None },
    };
    let d9 = match digit_at(s, 9) {
        Some(v) => v,
        None => { return None },
    };
    let date = Date {
        year: d0 * 1000 + d1 * 100 + d2 * 10 + d3,
        month: d5 * 10 + d6,
        day: d8 * 10 + d9,
    };
    if date.month < 1 || date.month > 12 {
        return None;
    }
    if date.day < 1 || date.day > month_days(date.year, date.month) {
        return None;
    }
    Some(date)
}

/// The name of month `m`.
pub open spec fn month_name(m: int) -> Seq<char> {
    if m == 1 {
        "January"@
    } else if m == 2 {
        "February"@
    } else if m == 3 {
        "March"@
    } else if m == 4 {
        "April"@
    } else if m == 5 {
        "May"@
    } else if m == 6 {
        "June"@
    } else if m == 7 {
        "July"@
    } else if m == 8 {
        "August"@
    } else if m == 9 {
        "September"@
    } else if m == 10 {
        "October"@
    } else if m == 11 {
        "November"@
    } else {
        "December"@
    }
}

/// The fixed display form of a date: the month's name, the unpadded day,
/// a comma, and the four-digit year (century and two-digit year, each
/// zero-padded to two places).
pub open spec fn spec_display_date(d: Date) -> Seq<char> {
    month_name(d.month as int) + " "@ + dec_rep(d.day as int) + ", "@ + dec_rep2(d.year as int / 100)
        + dec_rep2(d.year as int % 100)
}

fn month_name_str(m: u32) -> (r: &'static str)
    requires
        1 <= m <= 12,
    ensures
        r@ == month_name(m as int),
{
    if m == 1 {
        "January"
    } else if m == 2 {
        "February"
    } else if m == 3 {
        "March"
    } else if m == 4 {
        "April"
    } else if m == 5 {
        "May"
    } else if m == 6 {
        "June"
    } else if m == 7 {
        "July"
    } else if m == 8 {
        "August"
    } else if m == 9 {
        "September"
    } else if m == 10 {
        "October"
    } else if m == 11 {
        "November"
    } else {
        "December"
    }
}

/// Formats a date for display, as in `June 3, 2024`.
pub fn display_date(d: &Date) -> (r: String)
    requires
        date_valid(*d),
    ensures
        r@ == spec_display_date(*d),
{
    let mut s = String::from_str(month_name_str(d.month));
    s.append(" ");
    let day = u32_to_string(d.day);
    s.append(day.as_str());
    s.append(", ");
    let century = u32_to_string2(d.year / 100);
    s.append(century.as_str());
    let rest = u32_to_string2(d.year % 100);
    s.append(rest.as_str());
    s
}

/// Compares two dates chronologically.
pub fn date_le(a: &Date, b: &Date) -> (r: bool)
    ensures
        r == spec_date_le(*a, *b),
{
    if a.year != b.year {
        a.year < b.year
    } else if a.month != b.month {
        a.month < b.month
    } else {
        a.day <= b.day
    }
}

} // verus!
