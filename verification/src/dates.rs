//! Calendar dates and clock times.
//!
//! Date and time strings are parsed by chrono behind trusted wrappers whose
//! contracts state chrono's parsing behaviour exactly: optional leading
//! whitespace before each number, one or two digits per component (up to
//! four for a full year), the literal separators, nothing after the last
//! component, and calendar validity of the resolved date.  The ISO week
//! number of a date is a pure function of the date and is given a name that
//! the bucketing contracts use.
use vstd::prelude::*;

use crate::chars::{digit_run, is_digit, trim_start_spec, ws_run};
use chrono::{Datelike, Timelike};

verus! {

/// The numeric value of the first `k` digit characters of `s`.
pub open spec fn digits_val(s: Seq<char>, k: int) -> int
    decreases k,
{
    if k <= 0 {
        0
    } else {
        digits_val(s, k - 1) * 10 + ((s[k - 1] as u32) as int - 48)
    }
}

/// A digit count capped at two, the width of a two-digit numeric field.
pub open spec fn cap2(n: int) -> int {
    if n >= 2 {
        2
    } else {
        n
    }
}

/// A digit count capped at four, the width of a year field.
pub open spec fn cap4(n: int) -> int {
    if n >= 4 {
        4
    } else {
        n
    }
}

/// True in a leap year of the proleptic Gregorian calendar.
pub open spec fn is_leap_year(y: int) -> bool {
    y % 4 == 0 && (y % 100 != 0 || y % 400 == 0)
}

/// The number of days of month `m` of year `y`.
pub open spec fn days_in_month(y: int, m: int) -> int {
    if m == 1 || m == 3 || m == 5 || m == 7 || m == 8 || m == 10 || m == 12 {
        31
    } else if m == 4 || m == 6 || m == 9 || m == 11 {
        30
    } else if is_leap_year(y) {
        29
    } else {
        28
    }
}

/// A valid calendar date within the year range that chrono's `NaiveDate`
/// supports.
pub open spec fn valid_ymd(y: int, m: int, d: int) -> bool {
    -262143 <= y <= 262142 && 1 <= m <= 12 && 1 <= d <= days_in_month(y, m)
}

/// The result of parsing `s` as a clock time `HH:MM`: leading whitespace
/// skipped before each number, one or two digits each, hours below 24,
/// minutes below 60, and nothing at all after the minutes.
pub open spec fn hm_parse(s: Seq<char>) -> Option<(u32, u32)> {
    let s1 = trim_start_spec(s);
    let hk = cap2(digit_run(s1, 0));
    if hk < 1 {
        None
    } else {
        let h = digits_val(s1, hk);
        let s2 = s1.skip(hk);
        if s2.len() == 0 || s2[0] != ':' {
            None
        } else {
            let s3 = trim_start_spec(s2.skip(1));
            let mk = cap2(digit_run(s3, 0));
            if mk < 1 {
                None
            } else {
                let m = digits_val(s3, mk);
                let s4 = s3.skip(mk);
                if s4.len() != 0 {
                    None
                } else if h <= 23 && m <= 59 {
                    Some((h as u32, m as u32))
                } else {
                    None
                }
            }
        }
    }
}

/// The result of parsing `s` as a date `day.month.two-digit-year`: leading
/// whitespace skipped before each number, one or two digits per component,
/// the two-digit year resolved to 2000–2069 below 70 and to 1970–1999 from
/// 70 on, nothing at all after the year, and the resolved date checked
/// for calendar validity.
pub open spec fn dmy2_parse(s: Seq<char>) -> Option<(i32, u32, u32)> {
    let s1 = trim_start_spec(s);
    let dk = cap2(digit_run(s1, 0));
    if dk < 1 {
        None
    } else {
        let d = digits_val(s1, dk);
        let s2 = s1.skip(dk);
        if s2.len() == 0 || s2[0] != '.' {
            None
        } else {
            let s3 = trim_start_spec(s2.skip(1));
            let mk = cap2(digit_run(s3, 0));
            if mk < 1 {
                None
            } else {
                let m = digits_val(s3, mk);
                let s4 = s3.skip(mk);
                if s4.len() == 0 || s4[0] != '.' {
                    None
                } else {
                    let s5 = trim_start_spec(s4.skip(1));
                    let yk = cap2(digit_run(s5, 0));
                    if yk < 1 {
                        None
                    } else {
                        let y2 = digits_val(s5, yk);
                        let s6 = s5.skip(yk);
                        if s6.len() != 0 {
                            None
                        } else {
                            let y = if y2 < 70 {
                                2000 + y2
                            } else {
                                1900 + y2
                            };
                            if valid_ymd(y, m, d) {
                                Some((y as i32, m as u32, d as u32))
                            } else {
                                None
                            }
                        }
                    }
                }
            }
        }
    }
}

/// True when parsing `s` as `day.month.year` reaches the year field and
/// finds an explicit sign there; chrono then reads a signed year of any
/// width, a case the unsigned parse below does not describe.
pub open spec fn dmy4_reaches_sign(s: Seq<char>) -> bool {
    let s1 = trim_start_spec(s);
    let dk = cap2(digit_run(s1, 0));
    dk >= 1 && {
        let s2 = s1.skip(dk);
        s2.len() > 0 && s2[0] == '.' && {
            let s3 = trim_start_spec(s2.skip(1));
            let mk = cap2(digit_run(s3, 0));
            mk >= 1 && {
                let s4 = s3.skip(mk);
                s4.len() > 0 && s4[0] == '.' && {
                    let s5 = trim_start_spec(s4.skip(1));
                    s5.len() > 0 && (s5[0] == '+' || s5[0] == '-')
                }
            }
        }
    }
}

/// The result of parsing `s` as a date `day.month.year` with an unsigned
/// year of one to four digits, nothing after the year, checked for
/// calendar validity.
pub open spec fn dmy4_parse(s: Seq<char>) -> Option<(i32, u32, u32)> {
    let s1 = trim_start_spec(s);
    let dk = cap2(digit_run(s1, 0));
    if dk < 1 {
        None
    } else {
        let d = digits_val(s1, dk);
        let s2 = s1.skip(dk);
        if s2.len() == 0 || s2[0] != '.' {
            None
        } else {
            let s3 = trim_start_spec(s2.skip(1));
            let mk = cap2(digit_run(s3, 0));
            if mk < 1 {
                None
            } else {
                let m = digits_val(s3, mk);
                let s4 = s3.skip(mk);
                if s4.len() == 0 || s4[0] != '.' {
                    None
                } else {
                    let s5 = trim_start_spec(s4.skip(1));
                    let yk = cap4(digit_run(s5, 0));
                    if yk < 1 {
                        None
                    } else {
                        let y = digits_val(s5, yk);
                        let s6 = s5.skip(yk);
                        if s6.len() != 0 {
                            None
                        } else if valid_ymd(y, m, d) {
                            Some((y as i32, m as u32, d as u32))
                        } else {
                            None
                        }
                    }
                }
            }
        }
    }
}

/// The characters of a digit run are digits.
pub proof fn lemma_digit_run_digits(t: Seq<char>, i: int)
    requires
        0 <= i <= t.len(),
    ensures
        forall|j: int| i <= j < i + digit_run(t, i) ==> is_digit(t[j]),
    decreases t.len() - i,
{
    if i < t.len() && is_digit(t[i]) {
        lemma_digit_run_digits(t, i + 1);
    }
}

/// The value of a digit region is non-negative.
pub proof fn lemma_digits_val_nonneg(s: Seq<char>, k: int)
    requires
        0 <= k <= s.len(),
        forall|j: int| 0 <= j < k ==> is_digit(s[j]),
    ensures
        0 <= digits_val(s, k),
    decreases k,
{
    if k > 0 {
        lemma_digits_val_nonneg(s, k - 1);
        assert(is_digit(s[k - 1]));
        assert((s[k - 1] as u32) as int >= 48);
    }
}

/// A successfully parsed clock time lies within the day.
pub proof fn lemma_hm_parse_bounds(s: Seq<char>)
    ensures
        hm_parse(s) matches Some(t) ==> t.0 <= 23 && t.1 <= 59,
{
    let s1 = trim_start_spec(s);
    crate::chars::lemma_ws_run_bounds(s, 0);
    crate::chars::lemma_digit_run_bounds(s1, 0);
    let hk = cap2(digit_run(s1, 0));
    if hk >= 1 {
        assert(hk <= s1.len());
        lemma_digit_run_digits(s1, 0);
        lemma_digits_val_nonneg(s1, hk);
        let s2 = s1.skip(hk);
        if !(s2.len() == 0 || s2[0] != ':') {
            let s3 = trim_start_spec(s2.skip(1));
            crate::chars::lemma_ws_run_bounds(s2.skip(1), 0);
            crate::chars::lemma_digit_run_bounds(s3, 0);
            let mk = cap2(digit_run(s3, 0));
            if mk >= 1 {
                assert(mk <= s3.len());
                lemma_digit_run_digits(s3, 0);
                lemma_digits_val_nonneg(s3, mk);
            }
        }
    }
}

/// Relies on chrono's `NaiveTime::parse_from_str` with format `%H:%M`:
/// whitespace is trimmed before each numeric field, each field takes one
/// or two digits, the colon must follow the hour digits directly, the
/// hour and minute must be in range, and any trailing text — whitespace
/// included — is an error.
#[verifier::external_body]
pub fn parse_time_hm(s: &str) -> (r: Option<(u32, u32)>)
    ensures
        r == hm_parse(s@),
{
    match chrono::NaiveTime::parse_from_str(s, "%H:%M") {
        Ok(t) => Some((t.hour(), t.minute())),
        Err(_) => None,
    }
}

/// Relies on chrono's `NaiveDate::parse_from_str` with format `%d.%m.%y`:
/// whitespace is trimmed before each numeric field, day and month take
/// one or two digits, the two-digit year resolves below 70 to 2000 + year
/// and otherwise to 1900 + year, the date must be a valid calendar date,
/// and any trailing text — whitespace included — is an error.
#[verifier::external_body]
pub fn parse_date_dmy2(s: &str) -> (r: Option<(i32, u32, u32)>)
    ensures
        r == dmy2_parse(s@),
{
    match chrono::NaiveDate::parse_from_str(s, "%d.%m.%y") {
        Ok(d) => Some((d.year(), d.month(), d.day())),
        Err(_) => None,
    }
}

/// Relies on chrono's `NaiveDate::parse_from_str` with format `%d.%m.%Y`:
/// as with the two-digit form, but the year field takes up to four digits
/// as written.  chrono additionally accepts an explicitly signed year of
/// any width there; for such inputs only calendar validity of a successful
/// result is stated.
#[verifier::external_body]
pub fn parse_date_dmy4(s: &str) -> (r: Option<(i32, u32, u32)>)
    ensures
        !dmy4_reaches_sign(s@) ==> r == dmy4_parse(s@),
        forall|y: i32, m: u32, d: u32|
            r == Some((y, m, d)) ==> valid_ymd(y as int, m as int, d as int),
{
    match chrono::NaiveDate::parse_from_str(s, "%d.%m.%Y") {
        Ok(d) => Some((d.year(), d.month(), d.day())),
        Err(_) => None,
    }
}

/// The ISO-8601 week number of a calendar date, a pure function of the
/// date alone.
pub uninterp spec fn iso_week_of(y: int, m: int, d: int) -> u32;

/// Relies on chrono's `NaiveDate::iso_week`: the ISO-8601 week number of
/// the date, between 1 and 53, depending on the date alone.
#[verifier::external_body]
pub fn iso_week_number(y: i32, m: u32, d: u32) -> (r: u32)
    requires
        valid_ymd(y as int, m as int, d as int),
    ensures
        r == iso_week_of(y as int, m as int, d as int),
        1 <= r <= 53,
{
    match chrono::NaiveDate::from_ymd_opt(y, m, d) {
        Some(date) => date.iso_week().week(),
        None => 1,
    }
}

} // verus!
