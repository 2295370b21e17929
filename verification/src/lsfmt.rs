//! Formatting for directory listings: sizes in a right-aligned column,
//! modification times as a calendar date, and the leap-year rule.
use vstd::prelude::*;

use crate::strutil::{
    format_decimal, pad_left, spec_decimal, spec_pad_left,
};
use vstd::string::StringExecFns;

verus! {

/// A size, right-aligned in an eight-column field.
pub open spec fn spec_format_size(size: nat) -> Seq<char> {
    spec_pad_left(spec_decimal(size), 8, ' ')
}

pub fn format_size(size: u64) -> (r: String)
    ensures
        r@ == spec_format_size(size as nat),
{
    pad_left(format_decimal(size).as_str(), 8, ' ')
}

/// The Gregorian leap-year rule.
pub open spec fn spec_is_leap(y: int) -> bool {
    (y % 4 == 0 && y % 100 != 0) || y % 400 == 0
}

pub fn is_leap(y: i64) -> (r: bool)
    ensures
        r == spec_is_leap(y as int),
{
    (y % 4 == 0 && y % 100 != 0) || y % 400 == 0
}

pub open spec fn spec_days_in_year(y: int) -> int {
    if spec_is_leap(y) {
        366
    } else {
        365
    }
}

/// The year that a day count from 1970 falls in, with the remaining days.
pub open spec fn spec_year_of(y: int, remaining: int) -> (int, int)
    decreases remaining,
{
    if remaining < spec_days_in_year(y) {
        (y, remaining)
    } else {
        spec_year_of(y + 1, remaining - spec_days_in_year(y))
    }
}

pub open spec fn spec_month_days(m: int, leap: bool) -> int {
    if m == 1 {
        if leap {
            29
        } else {
            28
        }
    } else if m == 3 || m == 5 || m == 8 || m == 10 {
        30
    } else {
        31
    }
}

/// The month (0-based) that a day offset within a year falls in, with the
/// remaining days.
pub open spec fn spec_month_of(m: int, remaining: int, leap: bool) -> (int, int)
    decreases 12 - m,
{
    if m >= 11 || remaining < spec_month_days(m, leap) {
        (m, remaining)
    } else {
        spec_month_of(m + 1, remaining - spec_month_days(m, leap), leap)
    }
}

pub open spec fn spec_month_name(m: int) -> Seq<char> {
    if m == 0 {
        "Jan"@
    } else if m == 1 {
        "Feb"@
    } else if m == 2 {
        "Mar"@
    } else if m == 3 {
        "Apr"@
    } else if m == 4 {
        "May"@
    } else if m == 5 {
        "Jun"@
    } else if m == 6 {
        "Jul"@
    } else if m == 7 {
        "Aug"@
    } else if m == 8 {
        "Sep"@
    } else if m == 9 {
        "Oct"@
    } else if m == 10 {
        "Nov"@
    } else {
        "Dec"@
    }
}

/// A listing time column: month name, blank-padded day, and zero-padded
/// hour and minute; a time that could not be read shows as blanks.
pub open spec fn spec_format_time(modified: Option<u64>) -> Seq<char> {
    match modified {
        None => "            "@,
        Some(secs) => {
            let days = secs as int / 86400;
            let time_of_day = secs as int % 86400;
            let hour = time_of_day / 3600;
            let minute = (time_of_day % 3600) / 60;
            let yr = spec_year_of(1970, days);
            let leap = spec_is_leap(yr.0);
            let md = spec_month_of(0, yr.1, leap);
            spec_month_name(md.0) + seq![' '] + spec_pad_left(
                spec_decimal((md.1 + 1) as nat),
                2,
                ' ',
            ) + seq![' '] + spec_pad_left(spec_decimal(hour as nat), 2, '0') + seq![':']
                + spec_pad_left(spec_decimal(minute as nat), 2, '0')
        },
    }
}

fn month_days(m: u32, leap: bool) -> (r: u32)
    ensures
        r as int == spec_month_days(m as int, leap),
{
    if m == 1 {
        if leap {
            29
        } else {
            28
        }
    } else if m == 3 || m == 5 || m == 8 || m == 10 {
        30
    } else {
        31
    }
}

fn month_name(m: u32) -> (r: String)
    ensures
        r@ == spec_month_name(m as int),
{
    if m == 0 {
        "Jan".to_owned()
    } else if m == 1 {
        "Feb".to_owned()
    } else if m == 2 {
        "Mar".to_owned()
    } else if m == 3 {
        "Apr".to_owned()
    } else if m == 4 {
        "May".to_owned()
    } else if m == 5 {
        "Jun".to_owned()
    } else if m == 6 {
        "Jul".to_owned()
    } else if m == 7 {
        "Aug".to_owned()
    } else if m == 8 {
        "Sep".to_owned()
    } else if m == 9 {
        "Oct".to_owned()
    } else if m == 10 {
        "Nov".to_owned()
    } else {
        "Dec".to_owned()
    }
}

/// Formats a modification time, given as seconds since the epoch; `None`
/// stands for a time the platform could not report.
pub fn format_time(modified: Option<u64>) -> (r: String)
    ensures
        r@ == spec_format_time(modified),
{
    let secs = match modified {
        Some(s) => s,
        None => {
            return "            ".to_owned();
        },
    };
    let days: u64 = secs / 86400;
    let time_of_day: u64 = secs % 86400;
    let hour: u64 = time_of_day / 3600;
    let minute: u64 = (time_of_day % 3600) / 60;
    let mut y: u64 = 1970;
    let mut remaining: u64 = days;
    proof {
        assert(days <= u64::MAX / 86400);
    }
    loop
        invariant
            1970 <= y,
            y - 1970 <= days - remaining,
            remaining <= days,
            days <= u64::MAX / 86400,
            spec_year_of(1970, days as int) == spec_year_of(y as int, remaining as int),
        ensures
            1970 <= y,
            y - 1970 <= days,
            days <= u64::MAX / 86400,
            remaining < spec_days_in_year(y as int),
            remaining <= days,
            spec_year_of(1970, days as int) == spec_year_of(y as int, remaining as int),
        decreases remaining,
    {
        let leap = is_leap(y as i64);
        let diy: u64 = if leap {
            366
        } else {
            365
        };
        if remaining < diy {
            break;
        }
        remaining = remaining - diy;
        y = y + 1;
    }
    proof {
        assert(spec_year_of(y as int, remaining as int) == (y as int, remaining as int));
    }
    let leap = is_leap(y as i64);
    let mut m: u32 = 0;
    let mut rem2: u64 = remaining;
    loop
        invariant
            0 <= m <= 11,
            rem2 <= remaining,
            remaining <= days,
            leap == spec_is_leap(y as int),
            spec_month_of(0, remaining as int, leap) == spec_month_of(m as int, rem2 as int, leap),
        ensures
            rem2 <= remaining,
            remaining <= days,
            leap == spec_is_leap(y as int),
            spec_month_of(0, remaining as int, leap) == spec_month_of(m as int, rem2 as int, leap),
            m >= 11 || rem2 < spec_month_days(m as int, leap),
        decreases 11 - m,
    {
        if m >= 11 {
            break;
        }
        let md = month_days(m, leap);
        if rem2 < md as u64 {
            break;
        }
        rem2 = rem2 - md as u64;
        m = m + 1;
    }
    proof {
        assert(spec_month_of(m as int, rem2 as int, leap) == (m as int, rem2 as int));
    }
    let mut out = month_name(m);
    out.push(' ');
    out.append(pad_left(format_decimal(rem2 + 1).as_str(), 2, ' ').as_str());
    out.push(' ');
    out.append(pad_left(format_decimal(hour).as_str(), 2, '0').as_str());
    out.push(':');
    out.append(pad_left(format_decimal(minute).as_str(), 2, '0').as_str());
    proof {
        assert(out@ =~= spec_format_time(modified));
    }
    out
}

} // verus!
