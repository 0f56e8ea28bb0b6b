//! Dates in the form of RFC 2822 (`Thu, 1 Jan 1970 00:00:00 +0000`), in UTC,
//! from seconds since the Unix epoch.
use vstd::prelude::*;
use crate::text::push_char;

verus! {

/// Whether the year is a leap year of the Gregorian calendar.
pub open spec fn is_leap(y: int) -> bool {
    (y % 4 == 0 && y % 100 != 0) || y % 400 == 0
}

/// The number of days of a year.
pub open spec fn year_days(y: int) -> int {
    if is_leap(y) {
        366
    } else {
        365
    }
}

/// The number of days of a month (1 to 12) of a year.
pub open spec fn month_days(y: int, m: int) -> int {
    if m == 2 {
        if is_leap(y) {
            29
        } else {
            28
        }
    } else if m == 4 || m == 6 || m == 9 || m == 11 {
        30
    } else {
        31
    }
}

/// The days from 1 January 1970 to 1 January of the year.
pub open spec fn days_before_year(y: int) -> int
    decreases y - 1970,
{
    if y <= 1970 {
        0
    } else {
        days_before_year(y - 1) + year_days(y - 1)
    }
}

/// The days from 1 January to the first of the month, in the year.
pub open spec fn days_before_month(y: int, m: int) -> int
    decreases m,
{
    if m <= 1 {
        0
    } else {
        days_before_month(y, m - 1) + month_days(y, m - 1)
    }
}

/// Whether year, month and day name the day that is the given number of
/// days after 1 January 1970.
pub open spec fn is_date_of(days: int, y: int, m: int, d: int) -> bool {
    &&& y >= 1970
    &&& 1 <= m <= 12
    &&& 1 <= d <= month_days(y, m)
    &&& days_before_year(y) + days_before_month(y, m) + d - 1 == days
}

/// The decimal digits of a number.
pub open spec fn decimal(n: nat) -> Seq<char>
    decreases n,
{
    if n < 10 {
        seq![(('0' as u8) + n) as u8 as char]
    } else {
        decimal(n / 10) + seq![(('0' as u8) + n % 10) as u8 as char]
    }
}

/// A number below 100 in two digits.
pub open spec fn two_digits(n: nat) -> Seq<char> {
    if n < 10 {
        seq!['0'] + decimal(n)
    } else {
        decimal(n)
    }
}

/// The English abbreviation of a day of the week, Sunday being 0.
pub open spec fn weekday_name(w: int) -> Seq<char> {
    if w == 0 {
        "Sun"@
    } else if w == 1 {
        "Mon"@
    } else if w == 2 {
        "Tue"@
    } else if w == 3 {
        "Wed"@
    } else if w == 4 {
        "Thu"@
    } else if w == 5 {
        "Fri"@
    } else {
        "Sat"@
    }
}

/// The English abbreviation of a month, January being 1.
pub open spec fn month_name(m: int) -> Seq<char> {
    if m == 1 {
        "Jan"@
    } else if m == 2 {
        "Feb"@
    } else if m == 3 {
        "Mar"@
    } else if m == 4 {
        "Apr"@
    } else if m == 5 {
        "May"@
    } else if m == 6 {
        "Jun"@
    } else if m == 7 {
        "Jul"@
    } else if m == 8 {
        "Aug"@
    } else if m == 9 {
        "Sep"@
    } else if m == 10 {
        "Oct"@
    } else if m == 11 {
        "Nov"@
    } else {
        "Dec"@
    }
}

/// The text of a moment: day of the week, date, time of day and zone.
pub open spec fn rfc2822_spec(secs: nat, y: int, m: int, d: int) -> Seq<char> {
    let days = secs / 86400;
    let t = secs % 86400;
    weekday_name(((days + 4) % 7) as int) + ", "@ + decimal(d as nat) + " "@ + month_name(m) + " "@
        + decimal(y as nat) + " "@ + two_digits(t / 3600) + ":"@ + two_digits((t % 3600) / 60)
        + ":"@ + two_digits(t % 60) + " +0000"@
}

fn push_decimal(s: &mut String, n: u64)
    ensures
        final(s)@ == old(s)@ + decimal(n as nat),
    decreases n,
{
    if n >= 10 {
        push_decimal(s, n / 10);
    }
    let c = (48 + (n % 10) as u8) as char;
    push_char(s, c);
    assert(final(s)@ =~= old(s)@ + decimal(n as nat));
}

fn push_two_digits(s: &mut String, n: u64)
    requires
        n < 100,
    ensures
        final(s)@ == old(s)@ + two_digits(n as nat),
{
    if n < 10 {
        push_char(s, '0');
    }
    push_decimal(s, n);
    assert(final(s)@ =~= old(s)@ + two_digits(n as nat));
}

fn weekday_text(w: u64) -> (r: &'static str)
    ensures
        r@ == weekday_name(w as int),
{
    if w == 0 {
        "Sun"
    } else if w == 1 {
        "Mon"
    } else if w == 2 {
        "Tue"
    } else if w == 3 {
        "Wed"
    } else if w == 4 {
        "Thu"
    } else if w == 5 {
        "Fri"
    } else {
        "Sat"
    }
}

fn month_text(m: u64) -> (r: &'static str)
    ensures
        r@ == month_name(m as int),
{
    if m == 1 {
        "Jan"
    } else if m == 2 {
        "Feb"
    } else if m == 3 {
        "Mar"
    } else if m == 4 {
        "Apr"
    } else if m == 5 {
        "May"
    } else if m == 6 {
        "Jun"
    } else if m == 7 {
        "Jul"
    } else if m == 8 {
        "Aug"
    } else if m == 9 {
        "Sep"
    } else if m == 10 {
        "Oct"
    } else if m == 11 {
        "Nov"
    } else {
        "Dec"
    }
}

fn is_leap_exec(y: u64) -> (r: bool)
    ensures
        r == is_leap(y as int),
{
    (y % 4 == 0 && y % 100 != 0) || y % 400 == 0
}

fn month_days_exec(y: u64, m: u64) -> (r: u64)
    ensures
        r == month_days(y as int, m as int),
{
    if m == 2 {
        if is_leap_exec(y) {
            29
        } else {
            28
        }
    } else if m == 4 || m == 6 || m == 9 || m == 11 {
        30
    } else {
        31
    }
}

proof fn lemma_year_is_months(y: int)
    ensures
        days_before_month(y, 13) == year_days(y),
{
    reveal_with_fuel(days_before_month, 13);
}

/// The date of a day counted from 1 January 1970.
pub fn date_of(days: u64) -> (r: (u64, u64, u64))
    requires
        days <= u64::MAX / 86400,
    ensures
        is_date_of(days as int, r.0 as int, r.1 as int, r.2 as int),
{
    let mut left = days;
    let mut y: u64 = 1970;
    loop
        invariant
            1970 <= y,
            y - 1970 <= days - left,
            left <= days,
            days <= u64::MAX / 86400,
            days_before_year(y as int) + left == days,
        ensures
            1970 <= y,
            days_before_year(y as int) + left == days,
            left < year_days(y as int),
        decreases left,
    {
        let n: u64 = if is_leap_exec(y) {
            366
        } else {
            365
        };
        if left < n {
            break;
        }
        left = left - n;
        y = y + 1;
    }
    let mut m: u64 = 1;
    proof {
        lemma_year_is_months(y as int);
    }
    loop
        invariant
            1 <= m <= 12,
            left as int + days_before_month(y as int, m as int) < year_days(y as int),
            days_before_year(y as int) + days_before_month(y as int, m as int) + left == days,
            days_before_month(y as int, 13) == year_days(y as int),
        ensures
            1 <= m <= 12,
            days_before_year(y as int) + days_before_month(y as int, m as int) + left == days,
            left < month_days(y as int, m as int),
        decreases 12 - m,
    {
        let n = month_days_exec(y, m);
        if left < n {
            break;
        }
        left = left - n;
        proof {
            if m == 12 {
                assert(days_before_month(y as int, 13) == days_before_month(y as int, 12) + month_days(y as int, 12));
            }
        }
        m = m + 1;
    }
    (y, m, left + 1)
}

/// Formats a moment, given in seconds since the Unix epoch, the way RFC 2822
/// writes dates, in UTC.
pub fn rfc2822(secs: u64) -> (r: String)
    ensures
        exists|y: int, m: int, d: int|
            is_date_of((secs / 86400) as int, y, m, d) && r@ == rfc2822_spec(secs as nat, y, m, d),
{
    let days = secs / 86400;
    let t = secs % 86400;
    let (y, m, d) = date_of(days);
    let mut r = String::new();
    r.append(weekday_text((days + 4) % 7));
    r.append(", ");
    push_decimal(&mut r, d);
    r.append(" ");
    r.append(month_text(m));
    r.append(" ");
    push_decimal(&mut r, y);
    r.append(" ");
    push_two_digits(&mut r, t / 3600);
    r.append(":");
    push_two_digits(&mut r, (t % 3600) / 60);
    r.append(":");
    push_two_digits(&mut r, t % 60);
    r.append(" +0000");
    assert(r@ =~= rfc2822_spec(secs as nat, y as int, m as int, d as int));
    r
}

} // verus!
