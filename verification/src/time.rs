//! Calendar arithmetic and timestamps in UTC, counted from 1970-01-01.

use vstd::prelude::*;
use crate::text::{push_char, push_decimal, push_zero_padded, decimal, zero_padded};

verus! {

/// Whether `y` is a leap year in the Gregorian calendar.
pub open spec fn leap(y: int) -> bool {
    (y % 4 == 0 && y % 100 != 0) || y % 400 == 0
}

/// Number of days in year `y`.
pub open spec fn year_len(y: int) -> int {
    if leap(y) { 366 } else { 365 }
}

/// Number of days in month `m` (1 to 12) of year `y`.
pub open spec fn month_len(y: int, m: int) -> int {
    if m == 2 {
        if leap(y) { 29 } else { 28 }
    } else if m == 4 || m == 6 || m == 9 || m == 11 {
        30
    } else {
        31
    }
}

/// Days from 1970-01-01 to the first day of year `y` (for `y` >= 1970).
pub open spec fn days_before_year(y: int) -> int
    decreases y - 1970,
{
    if y <= 1970 {
        0
    } else {
        days_before_year(y - 1) + year_len(y - 1)
    }
}

/// Days from the first of January of `y` to the first day of month `m`.
pub open spec fn days_before_month(y: int, m: int) -> int
    decreases m,
{
    if m <= 1 {
        0
    } else {
        days_before_month(y, m - 1) + month_len(y, m - 1)
    }
}

/// `(y, m, d)` is the date that lies `days` days after 1970-01-01.
pub open spec fn is_date_of(days: int, y: int, m: int, d: int) -> bool {
    &&& y >= 1970
    &&& 1 <= m <= 12
    &&& 1 <= d <= month_len(y, m)
    &&& days == days_before_year(y) + days_before_month(y, m) + d - 1
}

/// Whether `y` is a leap year.
pub fn is_leap_year(y: u64) -> (r: bool)
    ensures
        r == leap(y as int),
{
    (y % 4 == 0 && y % 100 != 0) || y % 400 == 0
}

fn month_days(leap_year: bool, m: u64) -> (r: u64)
    requires
        1 <= m <= 12,
    ensures
        forall|y: int| leap(y) == leap_year ==> r == month_len(y, m as int),
{
    if m == 2 {
        if leap_year { 29 } else { 28 }
    } else if m == 4 || m == 6 || m == 9 || m == 11 {
        30
    } else {
        31
    }
}

proof fn lemma_year_is_months(y: int)
    ensures
        days_before_month(y, 13) == year_len(y),
{
    reveal_with_fuel(days_before_month, 13);
}

proof fn lemma_days_before_year_grows(y: int)
    requires
        y >= 1970,
    ensures
        days_before_year(y) >= 365 * (y - 1970),
    decreases y - 1970,
{
    if y > 1970 {
        lemma_days_before_year_grows(y - 1);
    }
}

/// Splits a count of days since 1970-01-01 into year, month and day.
pub fn days_to_ymd(days: u64) -> (r: (u64, u64, u64))
    ensures
        is_date_of(days as int, r.0 as int, r.1 as int, r.2 as int),
{
    let mut y: u64 = 1970;
    let mut remaining = days;
    let mut diy: u64 = if is_leap_year(y) { 366 } else { 365 };
    while remaining >= diy
        invariant
            y >= 1970,
            days == days_before_year(y as int) + remaining,
            diy == year_len(y as int),
        decreases remaining,
    {
        remaining = remaining - diy;
        proof {
            lemma_days_before_year_grows(y as int + 1);
        }
        y = y + 1;
        diy = if is_leap_year(y) { 366 } else { 365 };
    }
    let leap_year = is_leap_year(y);
    proof {
        lemma_year_is_months(y as int);
    }
    let mut m: u64 = 1;
    let mut dim = month_days(leap_year, m);
    while m < 12 && remaining >= dim
        invariant
            1 <= m <= 12,
            leap_year == leap(y as int),
            dim == month_len(y as int, m as int),
            days == days_before_year(y as int) + days_before_month(y as int, m as int) + remaining,
            days_before_month(y as int, m as int) + remaining < year_len(y as int),
            days_before_month(y as int, 13) == year_len(y as int),
        decreases 12 - m,
    {
        remaining = remaining - dim;
        m = m + 1;
        dim = month_days(leap_year, m);
    }
    proof {
        if m == 12 {
            assert(days_before_month(y as int, 13) == days_before_month(y as int, 12) + month_len(y as int, 12));
        }
    }
    (y, m, remaining + 1)
}

/// The timestamp `YYYY-MM-DDTHH:MM:SSZ` of a count of seconds since
/// 1970-01-01 (the year has at least four digits).
pub open spec fn iso8601(secs: nat, y: nat, m: nat, d: nat) -> Seq<char> {
    let rem = secs % 86400;
    zero_padded(y, 4) + seq!['-'] + zero_padded(m, 2) + seq!['-'] + zero_padded(d, 2) + seq!['T']
        + zero_padded(rem / 3600, 2) + seq![':'] + zero_padded((rem % 3600) / 60, 2) + seq![':']
        + zero_padded(rem % 60, 2) + seq!['Z']
}

/// `s` is the timestamp of `secs` seconds after 1970-01-01T00:00:00Z.
pub open spec fn is_timestamp_of(s: Seq<char>, secs: nat) -> bool {
    exists|y: nat, m: nat, d: nat| is_date_of((secs / 86400) as int, y as int, m as int, d as int) && s == #[trigger] iso8601(secs, y, m, d)
}

/// Formats a count of seconds since 1970-01-01 as an ISO 8601 UTC timestamp.
pub fn format_iso8601(secs: u64) -> (r: String)
    ensures
        is_timestamp_of(r@, secs as nat),
{
    let remaining_secs = secs % 86400;
    let hours = remaining_secs / 3600;
    let minutes = (remaining_secs % 3600) / 60;
    let seconds = remaining_secs % 60;
    let days = secs / 86400;
    let (year, month, day) = days_to_ymd(days);
    let mut s = String::new();
    push_zero_padded(&mut s, year, 4);
    push_char(&mut s, '-');
    push_zero_padded(&mut s, month, 2);
    push_char(&mut s, '-');
    push_zero_padded(&mut s, day, 2);
    push_char(&mut s, 'T');
    push_zero_padded(&mut s, hours, 2);
    push_char(&mut s, ':');
    push_zero_padded(&mut s, minutes, 2);
    push_char(&mut s, ':');
    push_zero_padded(&mut s, seconds, 2);
    push_char(&mut s, 'Z');
    proof {
        assert(s@ =~= iso8601(secs as nat, year as nat, month as nat, day as nat));
    }
    s
}

/// Seconds since 1970-01-01T00:00:00Z by the system clock (`SystemTime::now`),
/// or 0 if the clock is set before that instant. The value depends on the
/// clock, so nothing is promised of it.
#[verifier::external_body]
pub(crate) fn unix_now_secs() -> u64 {
    std::time::SystemTime::now().duration_since(std::time::UNIX_EPOCH).unwrap_or_default().as_secs()
}

/// The current time as an ISO 8601 UTC timestamp.
pub fn now_iso8601() -> (r: String)
    ensures
        exists|secs: nat| #[trigger] is_timestamp_of(r@, secs),
{
    let secs = unix_now_secs();
    let r = format_iso8601(secs);
    assert(is_timestamp_of(r@, secs as nat));
    r
}

/// `s` is `total` seconds written as `Hh Mm Ss`, `Mm Ss` or `Ss`, leaving
/// out leading zero units.
pub open spec fn duration_text(total: nat) -> Seq<char> {
    let h = total / 3600;
    let m = (total % 3600) / 60;
    let s = total % 60;
    if h > 0 {
        decimal(h) + "h "@ + decimal(m) + "m "@ + decimal(s) + seq!['s']
    } else if m > 0 {
        decimal(m) + "m "@ + decimal(s) + seq!['s']
    } else {
        decimal(s) + seq!['s']
    }
}

/// Formats a duration in seconds for display, e.g. `1h 2m 3s`.
pub fn format_duration_secs(total_secs: u64) -> (r: String)
    ensures
        r@ == duration_text(total_secs as nat),
{
    let hours = total_secs / 3600;
    let minutes = (total_secs % 3600) / 60;
    let seconds = total_secs % 60;
    let mut s = String::new();
    proof {
        reveal_strlit("h ");
        reveal_strlit("m ");
    }
    if hours > 0 {
        push_decimal(&mut s, hours);
        push_char(&mut s, 'h');
        push_char(&mut s, ' ');
        push_decimal(&mut s, minutes);
        push_char(&mut s, 'm');
        push_char(&mut s, ' ');
        push_decimal(&mut s, seconds);
        push_char(&mut s, 's');
    } else if minutes > 0 {
        push_decimal(&mut s, minutes);
        push_char(&mut s, 'm');
        push_char(&mut s, ' ');
        push_decimal(&mut s, seconds);
        push_char(&mut s, 's');
    } else {
        push_decimal(&mut s, seconds);
        push_char(&mut s, 's');
    }
    proof {
        assert(s@ =~= duration_text(total_secs as nat));
    }
    s
}

/// The calendar day after `(y, m, d)`.
pub open spec fn next_day(y: int, m: int, d: int) -> (int, int, int) {
    if d < month_len(y, m) {
        (y, m, d + 1)
    } else if m < 12 {
        (y, m + 1, 1)
    } else {
        (y + 1, 1, 1)
    }
}

proof fn lemma_days_before_month_grows(y: int, a: int, b: int)
    requires
        1 <= a <= b,
    ensures
        days_before_month(y, b) >= days_before_month(y, a) + (b - a) * 28,
    decreases b - a,
{
    if a < b {
        lemma_days_before_month_grows(y, a, b - 1);
    }
}

proof fn lemma_days_before_year_grows_from(a: int, b: int)
    requires
        1970 <= a <= b,
    ensures
        days_before_year(b) >= days_before_year(a) + (b - a) * 365,
    decreases b - a,
{
    if a < b {
        lemma_days_before_year_grows_from(a, b - 1);
    }
}

/// A valid date lies within its year: the days before its month and its
/// own day come to less than the year's length.
proof fn lemma_day_within_year(y: int, m: int, d: int)
    requires
        1 <= m <= 12,
        1 <= d <= month_len(y, m),
    ensures
        days_before_month(y, m) + d - 1 < year_len(y),
{
    lemma_days_before_month_grows(y, m + 1, 13);
    lemma_year_is_months(y);
}

/// Each count of days since 1970-01-01 is one date only.
pub proof fn law_date_is_unique(n: int, a: (int, int, int), b: (int, int, int))
    requires
        is_date_of(n, a.0, a.1, a.2),
        is_date_of(n, b.0, b.1, b.2),
    ensures
        a == b,
{
    lemma_day_within_year(a.0, a.1, a.2);
    lemma_day_within_year(b.0, b.1, b.2);
    lemma_days_before_month_grows(a.0, 1, a.1);
    lemma_days_before_month_grows(b.0, 1, b.1);
    if a.0 < b.0 {
        assert(days_before_year(a.0 + 1) == days_before_year(a.0) + year_len(a.0));
        lemma_days_before_year_grows_from(a.0 + 1, b.0);
        assert(false);
    } else if b.0 < a.0 {
        assert(days_before_year(b.0 + 1) == days_before_year(b.0) + year_len(b.0));
        lemma_days_before_year_grows_from(b.0 + 1, a.0);
        assert(false);
    }
    if a.1 < b.1 {
        lemma_days_before_month_grows(a.0, a.1 + 1, b.1);
        assert(false);
    } else if b.1 < a.1 {
        lemma_days_before_month_grows(a.0, b.1 + 1, a.1);
        assert(false);
    }
}

/// The day after the date of `n` days is the date of `n + 1` days: read
/// with `days_to_ymd`, consecutive counts give consecutive calendar days.
pub proof fn law_days_to_ymd_successor(n: int, a: (int, int, int), b: (int, int, int))
    requires
        is_date_of(n, a.0, a.1, a.2),
        is_date_of(n + 1, b.0, b.1, b.2),
    ensures
        b == next_day(a.0, a.1, a.2),
{
    let c = next_day(a.0, a.1, a.2);
    if a.2 < month_len(a.0, a.1) {
    } else if a.1 < 12 {
    } else {
        lemma_year_is_months(a.0);
        assert(days_before_month(a.0 + 1, 1) == 0);
    }
    assert(is_date_of(n + 1, c.0, c.1, c.2));
    law_date_is_unique(n + 1, b, c);
}

} // verus!
