//! Calendar dates and clock times of Unix timestamps.

use vstd::prelude::*;
use crate::text::{append_padded, append_signed_padded};

verus! {

/// Whether a year of the Gregorian calendar has 366 days.
pub open spec fn is_leap(year: int) -> bool {
    year % 4 == 0 && (year % 100 != 0 || year % 400 == 0)
}

pub open spec fn days_in_year(year: int) -> int {
    if is_leap(year) {
        366
    } else {
        365
    }
}

pub open spec fn days_in_month(year: int, month: int) -> int {
    if month == 2 {
        if is_leap(year) {
            29
        } else {
            28
        }
    } else if month == 4 || month == 6 || month == 9 || month == 11 {
        30
    } else {
        31
    }
}

/// Days from the start of 1970 to the start of `year`.
pub open spec fn days_before_year(year: int) -> int
    decreases year - 1970,
{
    if year <= 1970 {
        0
    } else {
        days_before_year(year - 1) + days_in_year(year - 1)
    }
}

/// Days from the start of `year` to the start of a month of it.
pub open spec fn days_before_month(year: int, month: int) -> int
    decreases month,
{
    if month <= 1 {
        0
    } else {
        days_before_month(year, month - 1) + days_in_month(year, month - 1)
    }
}

/// Whether a year, month and day of the month name the day that comes `days`
/// days after the first of January 1970.
pub open spec fn is_date_of(days: int, year: int, month: int, day: int) -> bool {
    &&& 1970 <= year
    &&& 1 <= month <= 12
    &&& 1 <= day <= days_in_month(year, month)
    &&& days == days_before_year(year) + days_before_month(year, month) + day - 1
}

/// Leap years from year 1 to `year`.
spec fn leaps(year: int) -> int {
    year / 4 - year / 100 + year / 400
}

proof fn lemma_leap_step(year: int)
    requires
        year >= 1,
    ensures
        leaps(year) - leaps(year - 1) == if is_leap(year) {
            1int
        } else {
            0
        },
{
}

proof fn lemma_days_before_year(year: int)
    requires
        year >= 1970,
    ensures
        days_before_year(year) == 365 * (year - 1970) + leaps(year - 1) - 477,
    decreases year,
{
    if year > 1970 {
        lemma_days_before_year(year - 1);
        lemma_leap_step(year - 1);
    }
}

proof fn lemma_month_starts(year: int)
    ensures
        days_before_month(year, 1) == 0,
        days_before_month(year, 2) == 31,
        ({
            let feb = days_in_month(year, 2);
            &&& days_before_month(year, 3) == 31 + feb
            &&& days_before_month(year, 4) == 62 + feb
            &&& days_before_month(year, 5) == 92 + feb
            &&& days_before_month(year, 6) == 123 + feb
            &&& days_before_month(year, 7) == 153 + feb
            &&& days_before_month(year, 8) == 184 + feb
            &&& days_before_month(year, 9) == 215 + feb
            &&& days_before_month(year, 10) == 245 + feb
            &&& days_before_month(year, 11) == 276 + feb
            &&& days_before_month(year, 12) == 306 + feb
            &&& days_before_month(year, 13) == 337 + feb
        }),
{
    reveal_with_fuel(days_before_month, 14);
}

proof fn lemma_year_of_era(doe: int)
    requires
        0 <= doe < 146097,
    ensures
        ({
            let yoe = (doe - doe / 1460 + doe / 36524 - doe / 146096) / 365;
            let doy = doe - (365 * yoe + yoe / 4 - yoe / 100);
            &&& 0 <= yoe <= 399
            &&& 0 <= doy <= 365
            &&& doy == 365 ==> is_leap(yoe + 1)
        }),
{
}

/// The date of a day, with the year as long as it takes.
proof fn lemma_civil_from_days(days: int) -> (date: (int, int, int))
    requires
        0 <= days,
    ensures
        ({
            let z = days + 719468;
            let era = z / 146097;
            let doe = z - era * 146097;
            let yoe = (doe - doe / 1460 + doe / 36524 - doe / 146096) / 365;
            let doy = doe - (365 * yoe + yoe / 4 - yoe / 100);
            let mp = (5 * doy + 2) / 153;
            let mo = if mp < 10 {
                mp + 3
            } else {
                mp - 9
            };
            &&& 0 <= doe < 146097
            &&& 0 <= yoe <= 399
            &&& 0 <= doy <= 365
            &&& 0 <= mp <= 11
            &&& date.0 == yoe + era * 400 + (if mo <= 2 {
                1int
            } else {
                0
            })
            &&& date.1 == mo
            &&& date.2 == doy - (153 * mp + 2) / 5 + 1
        }),
        is_date_of(days, date.0, date.1, date.2),
{
    let z = days + 719468;
    let era = z / 146097;
    let doe = z - era * 146097;
    assert(0 <= doe < 146097);
    lemma_year_of_era(doe);
    let yoe = (doe - doe / 1460 + doe / 36524 - doe / 146096) / 365;
    let doy = doe - (365 * yoe + yoe / 4 - yoe / 100);
    let y = yoe + era * 400;
    let mp = (5 * doy + 2) / 153;
    let d = doy - (153 * mp + 2) / 5 + 1;
    let mo = if mp < 10 {
        mp + 3
    } else {
        mp - 9
    };
    let year = if mo <= 2 {
        y + 1
    } else {
        y
    };
    // The leap years repeat after 400 years.
    assert(y / 4 == yoe / 4 + era * 100);
    assert(y / 100 == yoe / 100 + era * 4);
    assert(yoe / 400 == 0 && y / 400 == era);
    assert(leaps(y) == yoe / 4 - yoe / 100 + era * 97);
    assert(is_leap(y + 1) == is_leap(yoe + 1));
    assert(days == 365 * y + leaps(y) + doy - 719468);
    assert(y >= 1969) by {
        assert(z >= 719468);
        assert(365 * y + leaps(y) + doy >= 719468);
    }
    if y == 1969 {
        assert(leaps(1969) == 477);
        assert(doy >= 306);
        assert(mp >= 10);
    }
    assert(year >= 1970);
    lemma_days_before_year(year);
    lemma_leap_step(y + 1);
    lemma_leap_step(y);
    lemma_month_starts(year);
    assert(mp == 0 || mp == 1 || mp == 2 || mp == 3 || mp == 4 || mp == 5 || mp == 6 || mp == 7
        || mp == 8 || mp == 9 || mp == 10 || mp == 11);
    (year, mo, d)
}

/// Every day has at most one date.
pub proof fn dates_are_unique(days: int, y1: int, m1: int, d1: int, y2: int, m2: int, d2: int)
    requires
        is_date_of(days, y1, m1, d1),
        is_date_of(days, y2, m2, d2),
    ensures
        y1 == y2,
        m1 == m2,
        d1 == d2,
{
    lemma_month_starts(y1);
    lemma_month_starts(y2);
    lemma_within_year(y1, m1, d1);
    lemma_within_year(y2, m2, d2);
    if y1 < y2 {
        lemma_years_ascend(y1 + 1, y2);
    } else if y2 < y1 {
        lemma_years_ascend(y2 + 1, y1);
    } else if m1 < m2 {
        lemma_months_ascend(y1, m1 + 1, m2);
    } else if m2 < m1 {
        lemma_months_ascend(y1, m2 + 1, m1);
    }
}

proof fn lemma_years_ascend(a: int, b: int)
    requires
        1970 <= a <= b,
    ensures
        days_before_year(a) <= days_before_year(b),
    decreases b - a,
{
    if a < b {
        lemma_years_ascend(a, b - 1);
    }
}

proof fn lemma_months_ascend(year: int, a: int, b: int)
    requires
        1 <= a <= b,
    ensures
        days_before_month(year, a) <= days_before_month(year, b),
    decreases b - a,
{
    if a < b {
        lemma_months_ascend(year, a, b - 1);
    }
}

proof fn lemma_within_year(year: int, month: int, day: int)
    requires
        1970 <= year,
        1 <= month <= 12,
        1 <= day <= days_in_month(year, month),
    ensures
        0 <= days_before_month(year, month) + day - 1 < days_in_year(year),
        days_before_month(year, month) + day - 1 < days_before_month(year, month + 1),
        days_before_year(year + 1) == days_before_year(year) + days_in_year(year),
{
    lemma_month_starts(year);
    assert(month == 1 || month == 2 || month == 3 || month == 4 || month == 5 || month == 6
        || month == 7 || month == 8 || month == 9 || month == 10 || month == 11 || month == 12);
}

/// The date of a day, counted from the first of January 1970.
fn civil_from_days(days: i64) -> (date: (i64, u32, u32))
    requires
        0 <= days <= 0x1000_0000_0000_0000,
    ensures
        is_date_of(days as int, date.0 as int, date.1 as int, date.2 as int),
{
    let ghost expected = lemma_civil_from_days(days as int);
    let z: i64 = days + 719_468;
    let era: i64 = z / 146_097;
    let doe: i64 = z - era * 146_097;
    let yoe: i64 = (doe - doe / 1460 + doe / 36_524 - doe / 146_096) / 365;
    let y: i64 = yoe + era * 400;
    let doy: i64 = doe - (365 * yoe + yoe / 4 - yoe / 100);
    let mp: i64 = (5 * doy + 2) / 153;
    let d: i64 = doy - (153 * mp + 2) / 5 + 1;
    let mo: i64 = if mp < 10 {
        mp + 3
    } else {
        mp - 9
    };
    let year: i64 = if mo <= 2 {
        y + 1
    } else {
        y
    };
    assert(expected == (year as int, mo as int, d as int));
    (year, mo as u32, d as u32)
}

/// Whether `t` is the year, month, day, hour, minute and second of a Unix
/// timestamp in universal time, the year cut off to 32 bits.
pub open spec fn is_time_of(secs: u64, t: (i32, u32, u32, u32, u32, u32)) -> bool {
    &&& exists|year: i64|
        #![trigger is_date_of(secs as int / 86400, year as int, t.1 as int, t.2 as int)]
        is_date_of(secs as int / 86400, year as int, t.1 as int, t.2 as int) && t.0 == year as i32
    &&& t.3 == secs % 86400 / 3600
    &&& t.4 == secs % 3600 / 60
    &&& t.5 == secs % 60
}

/// The date and time of a Unix timestamp, in universal time: year, month, day,
/// hour, minute, second. Years beyond 32 bits are cut off to 32 bits.
pub fn ts_to_ymd_hms(secs: u64) -> (t: (i32, u32, u32, u32, u32, u32))
    ensures
        is_time_of(secs, t),
{
    let rem: u32 = (secs % 86_400) as u32;
    let (year, mo, d) = civil_from_days((secs / 86_400) as i64);
    let t: (i32, u32, u32, u32, u32, u32) = (
        year as i32,
        mo,
        d,
        rem / 3600,
        (rem % 3600) / 60,
        rem % 60,
    );
    assert(is_date_of(secs as int / 86400, year as int, t.1 as int, t.2 as int) && t.0 == year
        as i32);
    t
}

/// A timestamp has one date and time.
pub proof fn times_are_unique(
    secs: u64,
    a: (i32, u32, u32, u32, u32, u32),
    b: (i32, u32, u32, u32, u32, u32),
)
    requires
        is_time_of(secs, a),
        is_time_of(secs, b),
    ensures
        a == b,
{
    let days = secs as int / 86400;
    let y1 = choose|year: i64|
        #![trigger is_date_of(days, year as int, a.1 as int, a.2 as int)]
        is_date_of(days, year as int, a.1 as int, a.2 as int) && a.0 == year as i32;
    let y2 = choose|year: i64|
        #![trigger is_date_of(days, year as int, b.1 as int, b.2 as int)]
        is_date_of(days, year as int, b.1 as int, b.2 as int) && b.0 == year as i32;
    dates_are_unique(
        days,
        y1 as int,
        a.1 as int,
        a.2 as int,
        y2 as int,
        b.1 as int,
        b.2 as int,
    );
}

/// `n` as two digits or more.
pub open spec fn two(n: u32) -> Seq<char> {
    crate::text::zero_padded(crate::text::decimal(n as nat), 2)
}

/// A date and time as `YYYY-MM-DD hh:mm:ss`.
pub open spec fn rendered_time(t: (i32, u32, u32, u32, u32, u32)) -> Seq<char> {
    crate::text::signed_padded(t.0 as int, 4) + "-"@ + two(t.1) + "-"@ + two(t.2) + " "@ + two(t.3)
        + ":"@ + two(t.4) + ":"@ + two(t.5)
}

/// The date and time of a Unix timestamp as `YYYY-MM-DD hh:mm:ss`.
pub fn wall_clock(secs: u64) -> (s: String)
    ensures
        exists|t: (i32, u32, u32, u32, u32, u32)| #[trigger]
            is_time_of(secs, t) && s@ == rendered_time(t),
{
    let t: (i32, u32, u32, u32, u32, u32) = ts_to_ymd_hms(secs);
    let mut s = String::new();
    append_signed_padded(&mut s, t.0 as i64, 4);
    assert(s@ =~= crate::text::signed_padded(t.0 as int, 4));
    s.append("-");
    append_padded(&mut s, t.1 as u64, 2);
    s.append("-");
    append_padded(&mut s, t.2 as u64, 2);
    s.append(" ");
    append_padded(&mut s, t.3 as u64, 2);
    s.append(":");
    append_padded(&mut s, t.4 as u64, 2);
    s.append(":");
    append_padded(&mut s, t.5 as u64, 2);
    assert(is_time_of(secs, t) && s@ == rendered_time(t));
    s
}

/// The time of day of a Unix timestamp as `hh:mm:ss.mmm`.
pub fn time_of_day(secs: u64, millis: u32) -> (s: String)
    ensures
        s@ == two((secs / 3600 % 24) as u32) + ":"@ + two((secs / 60 % 60) as u32) + ":"@ + two(
            (secs % 60) as u32,
        ) + "."@ + crate::text::zero_padded(crate::text::decimal(millis as nat), 3),
{
    let mut s = String::new();
    append_padded(&mut s, (secs / 3600) % 24, 2);
    assert(s@ =~= two((secs / 3600 % 24) as u32));
    s.append(":");
    append_padded(&mut s, (secs / 60) % 60, 2);
    s.append(":");
    append_padded(&mut s, secs % 60, 2);
    s.append(".");
    append_padded(&mut s, millis as u64, 3);
    s
}

/// The time of day agrees with the date and time of the same timestamp.
pub proof fn time_of_day_agrees(secs: u64)
    ensures
        secs / 3600 % 24 == secs % 86400 / 3600,
        secs / 60 % 60 == secs % 3600 / 60,
{
    let x = secs as int;
    let day = x / 86400;
    let h = x % 86400 / 3600;
    assert(x / 3600 == 24 * day + h) by {
        assert(x == 86400 * day + x % 86400);
        assert(x % 86400 == 3600 * h + x % 86400 % 3600);
    }
    assert((24 * day + h) % 24 == h);
    let hour = x / 3600;
    let m = x % 3600 / 60;
    assert(x / 60 == 60 * hour + m) by {
        assert(x == 3600 * hour + x % 3600);
        assert(x % 3600 == 60 * m + x % 3600 % 60);
    }
    assert((60 * hour + m) % 60 == m);
}

/// Counting begins on the first of January 1970.
pub proof fn days_begin_with_1970(year: int, month: int, day: int)
    ensures
        is_date_of(0, year, month, day) <==> year == 1970 && month == 1 && day == 1,
{
    assert(is_date_of(0, 1970, 1, 1));
    if is_date_of(0, year, month, day) {
        dates_are_unique(0, year, month, day, 1970, 1, 1);
    }
}

/// One day later the calendar shows the next date. April, June, September and
/// November have 30 days, and February 28, or 29 in years that can be divided by
/// four, those by a hundred only where they can be divided by four hundred; the
/// others have 31.
pub proof fn days_follow_each_other(days: int, year: int, month: int, day: int)
    requires
        is_date_of(days, year, month, day),
    ensures
        day < 28 ==> is_date_of(days + 1, year, month, day + 1),
        month != 2 && day < 30 ==> is_date_of(days + 1, year, month, day + 1),
        month == 2 && day == 28 && year % 4 == 0 && (year % 100 != 0 || year % 400 == 0)
            ==> is_date_of(days + 1, year, 2, 29),
        month == 2 && day == 28 && !(year % 4 == 0 && (year % 100 != 0 || year % 400 == 0))
            ==> is_date_of(days + 1, year, 3, 1),
        month == 2 && day == 29 ==> is_date_of(days + 1, year, 3, 1),
        (month == 4 || month == 6 || month == 9 || month == 11) && day == 30 ==> is_date_of(
            days + 1,
            year,
            month + 1,
            1,
        ),
        (month == 1 || month == 3 || month == 5 || month == 7 || month == 8 || month == 10 || month
            == 12) && day == 30 ==> is_date_of(days + 1, year, month, 31),
        month < 12 && day == 31 ==> is_date_of(days + 1, year, month + 1, 1),
        month == 12 && day == 31 ==> is_date_of(days + 1, year + 1, 1, 1),
{
    lemma_month_starts(year);
    lemma_month_starts(year + 1);
    lemma_within_year(year, month, day);
    assert(month == 1 || month == 2 || month == 3 || month == 4 || month == 5 || month == 6
        || month == 7 || month == 8 || month == 9 || month == 10 || month == 11 || month == 12);
}

/// The time of a timestamp counts hours below 24, minutes and seconds below 60,
/// and makes up the timestamp together with the whole days.
pub proof fn times_make_up_the_timestamp(secs: u64, t: (i32, u32, u32, u32, u32, u32))
    requires
        is_time_of(secs, t),
    ensures
        t.3 < 24,
        t.4 < 60,
        t.5 < 60,
        secs == 86400 * (secs as int / 86400) + 3600 * t.3 + 60 * t.4 + t.5,
        exists|year: int|
            #![trigger is_date_of(secs as int / 86400, year, t.1 as int, t.2 as int)]
            is_date_of(secs as int / 86400, year, t.1 as int, t.2 as int) && (year < 0x8000_0000
                ==> t.0 == year),
{
    let year = choose|year: i64|
        #![trigger is_date_of(secs as int / 86400, year as int, t.1 as int, t.2 as int)]
        is_date_of(secs as int / 86400, year as int, t.1 as int, t.2 as int) && t.0 == year as i32;
    assert(is_date_of(secs as int / 86400, year as int, t.1 as int, t.2 as int));
    let x = secs as int;
    assert(x % 86400 % 3600 == x % 3600) by {
        let day = x / 86400;
        assert(x == 86400 * day + x % 86400);
        assert(x % 3600 == (x % 86400) % 3600);
    }
    assert(x % 3600 % 60 == x % 60);
}

/// A date and time is shown with each part at its place: year, month and day,
/// then hours, minutes and seconds.
pub proof fn shown_times_hold_their_parts(t: (i32, u32, u32, u32, u32, u32))
    requires
        0 <= t.0 < 10000,
        t.1 < 100,
        t.2 < 100,
        t.3 < 100,
        t.4 < 100,
        t.5 < 100,
    ensures
        rendered_time(t).len() == 19,
        crate::text::decimal_value(rendered_time(t).subrange(0, 4)) == t.0,
        rendered_time(t)[4] == '-',
        crate::text::decimal_value(rendered_time(t).subrange(5, 7)) == t.1,
        rendered_time(t)[7] == '-',
        crate::text::decimal_value(rendered_time(t).subrange(8, 10)) == t.2,
        rendered_time(t)[10] == ' ',
        crate::text::decimal_value(rendered_time(t).subrange(11, 13)) == t.3,
        rendered_time(t)[13] == ':',
        crate::text::decimal_value(rendered_time(t).subrange(14, 16)) == t.4,
        rendered_time(t)[16] == ':',
        crate::text::decimal_value(rendered_time(t).subrange(17, 19)) == t.5,
{
    reveal_strlit("-");
    reveal_strlit(" ");
    reveal_strlit(":");
    crate::text::padded_decimals_denote_numbers(t.0 as nat, 4);
    crate::text::padded_decimals_denote_numbers(t.1 as nat, 2);
    crate::text::padded_decimals_denote_numbers(t.2 as nat, 2);
    crate::text::padded_decimals_denote_numbers(t.3 as nat, 2);
    crate::text::padded_decimals_denote_numbers(t.4 as nat, 2);
    crate::text::padded_decimals_denote_numbers(t.5 as nat, 2);
    let s = rendered_time(t);
    assert(s.subrange(0, 4) =~= crate::text::signed_padded(t.0 as int, 4));
    assert(s.subrange(5, 7) =~= two(t.1));
    assert(s.subrange(8, 10) =~= two(t.2));
    assert(s.subrange(11, 13) =~= two(t.3));
    assert(s.subrange(14, 16) =~= two(t.4));
    assert(s.subrange(17, 19) =~= two(t.5));
}

} // verus!
