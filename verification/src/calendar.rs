//! The Gregorian calendar that the generation timestamp is written in, and
//! what the day-count conversion keeps of it.
use vstd::prelude::*;

use crate::sec_header::civil_time;

verus! {

/// Days from 0000-03-01 to the start of year `y` of a 400-year era (years
/// counted from March, so a year's leap day is its last).
pub open spec fn era_year_start(y: int) -> int {
    365 * y + y / 4 - y / 100
}

/// The year of era `doe` falls in (the conversion's own formula).
pub open spec fn era_year_of(doe: int) -> int {
    (doe - doe / 1460 + doe / 36524 - doe / 146096) / 365
}

proof fn lemma_era_year(doe: int)
    requires
        0 <= doe <= 146096,
    ensures
        0 <= era_year_of(doe) <= 399,
        era_year_start(era_year_of(doe)) <= doe,
        doe < era_year_start(era_year_of(doe) + 1) + (if era_year_of(doe) == 399 { 1int } else { 0int }),
{
}

/// The month and day of day `doy` of a year counted from March 1
/// (the conversion's own formula).
pub open spec fn month_day_of(doy: int) -> (int, int) {
    let mp = (5 * doy + 2) / 153;
    let d = doy - (153 * mp + 2) / 5 + 1;
    (if mp < 10 { mp + 3 } else { mp - 9 }, d)
}

/// Days in month `m` of a year that is (`leap`) or is not a leap year.
pub open spec fn days_in(leap: bool, m: int) -> int {
    if m == 2 {
        if leap { 29 } else { 28 }
    } else if m == 4 || m == 6 || m == 9 || m == 11 {
        30
    } else {
        31
    }
}

/// The day after month `m`, day `d`, within a year; a new year starts after
/// December 31 (`(1, 1)`).
pub open spec fn step_day(leap: bool, m: int, d: int) -> (int, int) {
    if d < days_in(leap, m) {
        (m, d + 1)
    } else if m < 12 {
        (m + 1, 1)
    } else {
        (1, 1)
    }
}

proof fn lemma_month_day(doy: int)
    requires
        0 <= doy <= 365,
    ensures
        1 <= month_day_of(doy).0 <= 12,
        1 <= month_day_of(doy).1 <= days_in(doy == 365, month_day_of(doy).0),
        doy == 0 ==> month_day_of(doy) == (3int, 1int),
        doy == 364 ==> month_day_of(doy) == (2int, 28int),
        doy == 365 ==> month_day_of(doy) == (2int, 29int),
        doy < 364 ==> month_day_of(doy + 1) == step_day(false, month_day_of(doy).0, month_day_of(doy).1),
        doy < 364 ==> month_day_of(doy).0 != 2 || month_day_of(doy).1 < 28,
{
}

/// A leap year of the Gregorian calendar.
pub open spec fn is_leap(y: int) -> bool {
    (y % 4 == 0 && y % 100 != 0) || y % 400 == 0
}

/// `(y, m, d)` is a date: a month of the year and a day of that month.
pub open spec fn valid_date(y: int, m: int, d: int) -> bool {
    1 <= m <= 12 && 1 <= d <= days_in(is_leap(y), m)
}

/// The date after `(y, m, d)`.
pub open spec fn next_date(y: int, m: int, d: int) -> (int, int, int) {
    let (m2, d2) = step_day(is_leap(y), m, d);
    (if m2 == 1 && d2 == 1 { y + 1 } else { y }, m2, d2)
}

/// Days in year `y` of an era (the last year of an era ends on the era's
/// leap day).
pub open spec fn era_year_len(y: int) -> int {
    era_year_start(y + 1) - era_year_start(y) + if y == 399 { 1int } else { 0int }
}

proof fn lemma_era_year_len(y: int, era: int)
    requires
        0 <= y <= 399,
    ensures
        era_year_len(y) == 365 || era_year_len(y) == 366,
        era_year_len(y) == 366 <==> is_leap(y + 1 + era * 400),
{
}

proof fn lemma_start_increasing(a: int, b: int)
    requires
        0 <= a < b,
    ensures
        era_year_start(a + 1) <= era_year_start(b),
{
}

proof fn lemma_era_year_unique(doe: int, y: int)
    requires
        0 <= doe <= 146096,
        0 <= y <= 399,
        era_year_start(y) <= doe < era_year_start(y) + era_year_len(y),
    ensures
        era_year_of(doe) == y,
{
    lemma_era_year(doe);
    let x = era_year_of(doe);
    if x < y {
        lemma_start_increasing(x, y);
    } else if y < x {
        lemma_start_increasing(y, x);
    }
}

/// The date of day `days` after the Unix epoch, as the conversion computes it.
pub open spec fn date_at(days: int) -> (int, int, int) {
    let z = days + 719468;
    let era = z / 146097;
    let doe = z - era * 146097;
    let yoe = era_year_of(doe);
    let (m, d) = month_day_of(doe - era_year_start(yoe));
    (if m <= 2 { yoe + era * 400 + 1 } else { yoe + era * 400 }, m, d)
}

proof fn lemma_date_at(days: int)
    ensures
        valid_date(date_at(days).0, date_at(days).1, date_at(days).2),
        date_at(days + 1) == next_date(date_at(days).0, date_at(days).1, date_at(days).2),
{
    let z = days + 719468;
    let era = z / 146097;
    let doe = z - era * 146097;
    lemma_era_year(doe);
    let yoe = era_year_of(doe);
    let doy = doe - era_year_start(yoe);
    lemma_era_year_len(yoe, era);
    lemma_month_day(doy);
    let (m, d) = month_day_of(doy);
    let y = if m <= 2 { yoe + era * 400 + 1 } else { yoe + era * 400 };
    assert(date_at(days) == (y, m, d));
    assert(doy == 365 ==> m == 2 && is_leap(y));
    if doe < 146096 {
        assert((z + 1) / 146097 == era);
        if doy + 1 < era_year_len(yoe) {
            lemma_era_year_unique(doe + 1, yoe);
            lemma_month_day(doy + 1);
            assert(date_at(days + 1) == (if month_day_of(doy + 1).0 <= 2 { yoe + era * 400 + 1 } else { yoe + era * 400 },
                month_day_of(doy + 1).0, month_day_of(doy + 1).1));
            if doy == 364 {
                assert(is_leap(y));
            } else {
                assert(step_day(false, m, d) == step_day(is_leap(y), m, d));
            }
        } else {
            assert(yoe < 399);
            lemma_era_year(doe + 1);
            lemma_start_increasing(yoe + 1, yoe + 2);
            lemma_era_year_len(yoe + 1, era);
            lemma_era_year_unique(doe + 1, yoe + 1);
            lemma_month_day(0);
            assert(date_at(days + 1) == (yoe + 1 + era * 400, 3int, 1int));
        }
    } else {
        assert((z + 1) / 146097 == era + 1);
        assert(era_year_of(0) == 0);
        lemma_month_day(0);
        assert(era_year_of(146096int) == 399);
        assert(date_at(days + 1) == ((era + 1) * 400, 3int, 1int));
    }
}

/// The timestamp's calendar: every second falls on a valid date, at the time
/// of day that counts its seconds since midnight; one day later is the next
/// date at the same time of day; and second 0 is 1970-01-01 00:00:00. These
/// fix the date and time of every second.
#[verifier::rlimit(60)]
pub proof fn law_civil_time(secs: int)
    ensures
        valid_date(civil_time(secs).0, civil_time(secs).1, civil_time(secs).2),
        0 <= civil_time(secs).3 < 24,
        0 <= civil_time(secs).4 < 60,
        0 <= civil_time(secs).5 < 60,
        secs % 86400 == civil_time(secs).3 * 3600 + civil_time(secs).4 * 60 + civil_time(secs).5,
        (civil_time(secs + 86400).0, civil_time(secs + 86400).1, civil_time(secs + 86400).2)
            == next_date(civil_time(secs).0, civil_time(secs).1, civil_time(secs).2),
        (civil_time(secs + 86400).3, civil_time(secs + 86400).4, civil_time(secs + 86400).5)
            == (civil_time(secs).3, civil_time(secs).4, civil_time(secs).5),
        civil_time(0) == (1970int, 1int, 1int, 0int, 0int, 0int),
{
    let days = secs / 86400;
    assert((secs + 86400) / 86400 == days + 1);
    assert((secs + 86400) % 86400 == secs % 86400);
    lemma_date_at(days);
    lemma_civil_parts(secs);
    lemma_civil_parts(secs + 86400);
    lemma_time_of_day(secs % 86400);
    lemma_epoch();
}

proof fn lemma_time_of_day(t: int)
    requires
        0 <= t < 86400,
    ensures
        0 <= t / 3600 < 24,
        0 <= (t % 3600) / 60 < 60,
        0 <= (t % 3600) % 60 < 60,
        t == (t / 3600) * 3600 + ((t % 3600) / 60) * 60 + (t % 3600) % 60,
{
}

proof fn lemma_civil_parts(secs: int)
    ensures
        (civil_time(secs).0, civil_time(secs).1, civil_time(secs).2) == date_at(secs / 86400),
        (civil_time(secs).3, civil_time(secs).4, civil_time(secs).5)
            == ((secs % 86400) / 3600, ((secs % 86400) % 3600) / 60, (secs % 86400) % 60),
{
}

proof fn lemma_epoch()
    ensures
        civil_time(0) == (1970int, 1int, 1int, 0int, 0int, 0int),
{
    assert(era_year_of(135080int) == 369);
}

} // verus!
