//! What is proved of the Julian and the Gregorian calendar: the day number
//! grows with the date, every supported day has one date, and a date comes
//! back from its day number.

use crate::invalid_year_err::CalendarError;
use crate::julian_gregorian::{
    gregorian_date_on, gregorian_days_before_year, gregorian_from_jdn, gregorian_leap,
    gregorian_to_jdn, julian_date_on, julian_days_before_year, julian_from_jdn, julian_leap,
    julian_to_jdn, roman_days_before_month, roman_month_length, roman_year_length, Era,
    GregorianCalendar, JulianCalendar, GREGORIAN_FIRST_JANUARY_1_AD, GREGORIAN_MAX_DAY,
    GREGORIAN_MIN_DAY, GREGORIAN_YEAR_ADJUSTMENT, JULIAN_FIRST_JANUARY_1_AD, JULIAN_MAX_DAY,
    JULIAN_MIN_DAY, JULIAN_YEAR_ADJUSTMENT,
};
use vstd::prelude::*;

verus! {

/// The day of the year on which each month starts, counted from 0.
pub proof fn lemma_roman_month_starts(leap: bool)
    ensures
        roman_days_before_month(1, leap) == 0,
        roman_days_before_month(2, leap) == 31,
        roman_days_before_month(3, leap) == roman_year_length(leap) - 306,
        roman_days_before_month(4, leap) == roman_year_length(leap) - 275,
        roman_days_before_month(5, leap) == roman_year_length(leap) - 245,
        roman_days_before_month(6, leap) == roman_year_length(leap) - 214,
        roman_days_before_month(7, leap) == roman_year_length(leap) - 184,
        roman_days_before_month(8, leap) == roman_year_length(leap) - 153,
        roman_days_before_month(9, leap) == roman_year_length(leap) - 122,
        roman_days_before_month(10, leap) == roman_year_length(leap) - 92,
        roman_days_before_month(11, leap) == roman_year_length(leap) - 61,
        roman_days_before_month(12, leap) == roman_year_length(leap) - 31,
{
    reveal_with_fuel(roman_days_before_month, 13);
}

/// A date of a year lies within that year: the days before its month and its
/// day of the month together do not exceed the year's length, and a later
/// month starts after every day of an earlier one.
pub proof fn lemma_roman_day_of_year(month: int, day: int, later: int, leap: bool)
    requires
        1 <= month <= 12,
        1 <= day <= roman_month_length(month, leap),
        month <= later <= 12,
    ensures
        0 <= roman_days_before_month(month, leap),
        roman_days_before_month(month, leap) + day <= roman_year_length(leap),
        month < later ==> roman_days_before_month(month, leap) + day <= roman_days_before_month(
            later,
            leap,
        ),
{
    lemma_roman_month_starts(leap);
}

/// Adding a multiple of the divisor to a number adds the factor to the
/// quotient and leaves the remainder.
pub proof fn lemma_add_multiple(x: int, k: int, d: int)
    requires
        0 < d,
    ensures
        (x + k * d) / d == x / d + k,
        (x + k * d) % d == x % d,
{
    vstd::arithmetic::div_mod::lemma_hoist_over_denominator(x, k, d as nat);
    vstd::arithmetic::div_mod::lemma_mod_multiples_vanish(k, x, d);
    assert(k * d == d * k) by (nonlinear_arith);
}

/// Adding the adjustment of 4400 years moves the start of a year by eleven
/// cycles of 400 years and keeps the leap rule.
pub proof fn lemma_gregorian_shift(year: int)
    ensures
        gregorian_days_before_year(year + GREGORIAN_YEAR_ADJUSTMENT) == gregorian_days_before_year(
            year,
        ) + 11 * 146097,
        gregorian_leap(year + GREGORIAN_YEAR_ADJUSTMENT) == gregorian_leap(year),
{
    lemma_add_multiple(year - 1, 1100, 4);
    lemma_add_multiple(year - 1, 44, 100);
    lemma_add_multiple(year - 1, 11, 400);
    lemma_add_multiple(year, 1100, 4);
    lemma_add_multiple(year, 44, 100);
    lemma_add_multiple(year, 11, 400);
}

/// The start and the leap rule of the year that lies `big` cycles of 400
/// years, `medium` centuries, `small` cycles of 4 years and `single` years
/// after year 1.
pub proof fn lemma_gregorian_cycles(big: int, medium: int, small: int, single: int)
    requires
        0 <= medium <= 3,
        0 <= small <= 24,
        0 <= single <= 3,
    ensures
        gregorian_days_before_year(big * 400 + medium * 100 + small * 4 + single + 1) == big
            * 146097 + medium * 36524 + small * 1461 + single * 365,
        gregorian_leap(big * 400 + medium * 100 + small * 4 + single + 1) == (single == 3 && (small
            != 24 || medium == 3)),
{
    let n = big * 400 + medium * 100 + small * 4 + single;
    assert(n / 400 == big);
    assert(n / 100 == big * 4 + medium);
    assert(n / 4 == big * 100 + medium * 25 + small);
    assert((n + 1) % 4 == 0 <==> single == 3);
    assert((n + 1) % 100 == 0 <==> single == 3 && small == 24);
    assert((n + 1) % 400 == 0 <==> single == 3 && small == 24 && medium == 3);
}

/// Peeling cycles off a count of days since the start of year 1 leaves a
/// day of the year that the cycles lead to.
pub proof fn lemma_gregorian_peel(days: int, big: int, medium: int, small: int, single: int)
    requires
        0 <= days,
        big == days / 146097,
        medium == if (days - big * 146097) / 36524 < 3 {
            (days - big * 146097) / 36524
        } else {
            3
        },
        small == if (days - big * 146097 - medium * 36524) / 1461 < 24 {
            (days - big * 146097 - medium * 36524) / 1461
        } else {
            24
        },
        single == if (days - big * 146097 - medium * 36524 - small * 1461) / 365 < 3 {
            (days - big * 146097 - medium * 36524 - small * 1461) / 365
        } else {
            3
        },
    ensures
        0 <= big,
        0 <= medium <= 3,
        0 <= small <= 24,
        0 <= single <= 3,
        gregorian_days_before_year(big * 400 + medium * 100 + small * 4 + single + 1) == big
            * 146097 + medium * 36524 + small * 1461 + single * 365,
        0 <= days - gregorian_days_before_year(
            big * 400 + medium * 100 + small * 4 + single + 1,
        ) < roman_year_length(
            gregorian_leap(big * 400 + medium * 100 + small * 4 + single + 1),
        ),
{
    let r1 = days - big * 146097;
    assert(0 <= r1 < 146097);
    let r2 = r1 - medium * 36524;
    assert(0 <= r2 < 36524 || (medium == 3 && 0 <= r2 < 36525));
    let r3 = r2 - small * 1461;
    assert(0 <= r3 < 1461);
    assert(small == 24 && medium < 3 ==> r3 < 1460);
    let r4 = r3 - single * 365;
    assert(0 <= r4 < 366);
    assert(single < 3 ==> r4 < 365);
    assert(single == 3 && small == 24 && medium < 3 ==> r4 < 365);
    lemma_gregorian_cycles(big, medium, small, single);
}

/// A year starts as many days after the one before as that one is long.
pub proof fn lemma_gregorian_year_step(year: int)
    ensures
        gregorian_days_before_year(year + 1) == gregorian_days_before_year(year)
            + roman_year_length(gregorian_leap(year)),
{
}

/// Later years start later, by at least 365 days for each year between.
pub proof fn lemma_gregorian_years_ordered(a: int, b: int)
    requires
        a <= b,
    ensures
        gregorian_days_before_year(a) + 365 * (b - a) <= gregorian_days_before_year(b),
    decreases b - a,
{
    if a < b {
        lemma_gregorian_years_ordered(a, b - 1);
        lemma_gregorian_year_step(b - 1);
    }
}

/// A year whose first day lies in the supported days is a year from 4400 BC
/// to the last year that the year field holds.
pub proof fn lemma_gregorian_window(year: int, first_day: int)
    requires
        first_day == GREGORIAN_FIRST_JANUARY_1_AD + gregorian_days_before_year(year),
        GREGORIAN_MIN_DAY <= first_day + 365,
        first_day <= GREGORIAN_MAX_DAY,
    ensures
        1 - GREGORIAN_YEAR_ADJUSTMENT <= year <= u32::MAX,
{
    if year > u32::MAX {
        lemma_gregorian_years_ordered(u32::MAX + 1, year);
    }
    if year < 1 - GREGORIAN_YEAR_ADJUSTMENT {
        lemma_gregorian_years_ordered(year, -GREGORIAN_YEAR_ADJUSTMENT);
    }
}

/// Monotonicity: of two valid Gregorian dates the earlier one, by era and
/// year, then month, then day, has the smaller day number.
pub proof fn lemma_gregorian_monotonic(a: GregorianCalendar, b: GregorianCalendar)
    requires
        a.spec_valid(),
        b.spec_valid(),
        a.precedes(&b),
    ensures
        a.day_number() < b.day_number(),
{
    let ya = a.astronomical_year();
    let yb = b.astronomical_year();
    lemma_roman_day_of_year(a.month as int, a.day as int, 12, a.spec_is_leap_year());
    lemma_roman_day_of_year(b.month as int, b.day as int, 12, b.spec_is_leap_year());
    if ya < yb {
        lemma_gregorian_year_step(ya);
        lemma_gregorian_years_ordered(ya + 1, yb);
    } else if a.month < b.month {
        lemma_roman_day_of_year(a.month as int, a.day as int, b.month as int, a.spec_is_leap_year());
    }
}

/// Two valid Gregorian dates with the same day number are the same date.
pub proof fn lemma_gregorian_day_number_injective(a: GregorianCalendar, b: GregorianCalendar)
    requires
        a.spec_valid(),
        b.spec_valid(),
        a.day_number() == b.day_number(),
    ensures
        a == b,
{
    if a.precedes(&b) {
        lemma_gregorian_monotonic(a, b);
    }
    if b.precedes(&a) {
        lemma_gregorian_monotonic(b, a);
    }
}

/// Round trip: the day number of a valid Gregorian date from 4400 BC on
/// leads back to that date.
pub proof fn lemma_gregorian_round_trip(date: GregorianCalendar)
    requires
        date.spec_valid(),
        date.in_window(),
    ensures
        gregorian_to_jdn(date) == Ok::<int, CalendarError>(date.day_number()),
        gregorian_from_jdn(date.day_number()) == Ok::<GregorianCalendar, CalendarError>(date),
{
    let y = date.astronomical_year();
    lemma_roman_day_of_year(date.month as int, date.day as int, 12, date.spec_is_leap_year());
    lemma_gregorian_years_ordered(1 - GREGORIAN_YEAR_ADJUSTMENT, y);
    lemma_gregorian_years_ordered(y, u32::MAX as int);
    lemma_gregorian_year_step(u32::MAX as int);
    lemma_gregorian_day_number_injective(date, gregorian_date_on(date.day_number()));
}

/// Finds the month and the day of the month of the day that follows `days`
/// whole days of a year.
pub proof fn lemma_roman_month_of_day(days: int, leap: bool) -> (r: (int, int))
    requires
        0 <= days < roman_year_length(leap),
    ensures
        1 <= r.0 <= 12,
        1 <= r.1 <= roman_month_length(r.0, leap),
        roman_days_before_month(r.0, leap) + r.1 - 1 == days,
{
    lemma_roman_month_starts(leap);
    let month: int = if days < roman_days_before_month(2, leap) {
        1
    } else if days < roman_days_before_month(3, leap) {
        2
    } else if days < roman_days_before_month(4, leap) {
        3
    } else if days < roman_days_before_month(5, leap) {
        4
    } else if days < roman_days_before_month(6, leap) {
        5
    } else if days < roman_days_before_month(7, leap) {
        6
    } else if days < roman_days_before_month(8, leap) {
        7
    } else if days < roman_days_before_month(9, leap) {
        8
    } else if days < roman_days_before_month(10, leap) {
        9
    } else if days < roman_days_before_month(11, leap) {
        10
    } else if days < roman_days_before_month(12, leap) {
        11
    } else {
        12
    };
    (month, days - roman_days_before_month(month, leap) + 1)
}

/// Every supported day has a Gregorian date: the date that the day number
/// leads to is valid, lies in the supported years and has that day number.
pub proof fn lemma_gregorian_date_exists(julian_day: int)
    requires
        GREGORIAN_MIN_DAY <= julian_day <= GREGORIAN_MAX_DAY,
    ensures
        gregorian_date_on(julian_day).spec_valid(),
        gregorian_date_on(julian_day).in_window(),
        gregorian_date_on(julian_day).day_number() == julian_day,
{
    let days = julian_day - GREGORIAN_MIN_DAY;
    let big = days / 146097;
    let r1 = days - big * 146097;
    let medium = if r1 / 36524 < 3 {
        r1 / 36524
    } else {
        3
    };
    let r2 = r1 - medium * 36524;
    let small = if r2 / 1461 < 24 {
        r2 / 1461
    } else {
        24
    };
    let r3 = r2 - small * 1461;
    let single = if r3 / 365 < 3 {
        r3 / 365
    } else {
        3
    };
    lemma_gregorian_peel(days, big, medium, small, single);
    let year = big * 400 + medium * 100 + small * 4 + single + 1 - GREGORIAN_YEAR_ADJUSTMENT;
    lemma_gregorian_shift(year);
    let days_left = days - gregorian_days_before_year(year + GREGORIAN_YEAR_ADJUSTMENT);
    lemma_gregorian_window(year, julian_day - days_left);
    let (month, day) = lemma_roman_month_of_day(days_left, gregorian_leap(year));
    let date = if year <= 0 {
        GregorianCalendar {
            era: Era::BC,
            year: (1 - year) as u32,
            month: month as u8,
            day: day as u8,
        }
    } else {
        GregorianCalendar { era: Era::AD, year: year as u32, month: month as u8, day: day as u8 }
    };
    assert(date.astronomical_year() == year);
    assert(date.spec_valid() && date.in_window() && date.day_number() == julian_day);
}

/// Round trip of a day: every supported day has a Gregorian date, and the
/// date has the day's number.
pub proof fn lemma_gregorian_day_round_trip(julian_day: int)
    requires
        GREGORIAN_MIN_DAY <= julian_day <= GREGORIAN_MAX_DAY,
    ensures
        gregorian_from_jdn(julian_day) matches Ok(date) && gregorian_to_jdn(date) == Ok::<
            int,
            CalendarError,
        >(julian_day),
{
    lemma_gregorian_date_exists(julian_day);
}

/// The turn of the year: 1 January follows on 31 December of the year
/// before, also where 1 BC turns into AD 1.
pub proof fn lemma_gregorian_year_end(last: GregorianCalendar, first: GregorianCalendar)
    requires
        last.month == 12,
        last.day == 31,
        first.month == 1,
        first.day == 1,
        first.astronomical_year() == last.astronomical_year() + 1,
    ensures
        last.day_number() + 1 == first.day_number(),
{
    lemma_gregorian_year_step(last.astronomical_year());
    lemma_roman_month_starts(last.spec_is_leap_year());
}

/// Adding the adjustment of 4712 years moves the start of a Julian year by
/// 1178 cycles of 4 years and keeps the leap rule.
pub proof fn lemma_julian_shift(year: int)
    ensures
        julian_days_before_year(year + JULIAN_YEAR_ADJUSTMENT) == julian_days_before_year(year)
            + 1178 * 1461,
        julian_leap(year + JULIAN_YEAR_ADJUSTMENT) == julian_leap(year),
{
    lemma_add_multiple(year - 1, 1178, 4);
    lemma_add_multiple(year, 1178, 4);
}

/// The start and the leap rule of the Julian year that lies `big` cycles of
/// 4 years and `single` years after year 1, and the days that are left of a
/// count of days since the start of year 1 once these are peeled off.
pub proof fn lemma_julian_cycles(big: int, single: int)
    requires
        0 <= single <= 3,
    ensures
        julian_days_before_year(big * 4 + single + 1) == big * 1461 + single * 365,
        julian_leap(big * 4 + single + 1) == (single == 3),
{
    let n = big * 4 + single;
    assert(n / 4 == big);
    assert((n + 1) % 4 == 0 <==> single == 3);
}

/// A Julian year starts as many days after the one before as that one is
/// long.
pub proof fn lemma_julian_year_step(year: int)
    ensures
        julian_days_before_year(year + 1) == julian_days_before_year(year) + roman_year_length(
            julian_leap(year),
        ),
{
}

/// Later Julian years start later, by at least 365 days for each year
/// between.
pub proof fn lemma_julian_years_ordered(a: int, b: int)
    requires
        a <= b,
    ensures
        julian_days_before_year(a) + 365 * (b - a) <= julian_days_before_year(b),
    decreases b - a,
{
    if a < b {
        lemma_julian_years_ordered(a, b - 1);
        lemma_julian_year_step(b - 1);
    }
}

/// A Julian year whose first day lies in the supported days is a year from
/// 4712 BC to the last year that the year field holds.
pub proof fn lemma_julian_window(year: int, first_day: int)
    requires
        first_day == JULIAN_FIRST_JANUARY_1_AD + julian_days_before_year(year),
        JULIAN_MIN_DAY <= first_day + 365,
        first_day <= JULIAN_MAX_DAY,
    ensures
        1 - JULIAN_YEAR_ADJUSTMENT <= year <= u32::MAX,
{
    if year > u32::MAX {
        lemma_julian_years_ordered(u32::MAX + 1, year);
    }
    if year < 1 - JULIAN_YEAR_ADJUSTMENT {
        lemma_julian_years_ordered(year, -JULIAN_YEAR_ADJUSTMENT);
    }
}

/// Monotonicity: of two valid Julian dates the earlier one, by era and year,
/// then month, then day, has the smaller day number.
pub proof fn lemma_julian_monotonic(a: JulianCalendar, b: JulianCalendar)
    requires
        a.spec_valid(),
        b.spec_valid(),
        a.precedes(&b),
    ensures
        a.day_number() < b.day_number(),
{
    let ya = a.astronomical_year();
    let yb = b.astronomical_year();
    lemma_roman_day_of_year(a.month as int, a.day as int, 12, a.spec_is_leap_year());
    lemma_roman_day_of_year(b.month as int, b.day as int, 12, b.spec_is_leap_year());
    if ya < yb {
        lemma_julian_year_step(ya);
        lemma_julian_years_ordered(ya + 1, yb);
    } else if a.month < b.month {
        lemma_roman_day_of_year(a.month as int, a.day as int, b.month as int, a.spec_is_leap_year());
    }
}

/// Two valid Julian dates with the same day number are the same date.
pub proof fn lemma_julian_day_number_injective(a: JulianCalendar, b: JulianCalendar)
    requires
        a.spec_valid(),
        b.spec_valid(),
        a.day_number() == b.day_number(),
    ensures
        a == b,
{
    if a.precedes(&b) {
        lemma_julian_monotonic(a, b);
    }
    if b.precedes(&a) {
        lemma_julian_monotonic(b, a);
    }
}

/// Round trip: the day number of a valid Julian date from 4712 BC on leads
/// back to that date.
pub proof fn lemma_julian_round_trip(date: JulianCalendar)
    requires
        date.spec_valid(),
        date.in_window(),
    ensures
        julian_to_jdn(date) == Ok::<int, CalendarError>(date.day_number()),
        julian_from_jdn(date.day_number()) == Ok::<JulianCalendar, CalendarError>(date),
{
    let y = date.astronomical_year();
    lemma_roman_day_of_year(date.month as int, date.day as int, 12, date.spec_is_leap_year());
    lemma_julian_years_ordered(1 - JULIAN_YEAR_ADJUSTMENT, y);
    lemma_julian_years_ordered(y, u32::MAX as int);
    lemma_julian_year_step(u32::MAX as int);
    lemma_julian_day_number_injective(date, julian_date_on(date.day_number()));
}

/// Every supported day has a Julian date: the date that the day number
/// leads to is valid, lies in the supported years and has that day number.
pub proof fn lemma_julian_date_exists(julian_day: int)
    requires
        JULIAN_MIN_DAY <= julian_day <= JULIAN_MAX_DAY,
    ensures
        julian_date_on(julian_day).spec_valid(),
        julian_date_on(julian_day).in_window(),
        julian_date_on(julian_day).day_number() == julian_day,
{
    let days = julian_day - JULIAN_MIN_DAY;
    let big = days / 1461;
    let r1 = days - big * 1461;
    let single = if r1 / 365 < 3 {
        r1 / 365
    } else {
        3
    };
    lemma_julian_cycles(big, single);
    let year = big * 4 + single + 1 - JULIAN_YEAR_ADJUSTMENT;
    lemma_julian_shift(year);
    let days_left = r1 - single * 365;
    lemma_julian_window(year, julian_day - days_left);
    let (month, day) = lemma_roman_month_of_day(days_left, julian_leap(year));
    let date = if year <= 0 {
        JulianCalendar { era: Era::BC, year: (1 - year) as u32, month: month as u8, day: day as u8 }
    } else {
        JulianCalendar { era: Era::AD, year: year as u32, month: month as u8, day: day as u8 }
    };
    assert(date.astronomical_year() == year);
    assert(date.spec_valid() && date.in_window() && date.day_number() == julian_day);
}

/// Round trip of a day: every supported day has a Julian date, and the date
/// has the day's number.
pub proof fn lemma_julian_day_round_trip(julian_day: int)
    requires
        JULIAN_MIN_DAY <= julian_day <= JULIAN_MAX_DAY,
    ensures
        julian_from_jdn(julian_day) matches Ok(date) && julian_to_jdn(date) == Ok::<
            int,
            CalendarError,
        >(julian_day),
{
    lemma_julian_date_exists(julian_day);
}

/// The turn of the year: 1 January follows on 31 December of the year
/// before, also where 1 BC turns into AD 1.
pub proof fn lemma_julian_year_end(last: JulianCalendar, first: JulianCalendar)
    requires
        last.month == 12,
        last.day == 31,
        first.month == 1,
        first.day == 1,
        first.astronomical_year() == last.astronomical_year() + 1,
    ensures
        last.day_number() + 1 == first.day_number(),
{
    lemma_julian_year_step(last.astronomical_year());
    lemma_roman_month_starts(last.spec_is_leap_year());
}

} // verus!
