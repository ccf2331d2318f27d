//! What is proved of the Hebrew calendar: the cadence of its leap years,
//! the weekdays and the distances of its new years, and on which days a date
//! comes back from its day number.

use crate::hebrew::{
    hebrew_date_in_year, hebrew_days_before_month, hebrew_days_before_month_rule,
    hebrew_from_jdn, hebrew_leap, hebrew_molad_parts, hebrew_molad_year,
    hebrew_molad_year_holds, hebrew_month_length_rule, hebrew_months_before_year,
    hebrew_months_days, hebrew_months_in_year, hebrew_months_in_year_rule, hebrew_new_year,
    hebrew_next_postponement, hebrew_postponement_at, hebrew_tishrei_1_at, hebrew_to_jdn,
    HebrewDate, DAY_LENGTH_PARTS, HEBREW_MIN_DAY, MOLAD_LENGTH_PARTS, MOLAD_NUM_LENGTH,
    MOLAD_TISHREI_1_PARTS,
};
use crate::invalid_year_err::CalendarError;
use vstd::prelude::*;

verus! {

/// The table of the months of the years of a cycle agrees with the rule for
/// leap years, and the months before a year grow by the months of the year
/// before.
pub proof fn lemma_hebrew_months_before_year(year: int)
    requires
        1 <= year,
    ensures
        hebrew_months_in_year(year) == MOLAD_NUM_LENGTH[(year - 1) % 19] as int,
        hebrew_months_before_year(year + 1) == hebrew_months_before_year(year)
            + hebrew_months_in_year(year),
        0 <= hebrew_months_before_year(year) <= 235 * (year - 1),
{
    let c = (year - 1) / 19;
    let i = (year - 1) % 19;
    assert(year % 19 == if i == 18 {
        0
    } else {
        i + 1
    });
    if i == 18 {
        assert(year / 19 == c + 1);
        assert(year % 19 == 0);
    } else {
        assert(year / 19 == c);
        assert(year % 19 == i + 1);
    }
}

/// Later years have more months before them, at least 12 for each year
/// between.
pub proof fn lemma_hebrew_months_ordered(a: int, b: int)
    requires
        1 <= a <= b,
    ensures
        hebrew_months_before_year(a) + 12 * (b - a) <= hebrew_months_before_year(b),
    decreases b - a,
{
    if a < b {
        lemma_hebrew_months_ordered(a, b - 1);
        lemma_hebrew_months_before_year(b - 1);
    }
}

/// The year whose molad is the last that does not fall after `parts` is the
/// only one of which this holds.
pub proof fn lemma_hebrew_molad_year_unique(parts: int, year: int)
    requires
        hebrew_molad_year_holds(year, parts),
    ensures
        hebrew_molad_year(parts) == year,
{
    let other = hebrew_molad_year(parts);
    assert(hebrew_molad_year_holds(other, parts));
    if other < year {
        lemma_hebrew_months_ordered(other + 1, year);
    }
    if year < other {
        lemma_hebrew_months_ordered(year + 1, other);
    }
}

/// Year 1 starts on the first supported day, the day after its molad.
pub proof fn lemma_hebrew_first_new_year()
    ensures
        hebrew_molad_parts(1) == MOLAD_TISHREI_1_PARTS,
        hebrew_new_year(1) == HEBREW_MIN_DAY,
{
    assert(hebrew_molad_parts(1) == 347996 * 25920 + 25044);
    assert(hebrew_molad_parts(1) / 25920 == 347996);
    assert(hebrew_molad_parts(1) % 25920 == 25044);
    assert((347996 + 2) % 7 == 0int);
}

/// A later month starts no earlier than an earlier one.
pub proof fn lemma_hebrew_days_before_month_ordered(
    first: int,
    second: int,
    leap: bool,
    next_postponement: int,
)
    requires
        1 <= first <= second <= hebrew_months_in_year_rule(leap) + 1,
    ensures
        0 <= hebrew_days_before_month_rule(first, leap, next_postponement)
            <= hebrew_days_before_month_rule(second, leap, next_postponement),
    decreases second - first + first,
{
    if first < second {
        lemma_hebrew_days_before_month_ordered(first, second - 1, leap, next_postponement);
    } else if first > 1 {
        lemma_hebrew_days_before_month_ordered(first - 1, first - 1, leap, next_postponement);
    }
}

/// The valid date of a year before which a number of days of the year lie
/// is the only one.
pub proof fn lemma_hebrew_date_in_year_unique(date: HebrewDate)
    requires
        date.spec_valid(),
    ensures
        hebrew_date_in_year(date.year as int, date.day_of_year()) == date,
{
    let other = hebrew_date_in_year(date.year as int, date.day_of_year());
    assert(other.year == date.year && other.spec_valid() && other.day_of_year()
        == date.day_of_year());
    let leap = hebrew_leap(date.year as int);
    let np = hebrew_next_postponement(date.year as int);
    if other.month < date.month {
        lemma_hebrew_days_before_month_ordered(other.month + 1, date.month as int, leap, np);
    }
    if date.month < other.month {
        lemma_hebrew_days_before_month_ordered(date.month + 1, other.month as int, leap, np);
    }
}

/// Number of leap years among the `count` years from `first` on.
pub open spec fn hebrew_leap_years_in(first: int, count: nat) -> nat
    decreases count,
{
    if count == 0 {
        0
    } else {
        hebrew_leap_years_in(first, (count - 1) as nat) + if hebrew_leap(first + count - 1) {
            1nat
        } else {
            0nat
        }
    }
}

/// The leap years among some years in a row are the months of these years
/// beyond twelve each.
pub proof fn lemma_hebrew_leap_years_count(first: int, count: nat)
    requires
        1 <= first,
    ensures
        hebrew_leap_years_in(first, count) == hebrew_months_before_year(first + count)
            - hebrew_months_before_year(first) - 12 * count,
    decreases count,
{
    if count > 0 {
        lemma_hebrew_leap_years_count(first, (count - 1) as nat);
        lemma_hebrew_months_before_year(first + count - 1);
    }
}

/// Leap cadence: of any 19 years in a row exactly 7 are leap years, so that
/// they hold 235 months.
pub proof fn lemma_hebrew_leap_cadence(first: int)
    requires
        1 <= first,
    ensures
        hebrew_leap_years_in(first, 19) == 7,
        hebrew_months_before_year(first + 19) == hebrew_months_before_year(first) + 235,
{
    lemma_hebrew_leap_years_count(first, 19);
    assert((first + 18) / 19 == (first - 1) / 19 + 1);
    assert((first + 18) % 19 == (first - 1) % 19);
}

/// Weekday rule: no new year falls on a Sunday, a Wednesday or a Friday.
pub proof fn lemma_hebrew_new_year_weekday(year: int)
    requires
        1 <= year,
    ensures
        (hebrew_new_year(year) + 2) % 7 != 0,
        (hebrew_new_year(year) + 2) % 7 != 3,
        (hebrew_new_year(year) + 2) % 7 != 5,
{
    lemma_hebrew_months_before_year(year);
}

/// The days in the months of a year: 353 in a common year and 383 in a leap
/// year, and one more for each day by which the next new year is put off.
pub proof fn lemma_hebrew_months_days(leap: bool, next_postponement: int)
    requires
        0 <= next_postponement <= 2,
    ensures
        hebrew_days_before_month_rule(
            hebrew_months_in_year_rule(leap) + 1,
            leap,
            next_postponement,
        ) == if leap {
            383 + next_postponement
        } else {
            353 + next_postponement
        },
        hebrew_days_before_month_rule(hebrew_months_in_year_rule(leap), leap, next_postponement)
            == if leap {
            354 + next_postponement
        } else {
            324 + next_postponement
        },
{
    reveal_with_fuel(hebrew_days_before_month_rule, 15);
}

/// How the new year moves over a year whose molad of Tishrei falls at
/// `parts`, whatever the kinds of the year, of the year before and of the
/// year after are. The next new year comes 353 to 355 days later after the
/// 12 months of a common year and 383 to 385 days later after the 13 months
/// of a leap year. The days by which the next new year is put off differ by
/// at most one from the days by which that span exceeds the shortest one.
pub proof fn lemma_hebrew_new_year_step(
    parts: int,
    leap: bool,
    after_leap: bool,
    next_leap: bool,
)
    requires
        0 <= parts,
    ensures
        ({
            let months = hebrew_months_in_year_rule(leap);
            let next = parts + months * MOLAD_LENGTH_PARTS;
            let span = hebrew_tishrei_1_at(next, next_leap, leap) - hebrew_tishrei_1_at(
                parts,
                leap,
                after_leap,
            );
            let short = if leap {
                383int
            } else {
                353int
            };
            &&& short <= span <= short + 2
            &&& -1 <= short + hebrew_postponement_at(next, next_leap, leap) - span <= 1
        }),
{
    let day = parts / 25920;
    let time = parts % 25920;
    let weekday = (day + 2) % 7;
    assert(parts == 25920 * day + time);
    if leap {
        let next = parts + 13 * 765433;
        assert(next == 25920 * (day + 383) + time + 23269);
        if time + 23269 < 25920 {
            assert(next / 25920 == day + 383);
            assert(next % 25920 == time + 23269);
            assert((day + 383 + 2) % 7 == (weekday + 5) % 7);
        } else {
            assert(next / 25920 == day + 384);
            assert(next % 25920 == time + 23269 - 25920);
            assert((day + 384 + 2) % 7 == (weekday + 6) % 7);
        }
    } else {
        let next = parts + 12 * 765433;
        assert(next == 25920 * (day + 354) + time + 9516);
        if time + 9516 < 25920 {
            assert(next / 25920 == day + 354);
            assert(next % 25920 == time + 9516);
            assert((day + 354 + 2) % 7 == (weekday + 4) % 7);
        } else {
            assert(next / 25920 == day + 355);
            assert(next % 25920 == time + 9516 - 25920);
            assert((day + 355 + 2) % 7 == (weekday + 5) % 7);
        }
    }
}

/// Days from the new year of `year` to the next new year.
pub open spec fn hebrew_year_days(year: int) -> int {
    hebrew_new_year(year + 1) - hebrew_new_year(year)
}

/// Year length: from one new year to the next there are 353, 354 or 355
/// days in a common year and 383, 384 or 385 days in a leap year. The
/// months of the year hold that many days, or one more or one fewer.
pub proof fn lemma_hebrew_year_length(year: int)
    requires
        1 <= year,
    ensures
        !hebrew_leap(year) ==> 353 <= hebrew_year_days(year) <= 355,
        hebrew_leap(year) ==> 383 <= hebrew_year_days(year) <= 385,
        hebrew_year_days(year) - 1 <= hebrew_months_days(year) <= hebrew_year_days(year) + 1,
        hebrew_months_days(year) == hebrew_next_postponement(year) + if hebrew_leap(year) {
            383int
        } else {
            353int
        },
{
    lemma_hebrew_months_before_year(year);
    lemma_hebrew_new_year_step(
        hebrew_molad_parts(year),
        hebrew_leap(year),
        hebrew_leap(year - 1),
        hebrew_leap(year + 1),
    );
    lemma_hebrew_months_days(hebrew_leap(year), hebrew_next_postponement(year));
}

/// Every time from the molad of Tishrei of year 1 on has a year whose molad
/// is the last that does not fall after it.
pub proof fn lemma_hebrew_molad_year_exists(parts: int)
    requires
        MOLAD_TISHREI_1_PARTS <= parts,
    ensures
        hebrew_molad_year_holds(hebrew_molad_year(parts), parts),
{
    let months = (parts - MOLAD_TISHREI_1_PARTS) / 765433;
    let cycles = months / 235;
    let rest = months % 235;
    let i: int = if rest < 12 {
        0
    } else if rest < 24 {
        1
    } else if rest < 37 {
        2
    } else if rest < 49 {
        3
    } else if rest < 61 {
        4
    } else if rest < 74 {
        5
    } else if rest < 86 {
        6
    } else if rest < 99 {
        7
    } else if rest < 111 {
        8
    } else if rest < 123 {
        9
    } else if rest < 136 {
        10
    } else if rest < 148 {
        11
    } else if rest < 160 {
        12
    } else if rest < 173 {
        13
    } else if rest < 185 {
        14
    } else if rest < 197 {
        15
    } else if rest < 210 {
        16
    } else if rest < 222 {
        17
    } else {
        18
    };
    let year = cycles * 19 + i + 1;
    assert((year - 1) / 19 == cycles && (year - 1) % 19 == i);
    lemma_hebrew_months_before_year(year);
    assert(hebrew_months_before_year(year) <= months < hebrew_months_before_year(year + 1));
    assert(hebrew_molad_year_holds(year, parts));
}

/// Finds the month in which the day lies that follows `days` whole days of a
/// year, looking from `month` on.
pub proof fn lemma_hebrew_month_of_day(
    days: int,
    month: int,
    leap: bool,
    next_postponement: int,
) -> (r: int)
    requires
        1 <= month <= hebrew_months_in_year_rule(leap),
        hebrew_days_before_month_rule(month, leap, next_postponement) <= days
            < hebrew_days_before_month_rule(
            hebrew_months_in_year_rule(leap) + 1,
            leap,
            next_postponement,
        ),
    ensures
        month <= r <= hebrew_months_in_year_rule(leap),
        hebrew_days_before_month_rule(r, leap, next_postponement) <= days
            < hebrew_days_before_month_rule(r + 1, leap, next_postponement),
    decreases hebrew_months_in_year_rule(leap) - month,
{
    if days < hebrew_days_before_month_rule(month + 1, leap, next_postponement) {
        month
    } else {
        lemma_hebrew_month_of_day(days, month + 1, leap, next_postponement)
    }
}

/// Every day within the months of a year has a date: the date that the
/// count of days leads to is a valid date of the year before which that many
/// days of the year lie.
pub proof fn lemma_hebrew_date_in_year_exists(year: int, days: int)
    requires
        1 <= year <= u32::MAX,
        0 <= days < hebrew_months_days(year),
    ensures
        hebrew_date_in_year(year, days).year == year,
        hebrew_date_in_year(year, days).spec_valid(),
        hebrew_date_in_year(year, days).day_of_year() == days,
{
    let leap = hebrew_leap(year);
    let np = hebrew_next_postponement(year);
    let month = lemma_hebrew_month_of_day(days, 1, leap, np);
    let day = days - hebrew_days_before_month_rule(month, leap, np) + 1;
    let date = HebrewDate { year: year as u32, month: month as u8, day: day as u8 };
    assert(1 <= day <= hebrew_month_length_rule(month, leap, np) <= 31);
    assert(date.year == year && date.spec_valid() && date.day_of_year() == days);
}

/// Later years start later, by at least 353 days for each year between.
pub proof fn lemma_hebrew_new_years_ordered(a: int, b: int)
    requires
        1 <= a <= b,
    ensures
        hebrew_new_year(a) + 353 * (b - a) <= hebrew_new_year(b),
    decreases b - a,
{
    if a < b {
        lemma_hebrew_new_years_ordered(a, b - 1);
        lemma_hebrew_year_length(b - 1);
    }
}

/// A valid date lies within the months of its year.
pub proof fn lemma_hebrew_day_of_year(date: HebrewDate)
    requires
        date.spec_valid(),
    ensures
        0 <= date.day_of_year() < hebrew_months_days(date.year as int),
        date.month < hebrew_months_in_year(date.year as int) ==> date.day_of_year()
            < hebrew_days_before_month(
            date.year as int,
            hebrew_months_in_year(date.year as int),
        ),
{
    let leap = hebrew_leap(date.year as int);
    let np = hebrew_next_postponement(date.year as int);
    let months = hebrew_months_in_year_rule(leap);
    lemma_hebrew_days_before_month_ordered(1, date.month as int, leap, np);
    lemma_hebrew_days_before_month_ordered(date.month + 1, months + 1, leap, np);
    if date.month < months {
        lemma_hebrew_days_before_month_ordered(date.month + 1, months, leap, np);
    }
}

/// Whether two dates are the last day of a year and the first day of the
/// next, in a year whose months hold one day more than lie between its new
/// year and the next.
pub open spec fn hebrew_dates_collide(a: HebrewDate, b: HebrewDate) -> bool {
    &&& b.year == a.year + 1
    &&& b.month == 1
    &&& b.day == 1
    &&& a.month == hebrew_months_in_year(a.year as int)
    &&& a.day == 29
    &&& hebrew_months_days(a.year as int) == hebrew_year_days(a.year as int) + 1
}

/// Monotonicity: of two valid dates the earlier one, by year, then month,
/// then day, has the smaller day number, with one exception. Where the
/// months of a year hold one day more than lie between its new year and the
/// next, the last day of the year has the day number of the first day of the
/// next year.
pub proof fn lemma_hebrew_monotonic(a: HebrewDate, b: HebrewDate)
    requires
        a.spec_valid(),
        b.spec_valid(),
        a.precedes(&b),
    ensures
        a.day_number() <= b.day_number(),
        a.day_number() == b.day_number() <==> hebrew_dates_collide(a, b),
{
    lemma_hebrew_day_of_year(a);
    lemma_hebrew_day_of_year(b);
    let leap = hebrew_leap(a.year as int);
    let np = hebrew_next_postponement(a.year as int);
    if a.year < b.year {
        lemma_hebrew_year_length(a.year as int);
        lemma_hebrew_new_years_ordered(a.year + 1, b.year as int);
        lemma_hebrew_months_days(leap, np);
        lemma_hebrew_months_days(hebrew_leap(b.year as int), hebrew_next_postponement(b.year as int));
        if a.day_number() == b.day_number() {
            assert(b.year == a.year + 1);
            assert(b.day_of_year() == 0);
            if b.month > 1 {
                reveal_with_fuel(hebrew_days_before_month_rule, 3);
                lemma_hebrew_days_before_month_ordered(
                    2,
                    b.month as int,
                    hebrew_leap(b.year as int),
                    hebrew_next_postponement(b.year as int),
                );
            }
            assert(b.month == 1);
            assert(a.day_of_year() == hebrew_months_days(a.year as int) - 1);
        }
    } else if a.month < b.month {
        lemma_hebrew_days_before_month_ordered(a.month + 1, b.month as int, leap, np);
    }
}

/// Whether the months of a year hold as many days as lie between its new
/// year and the next.
pub open spec fn hebrew_year_fits(year: int) -> bool {
    hebrew_months_days(year) == hebrew_year_days(year)
}

/// Whether the day number of a date leads back to the date: the day starts
/// no earlier than the molad of Tishrei of the date's year, and either
/// before the molad of the next year, or in a year that fits and is not the
/// last that the year field holds.
pub open spec fn hebrew_round_trips(date: HebrewDate) -> bool {
    let start = date.day_number() * DAY_LENGTH_PARTS;
    &&& hebrew_molad_parts(date.year as int) <= start
    &&& (start < hebrew_molad_parts(date.year + 1) || (hebrew_year_fits(date.year as int)
        && date.year < u32::MAX))
}

/// A day that starts before the molad of Tishrei of a year does not lead to
/// a date of that year or a later one.
pub proof fn lemma_hebrew_day_before_molad(julian_day: int, year: int)
    requires
        1 <= year <= u32::MAX,
        julian_day * DAY_LENGTH_PARTS < hebrew_molad_parts(year),
    ensures
        hebrew_from_jdn(julian_day) matches Ok(d) ==> d.year < year,
{
    let parts = julian_day * 25920;
    lemma_hebrew_first_new_year();
    if julian_day >= HEBREW_MIN_DAY && parts < hebrew_molad_parts(u32::MAX + 1) {
        lemma_hebrew_molad_year_exists(parts);
        let found = hebrew_molad_year(parts);
        if found >= year {
            lemma_hebrew_months_ordered(year, found);
        }
        let new_year = hebrew_new_year(found);
        if new_year <= julian_day && julian_day - new_year < hebrew_months_days(found) {
            lemma_hebrew_date_in_year_exists(found, julian_day - new_year);
        }
    }
}

/// A date whose day starts between the molad of Tishrei of its year and the
/// next is the date that its day number leads to.
pub proof fn lemma_hebrew_round_trip_within(date: HebrewDate)
    requires
        date.spec_valid(),
        hebrew_molad_parts(date.year as int) <= date.day_number() * DAY_LENGTH_PARTS
            < hebrew_molad_parts(date.year + 1),
    ensures
        hebrew_from_jdn(date.day_number()) == Ok::<HebrewDate, CalendarError>(date),
{
    let y = date.year as int;
    lemma_hebrew_day_of_year(date);
    lemma_hebrew_months_ordered(1, y);
    lemma_hebrew_first_new_year();
    lemma_hebrew_molad_year_unique(date.day_number() * 25920, y);
    lemma_hebrew_months_ordered(y + 1, u32::MAX + 1);
    lemma_hebrew_date_in_year_unique(date);
}

/// A date whose day starts at or after the molad of Tishrei of the next
/// year is the date that its day number leads to just where the months of
/// its year hold as many days as lie between the two new years.
pub proof fn lemma_hebrew_round_trip_after(date: HebrewDate)
    requires
        date.spec_valid(),
        date.year < u32::MAX,
        hebrew_molad_parts(date.year + 1) <= date.day_number() * DAY_LENGTH_PARTS,
    ensures
        hebrew_from_jdn(date.day_number()) == Ok::<HebrewDate, CalendarError>(date)
            <==> hebrew_year_fits(date.year as int),
{
    let y = date.year as int;
    let j = date.day_number();
    let parts = j * 25920;
    lemma_hebrew_day_of_year(date);
    lemma_hebrew_year_length(y);
    lemma_hebrew_months_days(hebrew_leap(y), hebrew_next_postponement(y));
    lemma_hebrew_months_before_year(y + 1);
    lemma_hebrew_months_ordered(1, y + 1);
    lemma_hebrew_first_new_year();
    lemma_hebrew_months_ordered(y + 2, u32::MAX + 1);
    let next = hebrew_new_year(y + 1);
    assert(j <= next);
    assert(next <= hebrew_molad_parts(y + 1) / 25920 + 2);
    assert(hebrew_molad_parts(y + 2) >= hebrew_molad_parts(y + 1) + 12 * 765433);
    assert(parts < hebrew_molad_parts(y + 2));
    lemma_hebrew_molad_year_unique(parts, y + 1);
    if next > j {
        assert(j >= hebrew_molad_parts(y + 1) / 25920);
        assert(1 <= next - j <= 2);
    } else if j - next < hebrew_months_days(y + 1) {
        lemma_hebrew_date_in_year_exists(y + 1, j - next);
    }
}

/// Round trip: the day number of a valid date leads back to the date, but
/// for some days at the turn of a year. It does not on a 1 Tishrei that
/// falls on the day of its molad, after the start of that day. Nor does it
/// on a day that starts at or after the molad of the next year, where the
/// months of the year hold more or fewer days than lie between the two new
/// years, or where the next year is beyond the years that a date can hold.
pub proof fn lemma_hebrew_round_trip(date: HebrewDate)
    requires
        date.spec_valid(),
    ensures
        hebrew_from_jdn(date.day_number()) == Ok::<HebrewDate, CalendarError>(date)
            <==> hebrew_round_trips(date),
{
    let y = date.year as int;
    let parts = date.day_number() * 25920;
    if parts < hebrew_molad_parts(y) {
        lemma_hebrew_day_before_molad(date.day_number(), y);
    } else if parts < hebrew_molad_parts(y + 1) {
        lemma_hebrew_round_trip_within(date);
    } else if y < u32::MAX {
        lemma_hebrew_round_trip_after(date);
    }
}

/// Whether a day has a Hebrew date that has the day's number: the day is a
/// supported one and lies in the months of the year that its molad leads
/// to, or before the new year of that year where the year before fits.
pub open spec fn hebrew_day_round_trips(julian_day: int) -> bool {
    let year = hebrew_molad_year(julian_day * DAY_LENGTH_PARTS);
    &&& HEBREW_MIN_DAY <= julian_day
    &&& julian_day * DAY_LENGTH_PARTS < hebrew_molad_parts(u32::MAX + 1)
    &&& julian_day < hebrew_new_year(year) + hebrew_months_days(year)
    &&& (julian_day < hebrew_new_year(year) ==> hebrew_year_fits(year - 1))
}

/// Round trip of a day: the Hebrew date of a day has the day's number, but
/// for some days at the turn of a year. A day after the last month of the
/// year that its molad leads to has no date. A day before the new year of
/// that year has a date of the year before, which has another day number
/// where the months of that year hold more or fewer days than lie between
/// the two new years.
pub proof fn lemma_hebrew_day_round_trip(julian_day: int)
    ensures
        (match hebrew_from_jdn(julian_day) {
            Ok(date) => hebrew_to_jdn(date) == Ok::<int, CalendarError>(julian_day),
            Err(_) => false,
        }) <==> hebrew_day_round_trips(julian_day),
{
    let parts = julian_day * 25920;
    if HEBREW_MIN_DAY <= julian_day && parts < hebrew_molad_parts(u32::MAX + 1) {
        lemma_hebrew_first_new_year();
        lemma_hebrew_molad_year_exists(parts);
        let year = hebrew_molad_year(parts);
        if year > u32::MAX {
            lemma_hebrew_months_ordered(u32::MAX + 1, year);
        }
        let new_year = hebrew_new_year(year);
        lemma_hebrew_months_days(hebrew_leap(year), hebrew_next_postponement(year));
        if new_year > julian_day {
            assert(julian_day >= hebrew_molad_parts(year) / 25920);
            assert(year >= 2);
            let before = year - 1;
            lemma_hebrew_months_before_year(before);
            lemma_hebrew_months_days(hebrew_leap(before), hebrew_next_postponement(before));
            let date = HebrewDate {
                year: before as u32,
                month: hebrew_months_in_year(before) as u8,
                day: (29 - (new_year - julian_day - 1)) as u8,
            };
            assert(date.spec_valid());
            assert(date.day_number() == julian_day + hebrew_months_days(before)
                - hebrew_year_days(before));
        } else if julian_day - new_year < hebrew_months_days(year) {
            lemma_hebrew_date_in_year_exists(year, julian_day - new_year);
        }
    }
}

} // verus!
