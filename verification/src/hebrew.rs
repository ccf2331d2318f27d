//! The traditional Hebrew calendar.
//!
//! Time is counted in parts, 25920 to the day. The molad of Tishrei of a
//! year falls a fixed number of months after that of year 1, and the new
//! year falls on the day of the molad or is put off from it by one or two
//! days. The months have fixed lengths but for Cheshvan and Kislev, which
//! are lengthened by the days by which the next new year is put off.
//!
//! The months of a year do not always hold as many days as lie between its
//! new year and the next: they may hold one more or one fewer. A day after
//! the last month of a year has no date, and the last day of a year may
//! share its day number with the first day of the next.

use crate::cal::Calendar;
use crate::hebrew_laws::{
    lemma_hebrew_date_in_year_unique, lemma_hebrew_days_before_month_ordered,
    lemma_hebrew_first_new_year, lemma_hebrew_molad_year_unique, lemma_hebrew_months_before_year,
    lemma_hebrew_months_ordered,
};
use crate::invalid_year_err::CalendarError;
use crate::text::same_text;
use crate::GenericDate;
use vstd::prelude::*;

verus! {

/// A date of the traditional Hebrew calendar. Months are counted from
/// Tishrei as month 1; in a leap year Adar I is month 6, Adar II month 7, and
/// Elul month 13.
#[derive(Debug, Clone, Copy, PartialEq, Eq, Structural)]
pub struct HebrewDate {
    pub year: u32,
    pub month: u8,
    pub day: u8,
}

/// Parts in a day: 24 hours of 1080 parts.
pub const DAY_LENGTH_PARTS: i128 = 24 * 60 * 18;

/// Parts from one molad to the next: 29 days, 12 hours and 793 parts.
pub const MOLAD_LENGTH_PARTS: i128 = 765433;

/// Months in a cycle of 19 years, 7 of which have a thirteenth month.
pub const NINETEEN_YEAR_CYCLE_MONTHS: i128 = 19 * 12 + 7;

/// The molad of Tishrei 5758 in parts on the scale of the day numbers.
pub const MOLAD_TISHREI_5758_PARTS: i128 = 2450722 * DAY_LENGTH_PARTS + 23889;

/// The molad of Tishrei of year 1: 303 cycles of 19 years before the molad of
/// Tishrei 5758.
pub const MOLAD_TISHREI_1_PARTS: i128 = MOLAD_TISHREI_5758_PARTS - 303
    * NINETEEN_YEAR_CYCLE_MONTHS * MOLAD_LENGTH_PARTS;

/// Day number of 1 Tishrei of year 1, the first Hebrew day that is supported.
pub const HEBREW_MIN_DAY: i128 = 347997;

/// Lengths of the months of a common year in which Cheshvan and Kislev both
/// have 29 days.
pub const COMMON_YEAR_MONTH_LENGTHS: [u8; 12] = [30, 29, 29, 29, 30, 29, 30, 29, 30, 29, 30, 29];

/// Lengths of the months of a leap year in which Cheshvan and Kislev both
/// have 29 days.
pub const LEAP_YEAR_MONTH_LENGTHS: [u8; 13] = [30, 29, 29, 29, 30, 30, 29, 30, 29, 30, 29, 30, 29];

/// Months in each year of a cycle of 19 years.
pub const MOLAD_NUM_LENGTH: [u8; 19] = [
    12,
    12,
    13,
    12,
    12,
    13,
    12,
    13,
    12,
    12,
    13,
    12,
    12,
    13,
    12,
    12,
    13,
    12,
    13,
];

/// Months in the first years of a cycle of 19 years, up to and including the
/// year of the entry.
pub const MOLAD_NUM_LENGTH_SUM: [u8; 19] = [
    12,
    24,
    37,
    49,
    61,
    74,
    86,
    99,
    111,
    123,
    136,
    148,
    160,
    173,
    185,
    197,
    210,
    222,
    235,
];

/// Whether a year has thirteen months: the years 3, 6, 8, 11, 14, 17 and 19
/// of each cycle of 19 years.
pub open spec fn hebrew_leap(year: int) -> bool {
    let r = year % 19;
    r == 3 || r == 6 || r == 8 || r == 11 || r == 14 || r == 17 || r == 0
}

/// Months in a year.
pub open spec fn hebrew_months_in_year(year: int) -> int {
    hebrew_months_in_year_rule(hebrew_leap(year))
}

/// Months from Tishrei of year 1 to Tishrei of `year`: 235 for each whole
/// cycle of 19 years, and the months of the years of the cycle that have
/// passed.
pub open spec fn hebrew_months_before_year(year: int) -> int {
    (year - 1) / 19 * 235 + if (year - 1) % 19 == 0 {
        0
    } else {
        MOLAD_NUM_LENGTH_SUM[(year - 1) % 19 - 1] as int
    }
}

/// The molad of Tishrei of `year` in parts on the scale of the day numbers.
pub open spec fn hebrew_molad_parts(year: int) -> int {
    hebrew_months_before_year(year) * MOLAD_LENGTH_PARTS + MOLAD_TISHREI_1_PARTS
}

/// By how many days the new year is put off from the day of its molad.
/// `weekday` is the weekday of the molad with Sunday as 0, `time` its time of
/// day in parts. The four rules are tried in turn:
/// a molad on Sunday, Wednesday or Friday moves the new year by a day;
/// a molad after half the day moves it by a day, and by one more from
/// Saturday, Tuesday or Thursday;
/// in a common year a molad on Tuesday after 3 hours and 204 parts moves it by
/// two days;
/// after a leap year a molad on Monday after 9 hours and 589 parts moves it by
/// a day.
pub open spec fn hebrew_postponement_rule(
    weekday: int,
    time: int,
    leap: bool,
    after_leap: bool,
) -> int {
    if weekday == 0 || weekday == 3 || weekday == 5 {
        1
    } else if time > DAY_LENGTH_PARTS / 2 {
        if weekday == 6 || weekday == 2 || weekday == 4 {
            2
        } else {
            1
        }
    } else if time > 3 * 60 * 18 + 204 && weekday == 2 && !leap {
        2
    } else if time > 9 * 60 * 18 + 589 && weekday == 1 && after_leap {
        1
    } else {
        0
    }
}

/// By how many days a new year is put off from the day of its molad, which
/// falls at `molad_parts`: the day of the molad is the whole days in
/// `molad_parts`, its weekday that of the day number two days later, and its
/// time of day the parts that are left.
pub open spec fn hebrew_postponement_at(molad_parts: int, leap: bool, after_leap: bool) -> int {
    hebrew_postponement_rule(
        (molad_parts / (DAY_LENGTH_PARTS as int) + 2) % 7,
        molad_parts % (DAY_LENGTH_PARTS as int),
        leap,
        after_leap,
    )
}

/// By how many days the new year of `year` is put off from the day of its
/// molad, which falls at `molad_parts`.
pub open spec fn hebrew_postponement(molad_parts: int, year: int) -> int {
    hebrew_postponement_at(molad_parts, hebrew_leap(year), hebrew_leap(year - 1))
}

/// The day number of a new year whose molad falls at `molad_parts`: the day
/// of the molad, put off by the rules.
pub open spec fn hebrew_tishrei_1_at(molad_parts: int, leap: bool, after_leap: bool) -> int {
    molad_parts / (DAY_LENGTH_PARTS as int) + hebrew_postponement_at(
        molad_parts,
        leap,
        after_leap,
    )
}

/// The day number of 1 Tishrei of `year`, whose molad falls at `molad_parts`.
pub open spec fn hebrew_tishrei_1(molad_parts: int, year: int) -> int {
    hebrew_tishrei_1_at(molad_parts, hebrew_leap(year), hebrew_leap(year - 1))
}

/// The day number of 1 Tishrei of `year`.
pub open spec fn hebrew_new_year(year: int) -> int {
    hebrew_tishrei_1(hebrew_molad_parts(year), year)
}

/// By how many days the new year after `year` is put off from its molad.
pub open spec fn hebrew_next_postponement(year: int) -> int {
    hebrew_postponement(hebrew_molad_parts(year + 1), year + 1)
}

/// Days added to a month: none where the next new year is not put off;
/// one to Kislev where it is put off by a day; one each to Cheshvan and
/// Kislev where it is put off by two days.
pub open spec fn hebrew_postponement_adder(month: int, next_postponement: int) -> int {
    if next_postponement == 1 && month == 3 {
        1
    } else if next_postponement == 2 && (month == 2 || month == 3) {
        1
    } else {
        0
    }
}

/// Days in `month` of a leap or common year before which the next new year
/// is put off by `next_postponement` days.
pub open spec fn hebrew_month_length_rule(month: int, leap: bool, next_postponement: int) -> int {
    hebrew_postponement_adder(month, next_postponement) + if leap {
        LEAP_YEAR_MONTH_LENGTHS[month - 1] as int
    } else {
        COMMON_YEAR_MONTH_LENGTHS[month - 1] as int
    }
}

/// Days in `month` of `year`.
pub open spec fn hebrew_month_length(year: int, month: int) -> int {
    hebrew_month_length_rule(month, hebrew_leap(year), hebrew_next_postponement(year))
}

/// Days of a year that lie before the first of `month`, by the rule for the
/// lengths of the months.
pub open spec fn hebrew_days_before_month_rule(
    month: int,
    leap: bool,
    next_postponement: int,
) -> int
    decreases month,
{
    if month <= 1 {
        0
    } else {
        hebrew_days_before_month_rule(month - 1, leap, next_postponement)
            + hebrew_month_length_rule(month - 1, leap, next_postponement)
    }
}

/// Days of `year` that lie before the first of `month`.
pub open spec fn hebrew_days_before_month(year: int, month: int) -> int {
    hebrew_days_before_month_rule(month, hebrew_leap(year), hebrew_next_postponement(year))
}

/// Months in a leap or common year.
pub open spec fn hebrew_months_in_year_rule(leap: bool) -> int {
    if leap {
        13
    } else {
        12
    }
}

/// Days in all the months of `year` together.
pub open spec fn hebrew_months_days(year: int) -> int {
    hebrew_days_before_month(year, hebrew_months_in_year(year) + 1)
}

impl HebrewDate {
    /// Whether the fields name a date: a year from 1 on, a month of that year
    /// and a day of that month.
    pub open spec fn spec_valid(&self) -> bool {
        &&& self.year >= 1
        &&& 1 <= self.month <= hebrew_months_in_year(self.year as int)
        &&& 1 <= self.day <= hebrew_month_length(self.year as int, self.month as int)
    }

    /// Days of the year that lie before this date.
    pub open spec fn day_of_year(&self) -> int {
        hebrew_days_before_month(self.year as int, self.month as int) + self.day - 1
    }

    /// The day number of a valid date.
    pub open spec fn day_number(&self) -> int {
        hebrew_new_year(self.year as int) + self.day_of_year()
    }

    /// Whether this date comes before `other`: by year, then month, then
    /// day.
    pub open spec fn precedes(&self, other: &HebrewDate) -> bool {
        ||| self.year < other.year
        ||| self.year == other.year && self.month < other.month
        ||| self.year == other.year && self.month == other.month && self.day < other.day
    }
}

/// The day number of a Hebrew date: `InvalidInput` for fields that name no
/// date.
pub open spec fn hebrew_to_jdn(date: HebrewDate) -> Result<int, CalendarError> {
    if date.spec_valid() {
        Ok(date.day_number())
    } else {
        Err(CalendarError::InvalidInput)
    }
}

/// Whether the molad of Tishrei of `year` is the last one that does not fall
/// after `parts`.
pub open spec fn hebrew_molad_year_holds(year: int, parts: int) -> bool {
    year >= 1 && hebrew_molad_parts(year) <= parts < hebrew_molad_parts(year + 1)
}

/// The year whose molad of Tishrei is the last one that does not fall after
/// `parts`.
pub open spec fn hebrew_molad_year(parts: int) -> int {
    choose|y: int| hebrew_molad_year_holds(y, parts)
}

/// The valid date of `year` before which `days` days of the year lie.
pub open spec fn hebrew_date_in_year(year: int, days: int) -> HebrewDate {
    choose|d: HebrewDate| d.year == year && d.spec_valid() && d.day_of_year() == days
}

/// The Hebrew date of a day number.
///
/// The year is looked for by the molad: it is the year `y` whose molad of
/// Tishrei is the last that does not fall after the start of the day. Where
/// the new year of `y` comes after the day, the day is counted back from it
/// into the last month of the year before, which has 29 days. Else the day
/// is counted from the new year through the months of `y`.
///
/// `Overflow` is the answer for a day before 1 Tishrei of year 1, for a day
/// that starts at or after the molad of the first year that the year field
/// cannot hold, and for a day after the last month of `y`.
pub open spec fn hebrew_from_jdn(julian_day: int) -> Result<HebrewDate, CalendarError> {
    let parts = julian_day * DAY_LENGTH_PARTS;
    if julian_day < HEBREW_MIN_DAY || parts >= hebrew_molad_parts(u32::MAX + 1) {
        Err(CalendarError::Overflow)
    } else {
        let year = hebrew_molad_year(parts);
        let new_year = hebrew_new_year(year);
        if new_year > julian_day {
            Ok(
                HebrewDate {
                    year: (year - 1) as u32,
                    month: hebrew_months_in_year(year - 1) as u8,
                    day: (29 - (new_year - julian_day - 1)) as u8,
                },
            )
        } else if julian_day - new_year >= hebrew_months_days(year) {
            Err(CalendarError::Overflow)
        } else {
            Ok(hebrew_date_in_year(year, julian_day - new_year))
        }
    }
}

/// Whether a year, which may be one past the years that a date can hold, has
/// thirteen months.
pub fn leap_year(year: u64) -> (r: bool)
    ensures
        r == hebrew_leap(year as int),
{
    let r: u64 = year % 19;
    r == 3 || r == 6 || r == 8 || r == 11 || r == 14 || r == 17 || r == 0
}

/// Whether a year has thirteen months.
pub fn is_leap_year(year: u32) -> (r: bool)
    ensures
        r == hebrew_leap(year as int),
{
    leap_year(year as u64)
}

/// Splits a time in parts into the day in which it falls and the parts of
/// that day that have passed. A time before the start of the scale falls in a
/// day with a negative number.
pub fn day_and_time(parts: i128) -> (r: (i128, i128))
    ensures
        r.0 == parts / DAY_LENGTH_PARTS,
        r.1 == parts % DAY_LENGTH_PARTS,
        0 <= r.1 < DAY_LENGTH_PARTS,
{
    assert(DAY_LENGTH_PARTS == 25920);
    let mut day: i128 = parts / DAY_LENGTH_PARTS;
    let mut time: i128 = parts % DAY_LENGTH_PARTS;
    if time < 0 {
        day = day - 1;
        time = time + DAY_LENGTH_PARTS;
    }
    (day, time)
}

/// Finds by how many days a new year is put off from the day of its molad.
pub fn postponement(molad_tishrei_parts: i128, leap: bool, after_leap: bool) -> (r: i128)
    ensures
        r == hebrew_postponement_at(molad_tishrei_parts as int, leap, after_leap),
        0 <= r <= 2,
        (molad_tishrei_parts / DAY_LENGTH_PARTS + r + 2) % 7 != 0,
        (molad_tishrei_parts / DAY_LENGTH_PARTS + r + 2) % 7 != 3,
        (molad_tishrei_parts / DAY_LENGTH_PARTS + r + 2) % 7 != 5,
{
    assert(DAY_LENGTH_PARTS == 25920);
    let (molad_tishrei_julian_day, time_parts) = day_and_time(molad_tishrei_parts);
    let mut molad_tishrei_weekday: i128 = (molad_tishrei_julian_day + 2) % 7;
    if molad_tishrei_weekday < 0 {
        molad_tishrei_weekday = molad_tishrei_weekday + 7;
    }
    let mut days: i128 = 0;
    if molad_tishrei_weekday == 0 || molad_tishrei_weekday == 3 || molad_tishrei_weekday == 5 {
        days = 1;
    } else if time_parts > DAY_LENGTH_PARTS / 2 {
        days = 1;
        if molad_tishrei_weekday == 6 || molad_tishrei_weekday == 2 || molad_tishrei_weekday == 4 {
            days = 2;
        }
    } else if time_parts > 3 * 60 * 18 + 204 && molad_tishrei_weekday == 2 && !leap {
        days = 2;
    } else if time_parts > 9 * 60 * 18 + 589 && molad_tishrei_weekday == 1 && after_leap {
        days = 1;
    }
    days
}

/// Finds the new year of `year` from its molad of Tishrei. Returns by how
/// many days the new year is put off from the day of the molad, and the day
/// number of 1 Tishrei, which is never a Sunday, Wednesday or Friday.
pub fn tishrei_1_julian_day(molad_tishrei_parts: i128, year: u32) -> (r: (i128, i128))
    ensures
        r.0 == hebrew_postponement(molad_tishrei_parts as int, year as int),
        r.1 == hebrew_tishrei_1(molad_tishrei_parts as int, year as int),
        0 <= r.0 <= 2,
        (r.1 + 2) % 7 != 0,
        (r.1 + 2) % 7 != 3,
        (r.1 + 2) % 7 != 5,
{
    assert(DAY_LENGTH_PARTS == 25920);
    let after_leap: bool = year > 0 && is_leap_year(year - 1);
    let days: i128 = postponement(molad_tishrei_parts, is_leap_year(year), after_leap);
    let (molad_tishrei_julian_day, _) = day_and_time(molad_tishrei_parts);
    (days, days + molad_tishrei_julian_day)
}

/// Counts the months from Tishrei of year 1 to Tishrei of `year`.
pub fn months_before_year(year: u64) -> (r: i128)
    requires
        1 <= year,
    ensures
        r == hebrew_months_before_year(year as int),
        0 <= r <= NINETEEN_YEAR_CYCLE_MONTHS * (year - 1),
{
    let cycles: i128 = ((year - 1) / 19) as i128;
    let years_after_cycle: usize = ((year - 1) % 19) as usize;
    let months_from_years_after_cycle: i128 = if years_after_cycle == 0 {
        0
    } else {
        MOLAD_NUM_LENGTH_SUM[years_after_cycle - 1] as i128
    };
    cycles * NINETEEN_YEAR_CYCLE_MONTHS + months_from_years_after_cycle
}

/// Finds the molad of Tishrei of `year` in parts.
pub fn molad_tishrei(year: u64) -> (r: i128)
    requires
        1 <= year,
    ensures
        r == hebrew_molad_parts(year as int),
        MOLAD_TISHREI_1_PARTS <= r,
{
    months_before_year(year) * MOLAD_LENGTH_PARTS + MOLAD_TISHREI_1_PARTS
}

/// Finds by how many days the new year after `year` is put off from its
/// molad.
pub fn next_postponement(year: u32) -> (r: i128)
    ensures
        r == hebrew_next_postponement(year as int),
        0 <= r <= 2,
{
    postponement(molad_tishrei(year as u64 + 1), leap_year(year as u64 + 1), is_leap_year(year))
}

/// Days in `month` of a leap or common year before which the next new year
/// is put off by `next_postponement` days.
pub fn hebrew_month_days(month: u8, leap: bool, next_postponement: i128) -> (r: u8)
    requires
        1 <= month <= hebrew_months_in_year_rule(leap),
    ensures
        r == hebrew_month_length_rule(month as int, leap, next_postponement as int),
        29 <= r <= 30,
{
    let base: u8 = if leap {
        LEAP_YEAR_MONTH_LENGTHS[(month - 1) as usize]
    } else {
        COMMON_YEAR_MONTH_LENGTHS[(month - 1) as usize]
    };
    if next_postponement == 1 && month == 3 {
        base + 1
    } else if next_postponement == 2 && (month == 2 || month == 3) {
        base + 1
    } else {
        base
    }
}

/// Finds the year whose molad of Tishrei is the last one that does not fall
/// after `parts`, and that molad.
pub fn molad_year(parts: i128) -> (r: (i128, i128))
    requires
        MOLAD_TISHREI_1_PARTS <= parts,
    ensures
        hebrew_molad_year_holds(r.0 as int, parts as int),
        r.0 == hebrew_molad_year(parts as int),
        r.1 == hebrew_molad_parts(r.0 as int),
        r.0 <= u32::MAX <==> parts < hebrew_molad_parts(u32::MAX + 1),
{
    let parts_since_molad_tishrei_1: i128 = parts - MOLAD_TISHREI_1_PARTS;

    // Leave out the whole cycles of 19 years, which hold 235 months each.
    let cycle_parts: i128 = NINETEEN_YEAR_CYCLE_MONTHS * MOLAD_LENGTH_PARTS;
    let cycles: i128 = parts_since_molad_tishrei_1 / cycle_parts;
    let mut parts_left_since_molad: i128 = parts_since_molad_tishrei_1 % cycle_parts;

    // Walk through the years of the cycle while their months fit.
    let mut year: i128 = cycles * 19 + 1;
    let mut i: usize = 0;
    while parts_left_since_molad >= (MOLAD_NUM_LENGTH[i] as i128) * MOLAD_LENGTH_PARTS
        invariant
            0 <= i < 19,
            0 <= cycles,
            year == cycles * 19 + 1 + i,
            cycles * 19 + 20 <= i128::MAX,
            0 <= parts_left_since_molad,
            parts_left_since_molad == parts_since_molad_tishrei_1 - hebrew_months_before_year(
                year as int,
            ) * MOLAD_LENGTH_PARTS,
            parts_since_molad_tishrei_1 < (cycles + 1) * NINETEEN_YEAR_CYCLE_MONTHS
                * MOLAD_LENGTH_PARTS,
        decreases 19 - i,
    {
        proof {
            lemma_hebrew_months_before_year(year as int);
        }
        parts_left_since_molad = parts_left_since_molad - (MOLAD_NUM_LENGTH[i] as i128)
            * MOLAD_LENGTH_PARTS;
        year = year + 1;
        i = i + 1;
    }
    proof {
        lemma_hebrew_months_before_year(year as int);
        if year > u32::MAX {
            lemma_hebrew_months_ordered(u32::MAX + 1, year as int);
        } else {
            lemma_hebrew_months_ordered(year + 1, u32::MAX + 1);
        }
        lemma_hebrew_molad_year_unique(parts as int, year as int);
    }
    (year, parts - parts_left_since_molad)
}

/// Finds the month and the day of the month of the day that follows `days`
/// whole days of a year, or nothing where the months of the year do not
/// hold that many days.
pub fn hebrew_month_and_day(days: i128, leap: bool, next_postponement: i128) -> (r: Option<
    (u8, u8),
>)
    requires
        0 <= days,
    ensures
        match r {
            Some((month, day)) => {
                &&& 1 <= month <= hebrew_months_in_year_rule(leap)
                &&& 1 <= day <= hebrew_month_length_rule(
                    month as int,
                    leap,
                    next_postponement as int,
                )
                &&& hebrew_days_before_month_rule(month as int, leap, next_postponement as int)
                    + day - 1 == days
                &&& days < hebrew_days_before_month_rule(
                    hebrew_months_in_year_rule(leap) + 1,
                    leap,
                    next_postponement as int,
                )
            },
            None => days >= hebrew_days_before_month_rule(
                hebrew_months_in_year_rule(leap) + 1,
                leap,
                next_postponement as int,
            ),
        },
{
    let months: u8 = if leap {
        13
    } else {
        12
    };
    let mut days_left: i128 = days;
    let mut month: u8 = 1;
    while month <= months && days_left >= hebrew_month_days(month, leap, next_postponement) as i128
        invariant
            1 <= month <= months + 1,
            months == hebrew_months_in_year_rule(leap),
            0 <= days_left,
            hebrew_days_before_month_rule(month as int, leap, next_postponement as int)
                + days_left == days,
        decreases months + 1 - month,
    {
        days_left = days_left - hebrew_month_days(month, leap, next_postponement) as i128;
        month = month + 1;
    }
    if month > months {
        return None;
    }
    proof {
        lemma_hebrew_days_before_month_ordered(
            month + 1,
            months + 1,
            leap,
            next_postponement as int,
        );
    }
    Some((month, (days_left + 1) as u8))
}

/// Finds the Hebrew date of a day number.
pub fn to_hebrew(julian_day: i128) -> (r: Result<HebrewDate, CalendarError>)
    ensures
        r == hebrew_from_jdn(julian_day as int),
        r matches Ok(d) ==> d.spec_valid(),
{
    if julian_day < HEBREW_MIN_DAY {
        return Err(CalendarError::Overflow);
    }
    assert(DAY_LENGTH_PARTS == 25920);
    let parts: i128 = match julian_day.checked_mul(DAY_LENGTH_PARTS) {
        Some(p) => p,
        None => {
            return Err(CalendarError::Overflow);
        },
    };
    let (found_year, last_molad_tishrei_parts) = molad_year(parts);
    if found_year > u32::MAX as i128 {
        return Err(CalendarError::Overflow);
    }
    let year: u32 = found_year as u32;
    proof {
        lemma_hebrew_first_new_year();
    }
    let (_, last_tishrei_1_julian_day) = tishrei_1_julian_day(last_molad_tishrei_parts, year);

    if last_tishrei_1_julian_day > julian_day {
        // The molad of the year has passed but its new year is put off
        // beyond this day: the day belongs to the end of the year before.
        let year: u32 = year - 1;
        let day: u8 = (29 - (last_tishrei_1_julian_day - julian_day - 1)) as u8;
        let month: u8 = if is_leap_year(year) {
            13
        } else {
            12
        };
        return Ok(HebrewDate { year, month, day });
    }
    match hebrew_month_and_day(
        julian_day - last_tishrei_1_julian_day,
        is_leap_year(year),
        next_postponement(year),
    ) {
        Some((month, day)) => {
            let date = HebrewDate { year, month, day };
            proof {
                lemma_hebrew_date_in_year_unique(date);
            }
            Ok(date)
        },
        None => Err(CalendarError::Overflow),
    }
}

/// Finds the day number of a Hebrew date.
pub fn from_hebrew(date: &HebrewDate) -> (r: Result<i128, CalendarError>)
    ensures
        match r {
            Ok(j) => hebrew_to_jdn(*date) == Ok::<int, CalendarError>(j as int),
            Err(e) => hebrew_to_jdn(*date) == Err::<int, CalendarError>(e),
        },
{
    if date.month > 13 {
        return Err(CalendarError::InvalidInput);
    }
    if date.year < 1 || date.day < 1 || date.month < 1 {
        return Err(CalendarError::InvalidInput);
    }
    let leap: bool = is_leap_year(date.year);
    if !leap && date.month == 13 {
        return Err(CalendarError::InvalidInput);
    }
    // The day number of the first day of the year.
    let molad_tishrei_parts: i128 = molad_tishrei(date.year as u64);
    let (_, tishrei_1_julian_day_num) = tishrei_1_julian_day(molad_tishrei_parts, date.year);

    let next_tishrei_1_postponement: i128 = next_postponement(date.year);
    if date.day > hebrew_month_days(date.month, leap, next_tishrei_1_postponement) {
        return Err(CalendarError::InvalidInput);
    }
    // The days from the first day of the year to this date.
    let mut days_since_tishrei_1: i128 = date.day as i128 - 1;
    let mut month: u8 = date.month;
    while month > 1
        invariant
            1 <= month <= date.month,
            date.month <= hebrew_months_in_year_rule(leap),
            0 <= days_since_tishrei_1 <= 30 * (date.month - month + 1),
            leap == hebrew_leap(date.year as int),
            next_tishrei_1_postponement == hebrew_next_postponement(date.year as int),
            days_since_tishrei_1 + hebrew_days_before_month(date.year as int, month as int)
                == date.day_of_year(),
        decreases month,
    {
        days_since_tishrei_1 = days_since_tishrei_1 + hebrew_month_days(
            month - 1,
            leap,
            next_tishrei_1_postponement,
        ) as i128;
        month = month - 1;
    }
    Ok(tishrei_1_julian_day_num + days_since_tishrei_1)
}

/// Number of the month of a leap or common year that a Hebrew month name
/// stands for. `"Adar I"` names a month of leap years only; in them
/// `"Adar/Adar II"` and the months after it are one further on. Cheshvan is
/// read in both of its spellings.
pub open spec fn hebrew_month_number(name: Seq<char>, leap: bool) -> Option<u8> {
    let shift: u8 = if leap {
        1u8
    } else {
        0u8
    };
    if name == "Tishrei"@ {
        Some(1u8)
    } else if name == "Cheshvan"@ || name == "Chesvan"@ {
        Some(2u8)
    } else if name == "Kislev"@ {
        Some(3u8)
    } else if name == "Tevet"@ {
        Some(4u8)
    } else if name == "Shevat"@ {
        Some(5u8)
    } else if name == "Adar I"@ {
        if leap {
            Some(6u8)
        } else {
            None
        }
    } else if name == "Adar/Adar II"@ {
        Some((6 + shift) as u8)
    } else if name == "Nisan"@ {
        Some((7 + shift) as u8)
    } else if name == "Iyar"@ {
        Some((8 + shift) as u8)
    } else if name == "Sivan"@ {
        Some((9 + shift) as u8)
    } else if name == "Tammuz"@ {
        Some((10 + shift) as u8)
    } else if name == "Av"@ {
        Some((11 + shift) as u8)
    } else if name == "Elul"@ {
        Some((12 + shift) as u8)
    } else {
        None
    }
}

/// Reads a Hebrew month name for a leap or common year.
pub fn parse_hebrew_month(name: &str, leap: bool) -> (r: Option<u8>)
    ensures
        r == hebrew_month_number(name@, leap),
{
    let shift: u8 = if leap {
        1
    } else {
        0
    };
    if same_text(name, "Tishrei") {
        Some(1)
    } else if same_text(name, "Cheshvan") || same_text(name, "Chesvan") {
        Some(2)
    } else if same_text(name, "Kislev") {
        Some(3)
    } else if same_text(name, "Tevet") {
        Some(4)
    } else if same_text(name, "Shevat") {
        Some(5)
    } else if same_text(name, "Adar I") {
        if leap {
            Some(6)
        } else {
            None
        }
    } else if same_text(name, "Adar/Adar II") {
        Some(6 + shift)
    } else if same_text(name, "Nisan") {
        Some(7 + shift)
    } else if same_text(name, "Iyar") {
        Some(8 + shift)
    } else if same_text(name, "Sivan") {
        Some(9 + shift)
    } else if same_text(name, "Tammuz") {
        Some(10 + shift)
    } else if same_text(name, "Av") {
        Some(11 + shift)
    } else if same_text(name, "Elul") {
        Some(12 + shift)
    } else {
        None
    }
}

impl Calendar for HebrewDate {
    open spec fn spec_to_julian_day(&self) -> Result<int, CalendarError> {
        hebrew_to_jdn(*self)
    }

    open spec fn spec_from_julian_day(julian_day: int) -> Result<Self, CalendarError> {
        hebrew_from_jdn(julian_day)
    }

    open spec fn spec_new(day: u32, month: Seq<char>, year: i32, era: Seq<char>) -> Result<
        Self,
        CalendarError,
    > {
        if day > u8::MAX || year < 0 {
            Err(CalendarError::InvalidInput)
        } else {
            match hebrew_month_number(month, hebrew_leap(year as int)) {
                Some(m) => Ok(HebrewDate { year: year as u32, month: m, day: day as u8 }),
                None => Err(CalendarError::InvalidInput),
            }
        }
    }

    fn to_julian_day(&self) -> (r: Result<i128, CalendarError>) {
        from_hebrew(self)
    }

    fn from_julian_day(julian_day: i128) -> (r: Result<Self, CalendarError>) {
        to_hebrew(julian_day)
    }

    /// Builds a date from entered fields. The month is a Hebrew month name
    /// and is counted by the kind of the year; the era is not looked at.
    /// Fails with `InvalidInput` for a day above 255, a negative year, an
    /// unknown month name or Adar I in a common year; whether the date
    /// exists is found out when it is converted.
    fn new(day: u32, month: String, year: i32, _era: String) -> (r: Result<Self, CalendarError>) {
        if day > 255 {
            return Err(CalendarError::InvalidInput);
        }
        if year < 0 {
            return Err(CalendarError::InvalidInput);
        }
        let year: u32 = year as u32;
        match parse_hebrew_month(month.as_str(), is_leap_year(year)) {
            Some(month_num) => Ok(HebrewDate { year, month: month_num, day: day as u8 }),
            None => Err(CalendarError::InvalidInput),
        }
    }
}

/// The code of the name of a month: in a leap year Adar I is 13 and Adar II
/// is 14, and the months after them have the codes that they have in a
/// common year; every other month has its number.
pub open spec fn hebrew_month_name_code(month: u8, leap: bool) -> u8 {
    if !leap || month <= 5 {
        month
    } else if month == 6 {
        13
    } else if month == 7 {
        14
    } else {
        (month - 1) as u8
    }
}

impl From<HebrewDate> for GenericDate {
    fn from(date: HebrewDate) -> (r: GenericDate) {
        let month_name: u8 = if is_leap_year(date.year) {
            if date.month <= 5 {
                date.month
            } else if date.month == 6 {
                13
            } else if date.month == 7 {
                14
            } else {
                date.month - 1
            }
        } else {
            date.month
        };
        GenericDate {
            is_valid: true,
            is_not_overflow: true,
            era: false,
            year: date.year,
            month_name,
            day: date.day,
        }
    }
}

impl vstd::std_specs::convert::FromSpecImpl<HebrewDate> for GenericDate {
    open spec fn obeys_from_spec() -> bool {
        true
    }

    open spec fn from_spec(date: HebrewDate) -> GenericDate {
        GenericDate {
            is_valid: true,
            is_not_overflow: true,
            era: false,
            year: date.year,
            month_name: hebrew_month_name_code(date.month, hebrew_leap(date.year as int)),
            day: date.day,
        }
    }
}

} // verus!
