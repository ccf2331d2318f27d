//! The proleptic Julian and Gregorian calendars.
//!
//! Both count years in two eras without a year 0, and both have the same
//! twelve months; they differ in their leap years. The day number of a date
//! is stated over the astronomical year, which runs on through 0 and the
//! negative numbers. The executable code shifts the years instead, so that
//! it never counts below zero.

use crate::cal::Calendar;
use crate::invalid_year_err::CalendarError;
use crate::roman_laws::{
    lemma_gregorian_cycles, lemma_gregorian_day_number_injective, lemma_gregorian_peel,
    lemma_gregorian_shift, lemma_gregorian_window, lemma_julian_cycles,
    lemma_julian_day_number_injective, lemma_julian_shift, lemma_julian_window,
    lemma_roman_month_starts,
};
use crate::text::same_text;
use crate::GenericDate;
use vstd::prelude::*;

verus! {

/// The two eras of the Roman calendars. There is no year 0: 1 BC is followed
/// by AD 1.
#[derive(Debug, Clone, Copy, PartialEq, Eq, Structural)]
pub enum Era {
    AD,
    BC,
}

/// Lengths of the twelve months in a year without a leap day.
pub const ROMAN_MONTH_LENGTHS: [i32; 12] = [31, 28, 31, 30, 31, 30, 31, 31, 30, 31, 30, 31];

/// Day number of 1 January AD 1 in the proleptic Gregorian calendar.
pub const GREGORIAN_FIRST_JANUARY_1_AD: i128 = 1721425;

/// Years added to a Gregorian year so that the arithmetic stays positive; a
/// multiple of 400. It is also the earliest BC year that is supported.
pub const GREGORIAN_YEAR_ADJUSTMENT: i128 = 4400;

/// Day number of 1 January 4400 BC, the first Gregorian day that is supported:
/// eleven cycles of 400 years before 1 January AD 1.
pub const GREGORIAN_MIN_DAY: i128 = 114358;

/// Day number of 31 December of the last year that fits the year field, the
/// last Gregorian day that is supported.
pub const GREGORIAN_MAX_DAY: i128 = 1568706313668;

/// Day number of 1 January AD 1 in the proleptic Julian calendar.
pub const JULIAN_FIRST_JANUARY_1_AD: i128 = 1721423;

/// Years added to a Julian year so that the arithmetic stays positive; a
/// multiple of 4. It is also the earliest BC year that is supported.
pub const JULIAN_YEAR_ADJUSTMENT: i128 = 4712;

/// Day number of 1 January 4712 BC, the first Julian day that is supported:
/// 1178 cycles of 4 years before 1 January AD 1.
pub const JULIAN_MIN_DAY: i128 = 365;

/// Day number of 31 December of the last year that fits the year field, the
/// last Julian day that is supported.
pub const JULIAN_MAX_DAY: i128 = 1568738525920;

/// Days in `month` (1 to 12) of a year that has a leap day or not.
pub open spec fn roman_month_length(month: int, leap: bool) -> int {
    if month == 2 && leap {
        29
    } else {
        ROMAN_MONTH_LENGTHS[month - 1] as int
    }
}

/// Days of a year that lie before the first of `month`.
pub open spec fn roman_days_before_month(month: int, leap: bool) -> int
    decreases month,
{
    if month <= 1 {
        0
    } else {
        roman_days_before_month(month - 1, leap) + roman_month_length(month - 1, leap)
    }
}

/// Days in a year that has a leap day or not.
pub open spec fn roman_year_length(leap: bool) -> int {
    if leap {
        366
    } else {
        365
    }
}

/// The year on a scale without a gap: AD 1 is 1, 1 BC is 0, 2 BC is -1.
pub open spec fn astronomical_year(era: Era, year: int) -> int {
    match era {
        Era::AD => year,
        Era::BC => 1 - year,
    }
}

/// The Gregorian leap rule on an astronomical year: every fourth year, but of
/// the centuries only every fourth.
pub open spec fn gregorian_leap(year: int) -> bool {
    year % 4 == 0 && (year % 100 != 0 || year % 400 == 0)
}

/// The Julian leap rule on an astronomical year: every fourth year.
pub open spec fn julian_leap(year: int) -> bool {
    year % 4 == 0
}

/// Days from 1 January AD 1 to 1 January of an astronomical year in the
/// Gregorian calendar; negative for earlier years.
pub open spec fn gregorian_days_before_year(year: int) -> int {
    365 * (year - 1) + (year - 1) / 4 - (year - 1) / 100 + (year - 1) / 400
}

/// Days from 1 January AD 1 to 1 January of an astronomical year in the
/// Julian calendar; negative for earlier years.
pub open spec fn julian_days_before_year(year: int) -> int {
    365 * (year - 1) + (year - 1) / 4
}

/// Number of the month that an English month name stands for.
pub open spec fn roman_month_number(name: Seq<char>) -> Option<u8> {
    if name == "January"@ {
        Some(1u8)
    } else if name == "February"@ {
        Some(2u8)
    } else if name == "March"@ {
        Some(3u8)
    } else if name == "April"@ {
        Some(4u8)
    } else if name == "May"@ {
        Some(5u8)
    } else if name == "June"@ {
        Some(6u8)
    } else if name == "July"@ {
        Some(7u8)
    } else if name == "August"@ {
        Some(8u8)
    } else if name == "September"@ {
        Some(9u8)
    } else if name == "October"@ {
        Some(10u8)
    } else if name == "November"@ {
        Some(11u8)
    } else if name == "December"@ {
        Some(12u8)
    } else {
        None
    }
}

/// The era that a name stands for: `"AD"` is the second era, anything else the
/// first.
pub open spec fn era_from_name(name: Seq<char>) -> Era {
    if name == "AD"@ {
        Era::AD
    } else {
        Era::BC
    }
}

/// Reads an English month name.
pub fn parse_roman_month(name: &str) -> (r: Option<u8>)
    ensures
        r == roman_month_number(name@),
{
    if same_text(name, "January") {
        Some(1)
    } else if same_text(name, "February") {
        Some(2)
    } else if same_text(name, "March") {
        Some(3)
    } else if same_text(name, "April") {
        Some(4)
    } else if same_text(name, "May") {
        Some(5)
    } else if same_text(name, "June") {
        Some(6)
    } else if same_text(name, "July") {
        Some(7)
    } else if same_text(name, "August") {
        Some(8)
    } else if same_text(name, "September") {
        Some(9)
    } else if same_text(name, "October") {
        Some(10)
    } else if same_text(name, "November") {
        Some(11)
    } else if same_text(name, "December") {
        Some(12)
    } else {
        None
    }
}

/// Days in `month` of a year that has a leap day or not.
pub fn month_length(month: u8, leap: bool) -> (r: u8)
    requires
        1 <= month <= 12,
    ensures
        r == roman_month_length(month as int, leap),
        28 <= r <= 31,
{
    if month == 2 && leap {
        29
    } else {
        ROMAN_MONTH_LENGTHS[(month - 1) as usize] as u8
    }
}

/// Days of a year that lie before the first of `month`.
pub fn days_before_month(month: u8, leap: bool) -> (r: i128)
    requires
        1 <= month <= 12,
    ensures
        r == roman_days_before_month(month as int, leap),
        0 <= r <= 335,
{
    let mut month_days: i128 = 0;
    let mut monthi: u8 = 1;
    while monthi < month
        invariant
            1 <= monthi <= month <= 12,
            month_days == roman_days_before_month(monthi as int, leap),
            0 <= month_days <= 31 * (monthi - 1),
        decreases month - monthi,
    {
        month_days = month_days + month_length(monthi, leap) as i128;
        monthi = monthi + 1;
    }
    proof {
        lemma_roman_month_starts(leap);
    }
    month_days
}

/// Finds the month and the day of the month of the day that follows
/// `days_left` whole days of a year.
pub fn month_and_day(days_left: i128, leap: bool) -> (r: (u8, u8))
    requires
        0 <= days_left < roman_year_length(leap),
    ensures
        1 <= r.0 <= 12,
        1 <= r.1 <= roman_month_length(r.0 as int, leap),
        roman_days_before_month(r.0 as int, leap) + r.1 - 1 == days_left,
{
    let mut left: i128 = days_left;
    let mut month: u8 = 1;
    proof {
        lemma_roman_month_starts(leap);
    }
    while left >= month_length(month, leap) as i128
        invariant
            1 <= month <= 12,
            0 <= left,
            roman_days_before_month(month as int, leap) + left == days_left,
            days_left < roman_year_length(leap),
            roman_days_before_month(12, leap) + 31 == roman_year_length(leap),
        decreases 12 - month,
    {
        left = left - month_length(month, leap) as i128;
        month = month + 1;
    }
    (month, (left + 1) as u8)
}

/// A date of the proleptic Julian calendar.
#[derive(Debug, Clone, Copy, PartialEq, Eq, Structural)]
pub struct JulianCalendar {
    pub era: Era,
    pub year: u32,
    /// Starts at month 1.
    pub month: u8,
    /// Day of the month.
    pub day: u8,
}

/// A date of the proleptic Gregorian calendar.
#[derive(Debug, Clone, Copy, PartialEq, Eq, Structural)]
pub struct GregorianCalendar {
    pub era: Era,
    pub year: u32,
    /// Starts at month 1.
    pub month: u8,
    /// Day of the month.
    pub day: u8,
}

impl GregorianCalendar {
    /// The year on a scale without a gap between the eras.
    pub open spec fn astronomical_year(&self) -> int {
        astronomical_year(self.era, self.year as int)
    }

    /// Whether the year of this date has a 29 February.
    pub open spec fn spec_is_leap_year(&self) -> bool {
        gregorian_leap(self.astronomical_year())
    }

    /// Whether the fields name a date: a year from 1 on, a month of the year
    /// and a day of that month.
    pub open spec fn spec_valid(&self) -> bool {
        &&& self.day >= 1
        &&& self.year >= 1
        &&& 1 <= self.month <= 12
        &&& self.day <= roman_month_length(self.month as int, self.spec_is_leap_year())
    }

    /// Whether the year lies in the supported range: not before 4400 BC.
    pub open spec fn in_window(&self) -> bool {
        self.era == Era::BC ==> self.year <= GREGORIAN_YEAR_ADJUSTMENT
    }

    /// The day number of a valid date.
    pub open spec fn day_number(&self) -> int {
        GREGORIAN_FIRST_JANUARY_1_AD + gregorian_days_before_year(self.astronomical_year())
            + roman_days_before_month(self.month as int, self.spec_is_leap_year()) + self.day
            - 1
    }

    /// Whether this date comes before `other`: by era and year, then month,
    /// then day.
    pub open spec fn precedes(&self, other: &GregorianCalendar) -> bool {
        ||| self.astronomical_year() < other.astronomical_year()
        ||| self.astronomical_year() == other.astronomical_year() && self.month < other.month
        ||| self.astronomical_year() == other.astronomical_year() && self.month == other.month
            && self.day < other.day
    }

    /// Says what is wrong with the fields, if anything is.
    pub fn valid(&self) -> (r: Option<CalendarError>)
        ensures
            r == if self.spec_valid() {
                None
            } else {
                Some(CalendarError::InvalidInput)
            },
    {
        if self.day == 0 {
            return Some(CalendarError::InvalidInput);
        }
        if self.year == 0 {
            return Some(CalendarError::InvalidInput);
        }
        if self.month > 12 || self.month == 0 {
            return Some(CalendarError::InvalidInput);
        }
        if month_length(self.month, self.is_leap_year()) < self.day {
            return Some(CalendarError::InvalidInput);
        }
        None
    }

    /// Whether the year of this date has a 29 February. For a BC year the
    /// rule is applied to the year minus one, so that 1 BC is a leap year.
    pub fn is_leap_year(&self) -> (r: bool)
        ensures
            r == self.spec_is_leap_year(),
    {
        if self.era == Era::BC && self.year == 0 {
            return false;
        }
        let year: u32 = if self.era == Era::BC {
            self.year - 1
        } else {
            self.year
        };
        proof {
            let a = self.astronomical_year();
            assert(a == year || a == -year);
            assert((-(year as int)) % 4 == 0 <==> (year as int) % 4 == 0);
            assert((-(year as int)) % 100 == 0 <==> (year as int) % 100 == 0);
            assert((-(year as int)) % 400 == 0 <==> (year as int) % 400 == 0);
        }
        (year % 4 == 0) && (year % 100 != 0 || year % 400 == 0)
    }
}

/// The day number of a Gregorian date: `Overflow` for a year before 4400 BC,
/// else `InvalidInput` for fields that name no date.
pub open spec fn gregorian_to_jdn(date: GregorianCalendar) -> Result<int, CalendarError> {
    if !date.in_window() {
        Err(CalendarError::Overflow)
    } else if !date.spec_valid() {
        Err(CalendarError::InvalidInput)
    } else {
        Ok(date.day_number())
    }
}

/// The valid Gregorian date in the supported range that has the day number
/// `julian_day`. There is exactly one for each day from `GREGORIAN_MIN_DAY`
/// to `GREGORIAN_MAX_DAY`.
pub open spec fn gregorian_date_on(julian_day: int) -> GregorianCalendar {
    choose|d: GregorianCalendar| d.spec_valid() && d.in_window() && d.day_number() == julian_day
}

/// The Gregorian date of a day number: `Overflow` outside the supported days.
pub open spec fn gregorian_from_jdn(julian_day: int) -> Result<GregorianCalendar, CalendarError> {
    if julian_day < GREGORIAN_MIN_DAY || julian_day > GREGORIAN_MAX_DAY {
        Err(CalendarError::Overflow)
    } else {
        Ok(gregorian_date_on(julian_day))
    }
}

/// Splits a count of days since 1 January 4400 BC into the year, counted
/// from 4400 BC as year 1, and the days of that year that have passed.
pub fn gregorian_year_and_days(shifted_date: i128) -> (r: (i128, i128))
    requires
        0 <= shifted_date <= GREGORIAN_MAX_DAY - GREGORIAN_MIN_DAY,
    ensures
        1 <= r.0,
        0 <= r.1 < roman_year_length(gregorian_leap(r.0 - GREGORIAN_YEAR_ADJUSTMENT)),
        GREGORIAN_FIRST_JANUARY_1_AD + gregorian_days_before_year(
            r.0 - GREGORIAN_YEAR_ADJUSTMENT,
        ) + r.1 == shifted_date + GREGORIAN_MIN_DAY,
{
    // Peel off the cycles of 400 years (146097 days), of 100 years (36524
    // days) and of 4 years (1461 days), then the single years. The last day
    // of a cycle belongs to its last part, so the counts are capped.
    let big_cycles: i128 = shifted_date / 146097;
    let mut days_left: i128 = shifted_date - big_cycles * 146097;

    let medium: i128 = days_left / 36524;
    let medium_cycles: i128 = if medium < 3 {
        medium
    } else {
        3
    };
    days_left = days_left - medium_cycles * 36524;

    let small: i128 = days_left / 1461;
    let small_cycles: i128 = if small < 24 {
        small
    } else {
        24
    };
    days_left = days_left - small_cycles * 1461;

    let single: i128 = days_left / 365;
    let years_in_cycle: i128 = if single < 3 {
        single
    } else {
        3
    };
    days_left = days_left - years_in_cycle * 365;

    proof {
        lemma_gregorian_peel(
            shifted_date as int,
            big_cycles as int,
            medium_cycles as int,
            small_cycles as int,
            years_in_cycle as int,
        );
        lemma_gregorian_shift(
            big_cycles * 400 + medium_cycles * 100 + small_cycles * 4 + years_in_cycle + 1
                - GREGORIAN_YEAR_ADJUSTMENT,
        );
    }
    (big_cycles * 400 + medium_cycles * 100 + small_cycles * 4 + years_in_cycle + 1, days_left)
}

/// Finds the proleptic Gregorian date of a day number.
pub fn to_proleptic_gregorian(julian_day: i128) -> (r: Result<GregorianCalendar, CalendarError>)
    ensures
        r == gregorian_from_jdn(julian_day as int),
        r matches Ok(d) ==> d.spec_valid() && d.in_window() && d.day_number() == julian_day,
{
    if julian_day < GREGORIAN_MIN_DAY || julian_day > GREGORIAN_MAX_DAY {
        return Err(CalendarError::Overflow);
    }
    let (year, days_left) = gregorian_year_and_days(julian_day - GREGORIAN_MIN_DAY);
    let final_year: i128 = year - GREGORIAN_YEAR_ADJUSTMENT;
    proof {
        lemma_gregorian_shift(final_year as int);
        lemma_gregorian_window(final_year as int, julian_day as int - days_left);
    }
    let leap = (year % 4 == 0) && (year % 100 != 0 || year % 400 == 0);
    let (month, day) = month_and_day(days_left, leap);
    let cal_date = if final_year <= 0 {
        GregorianCalendar { era: Era::BC, year: (1 - final_year) as u32, month, day }
    } else {
        GregorianCalendar { era: Era::AD, year: final_year as u32, month, day }
    };
    proof {
        assert(cal_date.astronomical_year() == final_year);
        assert(cal_date.spec_valid() && cal_date.in_window() && cal_date.day_number()
            == julian_day);
        lemma_gregorian_day_number_injective(cal_date, gregorian_date_on(julian_day as int));
    }
    Ok(cal_date)
}

/// Counts the days from 1 January 4400 BC to 1 January of a year, counted
/// from 4400 BC as year 1.
pub fn gregorian_days_to_year(year: i128) -> (r: i128)
    requires
        1 <= year <= GREGORIAN_YEAR_ADJUSTMENT + u32::MAX,
    ensures
        r == gregorian_days_before_year(year - GREGORIAN_YEAR_ADJUSTMENT) + 11 * 146097,
        0 <= r <= GREGORIAN_MAX_DAY,
{
    let mut years_left: i128 = year - 1;
    let big_cycles: i128 = years_left / 400;
    years_left = years_left % 400;

    let medium_cycles: i128 = years_left / 100;
    years_left = years_left % 100;

    let small_cycles: i128 = years_left / 4;
    years_left = years_left % 4;

    proof {
        lemma_gregorian_cycles(
            big_cycles as int,
            medium_cycles as int,
            small_cycles as int,
            years_left as int,
        );
        lemma_gregorian_shift(year - GREGORIAN_YEAR_ADJUSTMENT);
    }
    big_cycles * 146097 + medium_cycles * 36524 + small_cycles * 1461 + years_left * 365
}

/// Finds the day number of a proleptic Gregorian date.
pub fn from_proleptic_gregorian(cal_date: &GregorianCalendar) -> (r: Result<i128, CalendarError>)
    ensures
        match r {
            Ok(j) => gregorian_to_jdn(*cal_date) == Ok::<int, CalendarError>(j as int),
            Err(e) => gregorian_to_jdn(*cal_date) == Err::<int, CalendarError>(e),
        },
{
    if cal_date.year > GREGORIAN_YEAR_ADJUSTMENT as u32 && cal_date.era == Era::BC {
        return Err(CalendarError::Overflow);
    }
    if cal_date.valid().is_some() {
        return Err(CalendarError::InvalidInput);
    }
    let year: i128 = if cal_date.era == Era::BC {
        GREGORIAN_YEAR_ADJUSTMENT - (cal_date.year as i128 - 1)
    } else {
        cal_date.year as i128 + GREGORIAN_YEAR_ADJUSTMENT
    };
    let year_days: i128 = gregorian_days_to_year(year);
    let month_days: i128 = days_before_month(cal_date.month, cal_date.is_leap_year());

    Ok(year_days + month_days + (cal_date.day as i128 - 1) + GREGORIAN_MIN_DAY)
}

impl JulianCalendar {
    /// The year on a scale without a gap between the eras.
    pub open spec fn astronomical_year(&self) -> int {
        astronomical_year(self.era, self.year as int)
    }

    /// Whether the year of this date has a 29 February.
    pub open spec fn spec_is_leap_year(&self) -> bool {
        julian_leap(self.astronomical_year())
    }

    /// Whether the fields name a date: a year from 1 on, a month of the year
    /// and a day of that month.
    pub open spec fn spec_valid(&self) -> bool {
        &&& self.day >= 1
        &&& self.year >= 1
        &&& 1 <= self.month <= 12
        &&& self.day <= roman_month_length(self.month as int, self.spec_is_leap_year())
    }

    /// Whether the year lies in the supported range: not before 4712 BC.
    pub open spec fn in_window(&self) -> bool {
        self.era == Era::BC ==> self.year <= JULIAN_YEAR_ADJUSTMENT
    }

    /// The day number of a valid date.
    pub open spec fn day_number(&self) -> int {
        JULIAN_FIRST_JANUARY_1_AD + julian_days_before_year(self.astronomical_year())
            + roman_days_before_month(self.month as int, self.spec_is_leap_year()) + self.day
            - 1
    }

    /// Whether this date comes before `other`: by era and year, then month,
    /// then day.
    pub open spec fn precedes(&self, other: &JulianCalendar) -> bool {
        ||| self.astronomical_year() < other.astronomical_year()
        ||| self.astronomical_year() == other.astronomical_year() && self.month < other.month
        ||| self.astronomical_year() == other.astronomical_year() && self.month == other.month
            && self.day < other.day
    }

    /// Says what is wrong with the fields, if anything is.
    pub fn valid(&self) -> (r: Option<CalendarError>)
        ensures
            r == if self.spec_valid() {
                None
            } else {
                Some(CalendarError::InvalidInput)
            },
    {
        if self.day == 0 {
            return Some(CalendarError::InvalidInput);
        }
        if self.year == 0 {
            return Some(CalendarError::InvalidInput);
        }
        if self.month > 12 || self.month == 0 {
            return Some(CalendarError::InvalidInput);
        }
        if month_length(self.month, self.is_leap_year()) < self.day {
            return Some(CalendarError::InvalidInput);
        }
        None
    }

    /// Whether the year of this date has a 29 February. For a BC year the
    /// rule is applied to the year minus one, so that 1 BC is a leap year.
    pub fn is_leap_year(&self) -> (r: bool)
        ensures
            r == self.spec_is_leap_year(),
    {
        if self.era == Era::BC && self.year == 0 {
            return false;
        }
        let year: u32 = if self.era == Era::BC {
            self.year - 1
        } else {
            self.year
        };
        proof {
            let a = self.astronomical_year();
            assert(a == year || a == -year);
            assert((-(year as int)) % 4 == 0 <==> (year as int) % 4 == 0);
        }
        year % 4 == 0
    }
}

/// The day number of a Julian date: `Overflow` for a year before 4712 BC,
/// else `InvalidInput` for fields that name no date.
pub open spec fn julian_to_jdn(date: JulianCalendar) -> Result<int, CalendarError> {
    if !date.in_window() {
        Err(CalendarError::Overflow)
    } else if !date.spec_valid() {
        Err(CalendarError::InvalidInput)
    } else {
        Ok(date.day_number())
    }
}

/// The valid Julian date in the supported range that has the day number
/// `julian_day`. There is exactly one for each day from `JULIAN_MIN_DAY` to
/// `JULIAN_MAX_DAY`.
pub open spec fn julian_date_on(julian_day: int) -> JulianCalendar {
    choose|d: JulianCalendar| d.spec_valid() && d.in_window() && d.day_number() == julian_day
}

/// The Julian date of a day number: `Overflow` outside the supported days.
pub open spec fn julian_from_jdn(julian_day: int) -> Result<JulianCalendar, CalendarError> {
    if julian_day < JULIAN_MIN_DAY || julian_day > JULIAN_MAX_DAY {
        Err(CalendarError::Overflow)
    } else {
        Ok(julian_date_on(julian_day))
    }
}

/// Splits a count of days since 1 January 4712 BC into the year, counted
/// from 4712 BC as year 1, and the days of that year that have passed.
pub fn julian_year_and_days(shifted_date: i128) -> (r: (i128, i128))
    requires
        0 <= shifted_date <= JULIAN_MAX_DAY - JULIAN_MIN_DAY,
    ensures
        1 <= r.0,
        0 <= r.1 < roman_year_length(julian_leap(r.0 - JULIAN_YEAR_ADJUSTMENT)),
        JULIAN_FIRST_JANUARY_1_AD + julian_days_before_year(r.0 - JULIAN_YEAR_ADJUSTMENT) + r.1
            == shifted_date + JULIAN_MIN_DAY,
{
    // Peel off the cycles of 4 years (1461 days), then the single years. The
    // last day of a cycle belongs to its fourth year, so the count is capped.
    let cycles: i128 = shifted_date / 1461;
    let mut days_left: i128 = shifted_date - cycles * 1461;

    let single: i128 = days_left / 365;
    let years_in_cycle: i128 = if single < 3 {
        single
    } else {
        3
    };
    days_left = days_left - years_in_cycle * 365;

    proof {
        lemma_julian_cycles(cycles as int, years_in_cycle as int);
        lemma_julian_shift(cycles * 4 + years_in_cycle + 1 - JULIAN_YEAR_ADJUSTMENT);
    }
    (cycles * 4 + years_in_cycle + 1, days_left)
}

/// Finds the proleptic Julian date of a day number.
pub fn to_proleptic_julian(julian_day: i128) -> (r: Result<JulianCalendar, CalendarError>)
    ensures
        r == julian_from_jdn(julian_day as int),
        r matches Ok(d) ==> d.spec_valid() && d.in_window() && d.day_number() == julian_day,
{
    if julian_day < JULIAN_MIN_DAY || julian_day > JULIAN_MAX_DAY {
        return Err(CalendarError::Overflow);
    }
    let (year, days_left) = julian_year_and_days(julian_day - JULIAN_MIN_DAY);
    let final_year: i128 = year - JULIAN_YEAR_ADJUSTMENT;
    proof {
        lemma_julian_shift(final_year as int);
        lemma_julian_window(final_year as int, julian_day as int - days_left);
    }
    let leap = year % 4 == 0;
    let (month, day) = month_and_day(days_left, leap);
    let cal_date = if final_year <= 0 {
        JulianCalendar { era: Era::BC, year: (1 - final_year) as u32, month, day }
    } else {
        JulianCalendar { era: Era::AD, year: final_year as u32, month, day }
    };
    proof {
        assert(cal_date.astronomical_year() == final_year);
        assert(cal_date.spec_valid() && cal_date.in_window() && cal_date.day_number()
            == julian_day);
        lemma_julian_day_number_injective(cal_date, julian_date_on(julian_day as int));
    }
    Ok(cal_date)
}

/// Counts the days from 1 January 4712 BC to 1 January of a year, counted
/// from 4712 BC as year 1.
pub fn julian_days_to_year(year: i128) -> (r: i128)
    requires
        1 <= year <= JULIAN_YEAR_ADJUSTMENT + u32::MAX,
    ensures
        r == julian_days_before_year(year - JULIAN_YEAR_ADJUSTMENT) + 1178 * 1461,
        0 <= r <= JULIAN_MAX_DAY,
{
    proof {
        lemma_julian_cycles((year - 1) / 4, (year - 1) % 4);
        lemma_julian_shift(year - JULIAN_YEAR_ADJUSTMENT);
    }
    ((year - 1) / 4) * 1461 + ((year - 1) % 4) * 365
}

/// Finds the day number of a proleptic Julian date.
pub fn from_proleptic_julian(cal_date: &JulianCalendar) -> (r: Result<i128, CalendarError>)
    ensures
        match r {
            Ok(j) => julian_to_jdn(*cal_date) == Ok::<int, CalendarError>(j as int),
            Err(e) => julian_to_jdn(*cal_date) == Err::<int, CalendarError>(e),
        },
{
    if cal_date.year > JULIAN_YEAR_ADJUSTMENT as u32 && cal_date.era == Era::BC {
        return Err(CalendarError::Overflow);
    }
    if cal_date.valid().is_some() {
        return Err(CalendarError::InvalidInput);
    }
    let year: i128 = if cal_date.era == Era::BC {
        JULIAN_YEAR_ADJUSTMENT - (cal_date.year as i128 - 1)
    } else {
        cal_date.year as i128 + JULIAN_YEAR_ADJUSTMENT
    };
    let year_days: i128 = julian_days_to_year(year);
    let month_days: i128 = days_before_month(cal_date.month, cal_date.is_leap_year());

    Ok(year_days + month_days + (cal_date.day as i128 - 1) + JULIAN_MIN_DAY)
}

/// The date that entered fields name in either Roman calendar, as era, year,
/// month and day: `None` for a day above 255, an unknown month name or a
/// negative year. Whether the date exists is not looked at.
pub open spec fn roman_fields(day: u32, month: Seq<char>, year: i32, era: Seq<char>) -> Option<
    (Era, u32, u8, u8),
> {
    match roman_month_number(month) {
        Some(m) => if day <= u8::MAX && year >= 0 {
            Some((era_from_name(era), year as u32, m, day as u8))
        } else {
            None
        },
        None => None,
    }
}

impl Calendar for GregorianCalendar {
    open spec fn spec_to_julian_day(&self) -> Result<int, CalendarError> {
        gregorian_to_jdn(*self)
    }

    open spec fn spec_from_julian_day(julian_day: int) -> Result<Self, CalendarError> {
        gregorian_from_jdn(julian_day)
    }

    open spec fn spec_new(day: u32, month: Seq<char>, year: i32, era: Seq<char>) -> Result<
        Self,
        CalendarError,
    > {
        match roman_fields(day, month, year, era) {
            Some((era, year, month, day)) => Ok(GregorianCalendar { era, year, month, day }),
            None => Err(CalendarError::InvalidInput),
        }
    }

    fn to_julian_day(&self) -> (r: Result<i128, CalendarError>) {
        from_proleptic_gregorian(self)
    }

    fn from_julian_day(julian_day: i128) -> (r: Result<Self, CalendarError>) {
        to_proleptic_gregorian(julian_day)
    }

    /// Builds a date from entered fields. The month is an English month
    /// name; the era is `"AD"`, and anything else is read as BC. Fails with
    /// `InvalidInput` for a day above 255, an unknown month name or a
    /// negative year; whether the date exists is found out when it is
    /// converted.
    fn new(day: u32, month: String, year: i32, era: String) -> (r: Result<Self, CalendarError>) {
        if day > 255 {
            return Err(CalendarError::InvalidInput);
        }
        let month_num = match parse_roman_month(month.as_str()) {
            Some(n) => n,
            None => {
                return Err(CalendarError::InvalidInput);
            },
        };
        if year < 0 {
            return Err(CalendarError::InvalidInput);
        }
        let era: Era = if same_text(era.as_str(), "AD") {
            Era::AD
        } else {
            Era::BC
        };
        Ok(GregorianCalendar { era, year: year as u32, month: month_num, day: day as u8 })
    }
}

impl Calendar for JulianCalendar {
    open spec fn spec_to_julian_day(&self) -> Result<int, CalendarError> {
        julian_to_jdn(*self)
    }

    open spec fn spec_from_julian_day(julian_day: int) -> Result<Self, CalendarError> {
        julian_from_jdn(julian_day)
    }

    open spec fn spec_new(day: u32, month: Seq<char>, year: i32, era: Seq<char>) -> Result<
        Self,
        CalendarError,
    > {
        match roman_fields(day, month, year, era) {
            Some((era, year, month, day)) => Ok(JulianCalendar { era, year, month, day }),
            None => Err(CalendarError::InvalidInput),
        }
    }

    fn to_julian_day(&self) -> (r: Result<i128, CalendarError>) {
        from_proleptic_julian(self)
    }

    fn from_julian_day(julian_day: i128) -> (r: Result<Self, CalendarError>) {
        to_proleptic_julian(julian_day)
    }

    /// Builds a date from entered fields, as for the Gregorian calendar.
    fn new(day: u32, month: String, year: i32, era: String) -> (r: Result<Self, CalendarError>) {
        match GregorianCalendar::new(day, month, year, era) {
            Ok(cal) => Ok(
                JulianCalendar { era: cal.era, year: cal.year, month: cal.month, day: cal.day },
            ),
            Err(e) => Err(e),
        }
    }
}

/// The record of a date of either Roman calendar: the month's code is its
/// number.
pub open spec fn roman_generic_date(era: Era, year: u32, month: u8, day: u8) -> GenericDate {
    GenericDate {
        is_valid: true,
        is_not_overflow: true,
        era: era == Era::AD,
        year,
        month_name: month,
        day,
    }
}

impl From<JulianCalendar> for GenericDate {
    fn from(date: JulianCalendar) -> (r: GenericDate) {
        GenericDate {
            is_not_overflow: true,
            is_valid: true,
            era: match date.era {
                Era::AD => true,
                Era::BC => false,
            },
            year: date.year,
            month_name: date.month,
            day: date.day,
        }
    }
}

impl vstd::std_specs::convert::FromSpecImpl<JulianCalendar> for GenericDate {
    open spec fn obeys_from_spec() -> bool {
        true
    }

    open spec fn from_spec(date: JulianCalendar) -> GenericDate {
        roman_generic_date(date.era, date.year, date.month, date.day)
    }
}

impl From<GregorianCalendar> for GenericDate {
    fn from(date: GregorianCalendar) -> (r: GenericDate) {
        GenericDate {
            is_not_overflow: true,
            is_valid: true,
            era: match date.era {
                Era::AD => true,
                Era::BC => false,
            },
            year: date.year,
            month_name: date.month,
            day: date.day,
        }
    }
}

impl vstd::std_specs::convert::FromSpecImpl<GregorianCalendar> for GenericDate {
    open spec fn obeys_from_spec() -> bool {
        true
    }

    open spec fn from_spec(date: GregorianCalendar) -> GenericDate {
        roman_generic_date(date.era, date.year, date.month, date.day)
    }
}

} // verus!
