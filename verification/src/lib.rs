//! Conversion of dates between the proleptic Gregorian, the proleptic
//! Julian and the traditional Hebrew calendar.
//!
//! Every calendar maps its dates to day numbers and back, and a date is
//! converted by way of its day number. Day numbers are on the scale of the
//! Julian days: a calendar day has the number of the Julian day during which
//! it begins, so that 1 January AD 1 of the Gregorian calendar is day
//! 1721425.
//!
//! The modules of the calendars hold the executable code next to the
//! functions that say what it computes; the modules whose names end in
//! `laws` hold what is proved of these functions.

use crate::cal::Calendar;
use crate::hebrew::HebrewDate;
use crate::invalid_year_err::CalendarError;
use crate::julian_gregorian::{GregorianCalendar, JulianCalendar};
use crate::text::same_text;
use vstd::prelude::*;
use vstd::std_specs::convert::IntoSpec;

pub mod cal;
pub mod conversion_laws;
pub mod hebrew;
pub mod hebrew_laws;
pub mod invalid_year_err;
pub mod julian_gregorian;
pub mod roman_laws;
pub mod text;

verus! {

/// A date of any calendar, or the record of a failed conversion.
///
/// `era` is `false` for the first era (BC) and `true` for the second (AD);
/// calendars without eras leave it `false`. `month_name` is the code of the
/// month's name, which in Hebrew leap years differs from the month's number.
/// After a failure exactly one of `is_valid` and `is_not_overflow` is `false`
/// and the other fields are zero.
#[derive(Debug, Clone, Copy, PartialEq, Eq, Structural)]
pub struct GenericDate {
    pub is_valid: bool,
    pub is_not_overflow: bool,
    pub era: bool,
    pub year: u32,
    pub month_name: u8,
    pub day: u8,
}

impl GenericDate {
    /// Whether the record is one that a conversion gives: that of a date,
    /// with both flags on, or that of a failure, with one flag off and
    /// zeros in the other fields.
    pub open spec fn well_formed(&self) -> bool {
        ||| self.is_valid && self.is_not_overflow
        ||| *self == failure_record(CalendarError::InvalidInput)
        ||| *self == failure_record(CalendarError::Overflow)
    }

    pub fn get_is_not_overflow(&self) -> (r: bool)
        ensures
            r == self.is_not_overflow,
    {
        self.is_not_overflow
    }

    pub fn get_is_valid(&self) -> (r: bool)
        ensures
            r == self.is_valid,
    {
        self.is_valid
    }

    pub fn get_era(&self) -> (r: bool)
        ensures
            r == self.era,
    {
        self.era
    }

    pub fn get_year(&self) -> (r: u32)
        ensures
            r == self.year,
    {
        self.year
    }

    pub fn get_month_name(&self) -> (r: u8)
        ensures
            r == self.month_name,
    {
        self.month_name
    }

    pub fn get_day(&self) -> (r: u8)
        ensures
            r == self.day,
    {
        self.day
    }

    /// The record of a failed conversion.
    pub fn failure(error: CalendarError) -> (r: GenericDate)
        ensures
            r == failure_record(error),
            r.well_formed(),
    {
        match error {
            CalendarError::InvalidInput => GenericDate {
                is_valid: false,
                is_not_overflow: true,
                era: false,
                year: 0,
                month_name: 0,
                day: 0,
            },
            CalendarError::Overflow => GenericDate {
                is_valid: true,
                is_not_overflow: false,
                era: false,
                year: 0,
                month_name: 0,
                day: 0,
            },
        }
    }
}

/// Whether a name is that of a calendar the library knows.
pub open spec fn is_calendar_name(name: Seq<char>) -> bool {
    name == "Hebrew"@ || name == "Julian"@ || name == "Gregorian"@
}

/// The record of a failed conversion: zeros, and the flag of the failure
/// turned off.
pub open spec fn failure_record(error: CalendarError) -> GenericDate {
    GenericDate {
        is_valid: error != CalendarError::InvalidInput,
        is_not_overflow: error != CalendarError::Overflow,
        era: false,
        year: 0,
        month_name: 0,
        day: 0,
    }
}

/// The date of calendar `T2` on the day of a date of calendar `T1`.
pub open spec fn spec_convert<T1: Calendar, T2: Calendar>(from_cal: T1) -> Result<
    T2,
    CalendarError,
> {
    match from_cal.spec_to_julian_day() {
        Ok(day) => T2::spec_from_julian_day(day),
        Err(e) => Err(e),
    }
}

/// The record of a date or of the failure to get one.
pub open spec fn spec_record<T: Into<GenericDate>>(input: Result<T, CalendarError>) -> GenericDate {
    match input {
        Ok(date) => date.into_spec(),
        Err(e) => failure_record(e),
    }
}

/// The record of converting a date, or the failure to build one, to the
/// calendar named `to`.
pub open spec fn spec_convert_to<T1: Calendar>(
    from_cal: Result<T1, CalendarError>,
    to: Seq<char>,
) -> GenericDate {
    match from_cal {
        Err(e) => failure_record(e),
        Ok(date) => if to == "Hebrew"@ {
            spec_record(spec_convert::<T1, HebrewDate>(date))
        } else if to == "Julian"@ {
            spec_record(spec_convert::<T1, JulianCalendar>(date))
        } else {
            spec_record(spec_convert::<T1, GregorianCalendar>(date))
        },
    }
}

/// The record of converting the entered date of the calendar named `from`
/// to the calendar named `to`.
pub open spec fn spec_js_api(
    from: Seq<char>,
    to: Seq<char>,
    day: u32,
    month: Seq<char>,
    year: i32,
    era: Seq<char>,
) -> GenericDate {
    if from == "Hebrew"@ {
        spec_convert_to(HebrewDate::spec_new(day, month, year, era), to)
    } else if from == "Julian"@ {
        spec_convert_to(JulianCalendar::spec_new(day, month, year, era), to)
    } else {
        spec_convert_to(GregorianCalendar::spec_new(day, month, year, era), to)
    }
}

/// Converts an entered date from one calendar to another. `from` and `to`
/// name the calendars: `"Hebrew"`, `"Julian"` or `"Gregorian"`. The first
/// failure on the way, in reading the date, in finding its day number or in
/// finding the date of that day, ends the conversion with its record: zeros,
/// with one of the two flags turned off. A Hebrew date has no era.
pub fn js_api(from: &str, to: &str, day: u32, month: &str, year: i32, era: &str) -> (r:
    GenericDate)
    requires
        is_calendar_name(from@),
        is_calendar_name(to@),
    ensures
        r == spec_js_api(from@, to@, day, month@, year, era@),
        r.well_formed(),
        to@ == "Hebrew"@ ==> !r.era,
{
    let to = String::from_str(to);
    let month = String::from_str(month);
    let era = String::from_str(era);
    if same_text(from, "Hebrew") {
        js_api_helper(HebrewDate::new(day, month, year, era), to)
    } else if same_text(from, "Julian") {
        js_api_helper(JulianCalendar::new(day, month, year, era), to)
    } else {
        js_api_helper(GregorianCalendar::new(day, month, year, era), to)
    }
}

/// Converts a date, if one could be built, to the calendar named `to`.
pub fn js_api_helper<T1: Calendar>(from_cal: Result<T1, CalendarError>, to: String) -> (r:
    GenericDate)
    requires
        is_calendar_name(to@),
    ensures
        r == spec_convert_to(from_cal, to@),
        r.well_formed(),
        to@ == "Hebrew"@ ==> !r.era,
{
    let date = match from_cal {
        Err(e) => {
            return GenericDate::failure(e);
        },
        Ok(d) => d,
    };
    if same_text(to.as_str(), "Hebrew") {
        js_api_helper_helper(convert::<T1, HebrewDate>(date))
    } else if same_text(to.as_str(), "Julian") {
        js_api_helper_helper(convert::<T1, JulianCalendar>(date))
    } else {
        js_api_helper_helper(convert::<T1, GregorianCalendar>(date))
    }
}

/// Lowers a date, or the failure to get one, into a record. What the record
/// of a date holds is known where the conversion of `T1` into a record keeps
/// to its spec function, as that of each calendar of this library does.
pub fn js_api_helper_helper<T1: Into<GenericDate> + Calendar>(
    input: Result<T1, CalendarError>,
) -> (r: GenericDate)
    ensures
        T1::obeys_into_spec() ==> r == spec_record(input),
        input matches Err(e) ==> r == failure_record(e),
{
    match input {
        Ok(date) => date.into(),
        Err(e) => GenericDate::failure(e),
    }
}

/// Finds the date of calendar `T2` on the day of a date of calendar `T1`.
pub fn convert<T1: Calendar, T2: Calendar>(from_cal: T1) -> (r: Result<T2, CalendarError>)
    ensures
        r == spec_convert::<T1, T2>(from_cal),
{
    match from_cal.to_julian_day() {
        Ok(day) => T2::from_julian_day(day),
        Err(e) => Err(e),
    }
}

} // verus!
