//! What is proved of converting a date to another calendar and back.

use crate::cal::Calendar;
use crate::hebrew::{hebrew_from_jdn, hebrew_to_jdn, HebrewDate};
use crate::hebrew_laws::{hebrew_day_round_trips, lemma_hebrew_day_round_trip};
use crate::invalid_year_err::CalendarError;
use crate::julian_gregorian::{
    GregorianCalendar, JulianCalendar, GREGORIAN_MAX_DAY, GREGORIAN_MIN_DAY, JULIAN_MAX_DAY,
    JULIAN_MIN_DAY,
};
use crate::roman_laws::{
    lemma_gregorian_date_exists, lemma_gregorian_round_trip, lemma_julian_date_exists,
    lemma_julian_round_trip,
};
use crate::spec_convert;
use vstd::prelude::*;

verus! {

/// Whether converting a date to another calendar and back gives the date.
pub open spec fn converts_there_and_back<T1: Calendar, T2: Calendar>(date: T1) -> bool {
    match spec_convert::<T1, T2>(date) {
        Ok(there) => spec_convert::<T2, T1>(there) == Ok::<T1, CalendarError>(date),
        Err(_) => false,
    }
}

/// Gregorian to Julian and back: every valid Gregorian date from 4400 BC
/// on has a Julian date, which leads back to it.
pub proof fn lemma_gregorian_julian_round_trip(date: GregorianCalendar)
    requires
        date.spec_valid(),
        date.in_window(),
    ensures
        converts_there_and_back::<GregorianCalendar, JulianCalendar>(date),
{
    lemma_gregorian_round_trip(date);
    lemma_julian_date_exists(date.day_number());
}

/// Gregorian to Hebrew and back: a valid Gregorian date from 4400 BC on
/// comes back from the Hebrew calendar just where its day has a Hebrew date
/// that has the day's number, which is so but for some days at the turn of a
/// Hebrew year.
pub proof fn lemma_gregorian_hebrew_round_trip(date: GregorianCalendar)
    requires
        date.spec_valid(),
        date.in_window(),
    ensures
        converts_there_and_back::<GregorianCalendar, HebrewDate>(date) <==> hebrew_day_round_trips(
            date.day_number(),
        ),
{
    lemma_gregorian_round_trip(date);
    lemma_hebrew_day_round_trip(date.day_number());
    // A date that comes back from another day is another date.
    let there = hebrew_from_jdn(date.day_number());
    if there is Ok {
        let back = hebrew_to_jdn(there->Ok_0);
        if back is Ok && GREGORIAN_MIN_DAY <= back->Ok_0 <= GREGORIAN_MAX_DAY {
            lemma_gregorian_date_exists(back->Ok_0);
        }
    }
}

/// Julian to Hebrew and back: a valid Julian date from 4712 BC on comes
/// back from the Hebrew calendar just where its day has a Hebrew date that
/// has the day's number, which is so but for some days at the turn of a
/// Hebrew year.
pub proof fn lemma_julian_hebrew_round_trip(date: JulianCalendar)
    requires
        date.spec_valid(),
        date.in_window(),
    ensures
        converts_there_and_back::<JulianCalendar, HebrewDate>(date) <==> hebrew_day_round_trips(
            date.day_number(),
        ),
{
    lemma_julian_round_trip(date);
    lemma_hebrew_day_round_trip(date.day_number());
    // A date that comes back from another day is another date.
    let there = hebrew_from_jdn(date.day_number());
    if there is Ok {
        let back = hebrew_to_jdn(there->Ok_0);
        if back is Ok && JULIAN_MIN_DAY <= back->Ok_0 <= JULIAN_MAX_DAY {
            lemma_julian_date_exists(back->Ok_0);
        }
    }
}

} // verus!
