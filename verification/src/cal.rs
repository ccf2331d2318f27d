//! What the calendars have in common.

use crate::invalid_year_err::CalendarError;
use vstd::prelude::*;

verus! {

/// A calendar whose dates map to day numbers and back.
///
/// Each executable method is tied to a spec function of the same calendar,
/// so that code written against the trait can be reasoned about without
/// knowing which calendar it handles.
pub trait Calendar: Sized {
    /// The day number of this date, or why it has none.
    spec fn spec_to_julian_day(&self) -> Result<int, CalendarError>;

    /// The date that falls on `julian_day`, or why there is none.
    spec fn spec_from_julian_day(julian_day: int) -> Result<Self, CalendarError>;

    /// The date that the entered fields name, or why they name none.
    spec fn spec_new(day: u32, month: Seq<char>, year: i32, era: Seq<char>) -> Result<
        Self,
        CalendarError,
    >;

    /// Finds the day number of this date.
    fn to_julian_day(&self) -> (r: Result<i128, CalendarError>)
        ensures
            match r {
                Ok(j) => self.spec_to_julian_day() == Ok::<int, CalendarError>(j as int),
                Err(e) => self.spec_to_julian_day() == Err::<int, CalendarError>(e),
            },
    ;

    /// Finds the date that falls on a day.
    fn from_julian_day(julian_day: i128) -> (r: Result<Self, CalendarError>)
        ensures
            r == Self::spec_from_julian_day(julian_day as int),
    ;

    /// Builds a date from entered fields: the day, the name of the month, the
    /// year and the name of the era.
    fn new(day: u32, month: String, year: i32, era: String) -> (r: Result<Self, CalendarError>)
        ensures
            r == Self::spec_new(day, month@, year, era@),
    ;
}

} // verus!
