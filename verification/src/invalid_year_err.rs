//! The two ways in which a conversion fails.

use vstd::prelude::*;

verus! {

/// Text shown for [`CalendarError::Overflow`].
pub const OVERFLOW_ERROR_STRING: &'static str = "The entered date was too early or late to handle";

/// Text shown for [`CalendarError::InvalidInput`].
pub const INVALID_DATE_ERROR_STRING: &'static str = "The entered date was not valid";

/// Why a date could not be built or converted.
#[derive(Debug, Clone, Copy, PartialEq, Eq, Structural)]
pub enum CalendarError {
    /// The day lies outside the days that a calendar can express.
    Overflow,
    /// The fields do not name a date of the calendar.
    InvalidInput,
}

impl CalendarError {
    /// The text that belongs to this error.
    pub open spec fn spec_description(&self) -> Seq<char> {
        match self {
            CalendarError::Overflow => OVERFLOW_ERROR_STRING@,
            CalendarError::InvalidInput => INVALID_DATE_ERROR_STRING@,
        }
    }

    /// The text that belongs to this error, borrowed.
    pub fn description(&self) -> (r: &'static str)
        ensures
            r@ == self.spec_description(),
    {
        match self {
            CalendarError::Overflow => OVERFLOW_ERROR_STRING,
            CalendarError::InvalidInput => INVALID_DATE_ERROR_STRING,
        }
    }

    /// The text that belongs to this error, as an owned string.
    pub fn message(&self) -> (r: String)
        ensures
            r@ == self.spec_description(),
    {
        String::from_str(self.description())
    }
}

} // verus!
