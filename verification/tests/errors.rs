use calendars::invalid_year_err::{
    CalendarError, INVALID_DATE_ERROR_STRING, OVERFLOW_ERROR_STRING,
};
use calendars::{js_api_helper, js_api_helper_helper, GenericDate};
use calendars::julian_gregorian::{Era, GregorianCalendar, JulianCalendar};

#[test]
fn each_error_has_its_text() {
    assert_eq!(CalendarError::Overflow.description(), OVERFLOW_ERROR_STRING);
    assert_eq!(CalendarError::InvalidInput.description(), INVALID_DATE_ERROR_STRING);
    assert_eq!(
        CalendarError::Overflow.message(),
        "The entered date was too early or late to handle"
    );
    assert_eq!(CalendarError::InvalidInput.message(), "The entered date was not valid");
}

#[test]
fn a_failure_turns_off_one_flag() {
    let invalid: Result<GregorianCalendar, CalendarError> = Err(CalendarError::InvalidInput);
    let overflow: Result<GregorianCalendar, CalendarError> = Err(CalendarError::Overflow);
    let zeros = |is_valid, is_not_overflow| GenericDate {
        is_valid,
        is_not_overflow,
        era: false,
        year: 0,
        month_name: 0,
        day: 0,
    };
    assert_eq!(GenericDate::failure(CalendarError::InvalidInput), zeros(false, true));
    assert_eq!(GenericDate::failure(CalendarError::Overflow), zeros(true, false));
    assert_eq!(js_api_helper_helper(invalid), zeros(false, true));
    assert_eq!(js_api_helper_helper(overflow), zeros(true, false));
    assert_eq!(js_api_helper(invalid, String::from("Julian")), zeros(false, true));
    assert_eq!(js_api_helper(overflow, String::from("Hebrew")), zeros(true, false));
}

#[test]
fn a_date_is_lowered_into_a_record() {
    let g = GregorianCalendar { era: Era::BC, year: 44, month: 3, day: 15 };
    let r = js_api_helper_helper(Ok(g));
    assert_eq!(
        r,
        GenericDate {
            is_valid: true,
            is_not_overflow: true,
            era: false,
            year: 44,
            month_name: 3,
            day: 15
        }
    );
    let j = JulianCalendar { era: Era::AD, year: 1582, month: 10, day: 4 };
    let r: GenericDate = j.into();
    assert!(r.get_era());
    assert_eq!((r.get_year(), r.get_month_name(), r.get_day()), (1582, 10, 4));
    let there = js_api_helper(Ok(j), String::from("Gregorian"));
    assert_eq!((there.get_year(), there.get_month_name(), there.get_day()), (1582, 10, 14));
}
