use calendars::cal::Calendar;
use calendars::convert;
use calendars::invalid_year_err::CalendarError;
use calendars::julian_gregorian::{
    from_proleptic_julian, julian_days_to_year, julian_year_and_days, to_proleptic_julian, Era,
    GregorianCalendar, JulianCalendar, JULIAN_MAX_DAY, JULIAN_MIN_DAY,
};

fn date(era: Era, year: u32, month: u8, day: u8) -> JulianCalendar {
    JulianCalendar { era, year, month, day }
}

#[test]
fn julian_first_day_of_ad_1() {
    assert_eq!(from_proleptic_julian(&date(Era::AD, 1, 1, 1)), Ok(1721423));
    assert_eq!(to_proleptic_julian(1721423), Ok(date(Era::AD, 1, 1, 1)));
}

#[test]
fn julian_era_boundary() {
    let last_bc = from_proleptic_julian(&date(Era::BC, 1, 12, 31)).unwrap();
    let first_ad = from_proleptic_julian(&date(Era::AD, 1, 1, 1)).unwrap();
    assert_eq!(last_bc + 1, first_ad);
    assert_eq!(to_proleptic_julian(first_ad - 1), Ok(date(Era::BC, 1, 12, 31)));
}

#[test]
fn julian_every_fourth_year_is_a_leap_year() {
    assert!(date(Era::AD, 1900, 1, 1).is_leap_year());
    assert!(date(Era::AD, 2000, 1, 1).is_leap_year());
    assert!(!date(Era::AD, 1901, 1, 1).is_leap_year());
    assert!(date(Era::BC, 1, 1, 1).is_leap_year());
    assert!(date(Era::BC, 101, 1, 1).is_leap_year());
    assert!(!date(Era::BC, 4, 1, 1).is_leap_year());
    assert!(!date(Era::BC, 0, 1, 1).is_leap_year());
    assert_eq!(date(Era::AD, 1900, 2, 29).valid(), None);
    assert_eq!(date(Era::AD, 1901, 2, 29).valid(), Some(CalendarError::InvalidInput));
    let feb_29 = from_proleptic_julian(&date(Era::AD, 1900, 2, 29)).unwrap();
    assert_eq!(to_proleptic_julian(feb_29), Ok(date(Era::AD, 1900, 2, 29)));
    assert_eq!(to_proleptic_julian(feb_29 + 1), Ok(date(Era::AD, 1900, 3, 1)));
}

#[test]
fn julian_invalid_fields() {
    for d in [
        date(Era::AD, 2001, 2, 29),
        date(Era::AD, 2001, 13, 1),
        date(Era::AD, 2001, 0, 1),
        date(Era::AD, 2001, 1, 0),
        date(Era::BC, 0, 1, 1),
        date(Era::AD, 2001, 6, 31),
    ] {
        assert_eq!(d.valid(), Some(CalendarError::InvalidInput));
        assert_eq!(from_proleptic_julian(&d), Err(CalendarError::InvalidInput));
    }
}

#[test]
fn julian_window_edges() {
    assert_eq!(to_proleptic_julian(JULIAN_MIN_DAY), Ok(date(Era::BC, 4712, 1, 1)));
    assert_eq!(to_proleptic_julian(JULIAN_MIN_DAY - 1), Err(CalendarError::Overflow));
    assert_eq!(to_proleptic_julian(JULIAN_MAX_DAY), Ok(date(Era::AD, u32::MAX, 12, 31)));
    assert_eq!(to_proleptic_julian(JULIAN_MAX_DAY + 1), Err(CalendarError::Overflow));
    assert_eq!(from_proleptic_julian(&date(Era::BC, 4712, 1, 1)), Ok(JULIAN_MIN_DAY));
    assert_eq!(from_proleptic_julian(&date(Era::AD, u32::MAX, 12, 31)), Ok(JULIAN_MAX_DAY));
    assert_eq!(from_proleptic_julian(&date(Era::BC, 4713, 1, 1)), Err(CalendarError::Overflow));
    assert_eq!(from_proleptic_julian(&date(Era::BC, 4712, 12, 31)), Ok(JULIAN_MIN_DAY + 364));
    assert_eq!(from_proleptic_julian(&date(Era::BC, 100, 1, 1)).is_ok(), true);
}

#[test]
fn julian_round_trip_across_the_eras() {
    let start = from_proleptic_julian(&date(Era::BC, 9, 12, 1)).unwrap();
    let mut previous = to_proleptic_julian(start - 1).unwrap();
    for day in start..start + 8000 {
        let d = to_proleptic_julian(day).unwrap();
        assert_eq!(d.valid(), None);
        assert_eq!(from_proleptic_julian(&d), Ok(day));
        if previous.era == d.era {
            let later = if d.era == Era::AD {
                (previous.year, previous.month, previous.day) < (d.year, d.month, d.day)
            } else {
                previous.year > d.year
                    || (previous.year == d.year
                        && (previous.month, previous.day) < (d.month, d.day))
            };
            assert!(later);
        } else {
            assert_eq!((previous.era, d.era), (Era::BC, Era::AD));
        }
        previous = d;
    }
}

#[test]
fn julian_cycle_ends_stay_in_their_year() {
    assert_eq!(julian_year_and_days(1460), (4, 365));
    assert_eq!(julian_year_and_days(1461), (5, 0));
    assert_eq!(julian_year_and_days(1095), (4, 0));
    assert_eq!(julian_year_and_days(0), (1, 0));
    assert_eq!(julian_days_to_year(1), 0);
    assert_eq!(julian_days_to_year(4), 1095);
    assert_eq!(julian_days_to_year(5), 1461);
    assert_eq!(julian_days_to_year(4713), 1178 * 1461);
}

#[test]
fn julian_new_reads_the_fields() {
    let d = JulianCalendar::new(4, String::from("October"), 1582, String::from("AD"));
    assert_eq!(d, Ok(date(Era::AD, 1582, 10, 4)));
    let bc = JulianCalendar::new(15, String::from("March"), 44, String::from("anything"));
    assert_eq!(bc, Ok(date(Era::BC, 44, 3, 15)));
    let unknown = JulianCalendar::new(1, String::from("Nisan"), 44, String::from("AD"));
    assert_eq!(unknown, Err(CalendarError::InvalidInput));
}

#[test]
fn gregorian_to_julian_and_back() {
    for (year, month, day) in [(1582u32, 10u8, 15u8), (2000, 2, 29), (1, 1, 1), (1900, 3, 1)] {
        let g = GregorianCalendar { era: Era::AD, year, month, day };
        let j: JulianCalendar = convert(g).unwrap();
        let back: GregorianCalendar = convert(j).unwrap();
        assert_eq!(back, g);
    }
    let g = GregorianCalendar { era: Era::AD, year: 1582, month: 10, day: 15 };
    assert_eq!(convert::<GregorianCalendar, JulianCalendar>(g), Ok(date(Era::AD, 1582, 10, 5)));
    let first = GregorianCalendar { era: Era::BC, year: 4400, month: 1, day: 1 };
    let j: JulianCalendar = convert(first).unwrap();
    assert_eq!(convert::<JulianCalendar, GregorianCalendar>(j), Ok(first));
    let last = GregorianCalendar { era: Era::AD, year: u32::MAX, month: 12, day: 31 };
    let j: JulianCalendar = convert(last).unwrap();
    assert_eq!(convert::<JulianCalendar, GregorianCalendar>(j), Ok(last));
}

#[test]
fn convert_hands_on_the_first_failure() {
    let invalid = GregorianCalendar { era: Era::AD, year: 1900, month: 2, day: 29 };
    assert_eq!(convert::<GregorianCalendar, JulianCalendar>(invalid), Err(CalendarError::InvalidInput));
    let early = date(Era::BC, 4712, 1, 1);
    assert_eq!(convert::<JulianCalendar, GregorianCalendar>(early), Err(CalendarError::Overflow));
    let late = date(Era::AD, u32::MAX, 12, 31);
    assert_eq!(convert::<JulianCalendar, GregorianCalendar>(late), Err(CalendarError::Overflow));
}
