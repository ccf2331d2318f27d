use calendars::cal::Calendar;
use calendars::convert;
use calendars::hebrew::{
    day_and_time, from_hebrew, hebrew_month_and_day, hebrew_month_days, is_leap_year, leap_year, molad_tishrei,
    molad_year, months_before_year, next_postponement, parse_hebrew_month, postponement,
    tishrei_1_julian_day, to_hebrew, HebrewDate, DAY_LENGTH_PARTS, HEBREW_MIN_DAY,
    MOLAD_LENGTH_PARTS, MOLAD_TISHREI_1_PARTS, MOLAD_TISHREI_5758_PARTS,
    NINETEEN_YEAR_CYCLE_MONTHS,
};
use calendars::invalid_year_err::CalendarError;
use calendars::julian_gregorian::{Era, GregorianCalendar, JulianCalendar};
use calendars::GenericDate;

fn date(year: u32, month: u8, day: u8) -> HebrewDate {
    HebrewDate { year, month, day }
}

fn months_in(year: u32) -> u8 {
    if is_leap_year(year) {
        13
    } else {
        12
    }
}

fn new_year(year: u32) -> i128 {
    tishrei_1_julian_day(molad_tishrei(year as u64), year).1
}

fn months_days(year: u32) -> i128 {
    (1..=months_in(year))
        .map(|m| hebrew_month_days(m, is_leap_year(year), next_postponement(year)) as i128)
        .sum()
}

#[test]
fn hebrew_constants() {
    assert_eq!(DAY_LENGTH_PARTS, 25920);
    assert_eq!(MOLAD_LENGTH_PARTS, 765433);
    assert_eq!(NINETEEN_YEAR_CYCLE_MONTHS, 235);
    assert_eq!(MOLAD_TISHREI_5758_PARTS, 63522738129);
    assert_eq!(MOLAD_TISHREI_1_PARTS, 9020081364);
    assert_eq!(HEBREW_MIN_DAY, 347997);
}

#[test]
fn hebrew_leap_years_of_a_cycle() {
    let leap: Vec<u32> = (1..=19).filter(|y| is_leap_year(*y)).collect();
    assert_eq!(leap, vec![3, 6, 8, 11, 14, 17, 19]);
    for first in [1u32, 2, 17, 5758, 100_000] {
        let count = (first..first + 19).filter(|y| is_leap_year(*y)).count();
        assert_eq!(count, 7);
    }
    assert!(is_leap_year(5760));
    assert!(!is_leap_year(5758));
    assert!(is_leap_year(0));
    let beyond = u32::MAX as u64 + 1;
    assert_eq!(beyond % 19, 6);
    assert!(leap_year(beyond));
    assert!(!leap_year(beyond + 1));
}

#[test]
fn hebrew_months_before_a_year() {
    assert_eq!(months_before_year(1), 0);
    assert_eq!(months_before_year(2), 12);
    assert_eq!(months_before_year(3), 24);
    assert_eq!(months_before_year(4), 37);
    assert_eq!(months_before_year(19), 222);
    assert_eq!(months_before_year(20), 235);
    assert_eq!(months_before_year(21), 247);
    assert_eq!(months_before_year(5758), 303 * 235);
    let mut months = 0i128;
    for year in 1..=400u64 {
        assert_eq!(months_before_year(year), months);
        months += if leap_year(year) { 13 } else { 12 };
    }
    assert_eq!(molad_tishrei(1), MOLAD_TISHREI_1_PARTS);
    assert_eq!(molad_tishrei(2), MOLAD_TISHREI_1_PARTS + 12 * 765433);
    assert_eq!(molad_tishrei(5758), MOLAD_TISHREI_5758_PARTS);
}

#[test]
fn hebrew_postponement_rules() {
    // Day 5 is a Sunday: (5 + 2) % 7 == 0.
    let sunday = 5 * 25920;
    let half = 12960;
    assert_eq!(postponement(sunday, false, false), 1);
    assert_eq!(postponement(sunday + 3 * 25920 + 25919, true, true), 1);
    assert_eq!(postponement(sunday + 5 * 25920, false, false), 1);
    // Monday.
    let monday = sunday + 25920;
    assert_eq!(postponement(monday, false, true), 0);
    assert_eq!(postponement(monday + half, false, true), 1);
    assert_eq!(postponement(monday + half + 1, false, false), 1);
    assert_eq!(postponement(monday + 9 * 1080 + 589, false, true), 0);
    assert_eq!(postponement(monday + 9 * 1080 + 590, false, true), 1);
    assert_eq!(postponement(monday + 9 * 1080 + 590, false, false), 0);
    // Tuesday.
    let tuesday = monday + 25920;
    assert_eq!(postponement(tuesday, false, false), 0);
    assert_eq!(postponement(tuesday + 3 * 1080 + 204, false, false), 0);
    assert_eq!(postponement(tuesday + 3 * 1080 + 205, false, false), 2);
    assert_eq!(postponement(tuesday + 3 * 1080 + 205, true, false), 0);
    assert_eq!(postponement(tuesday + half, true, false), 0);
    assert_eq!(postponement(tuesday + half + 1, true, false), 2);
    // Thursday and Saturday.
    let thursday = tuesday + 2 * 25920;
    assert_eq!(postponement(thursday + half, false, false), 0);
    assert_eq!(postponement(thursday + half + 1, false, false), 2);
    let saturday = thursday + 2 * 25920;
    assert_eq!(postponement(saturday + half, false, false), 0);
    assert_eq!(postponement(saturday + half + 1, false, false), 2);
}

#[test]
fn hebrew_days_and_times() {
    assert_eq!(day_and_time(0), (0, 0));
    assert_eq!(day_and_time(25919), (0, 25919));
    assert_eq!(day_and_time(25920), (1, 0));
    assert_eq!(day_and_time(MOLAD_TISHREI_5758_PARTS), (2450722, 23889));
    assert_eq!(day_and_time(-1), (-1, 25919));
    assert_eq!(day_and_time(-25920), (-1, 0));
    assert_eq!(day_and_time(-25921), (-2, 25919));
}

#[test]
fn hebrew_new_year_rule_before_the_start_of_the_scale() {
    // Day -1 is a Monday: a molad after half the day moves the new year by a
    // day.
    assert_eq!(tishrei_1_julian_day(-1, 1), (1, 0));
    // Day -3 is a Saturday.
    assert_eq!(tishrei_1_julian_day(-3 * 25920, 1), (0, -3));
    assert_eq!(tishrei_1_julian_day(-3 * 25920 + 12961, 1), (2, -1));
    // Day -2 is a Sunday.
    assert_eq!(tishrei_1_julian_day(-2 * 25920, 0), (1, -1));
    assert_eq!(next_postponement(0), 1);
}

#[test]
fn hebrew_new_year_of_5758() {
    assert_eq!(tishrei_1_julian_day(MOLAD_TISHREI_5758_PARTS, 5758), (1, 2450723));
    assert_eq!(tishrei_1_julian_day(MOLAD_TISHREI_1_PARTS, 1), (1, 347997));
    assert_eq!(tishrei_1_julian_day(molad_tishrei(5707), 5707), (0, 2432089));
    assert_eq!(tishrei_1_julian_day(molad_tishrei(5765), 5765), (2, 2453264));
    assert_eq!(next_postponement(5757), 1);
    assert_eq!(next_postponement(5764), 2);
    assert_eq!(next_postponement(5706), 0);
}

#[test]
fn hebrew_new_year_is_never_sunday_wednesday_or_friday() {
    for year in 1..=20_000u32 {
        let (postponement, day) = tishrei_1_julian_day(molad_tishrei(year as u64), year);
        assert!((0..=2).contains(&postponement));
        let weekday = (day + 2) % 7;
        assert!(weekday != 0 && weekday != 3 && weekday != 5);
    }
    let (_, last) = tishrei_1_julian_day(molad_tishrei(u32::MAX as u64), u32::MAX);
    assert!(![0, 3, 5].contains(&((last + 2) % 7)));
}

#[test]
fn hebrew_year_lengths() {
    let mut start = new_year(1);
    for year in 1..=20_000u32 {
        let next = new_year(year + 1);
        let length = next - start;
        if is_leap_year(year) {
            assert!((383..=385).contains(&length));
            assert_eq!(months_days(year), 383 + next_postponement(year));
        } else {
            assert!((353..=355).contains(&length));
            assert_eq!(months_days(year), 353 + next_postponement(year));
        }
        assert!((months_days(year) - length).abs() <= 1);
        start = next;
    }
    assert_eq!(new_year(5759) - new_year(5758), 354);
    assert_eq!(new_year(5761) - new_year(5760), 385);
    assert_eq!(new_year(5766) - new_year(5765), 383);
}

#[test]
fn hebrew_month_lengths() {
    let common = [30u8, 29, 29, 29, 30, 29, 30, 29, 30, 29, 30, 29];
    let leap = [30u8, 29, 29, 29, 30, 30, 29, 30, 29, 30, 29, 30, 29];
    for month in 1..=12u8 {
        let base = common[month as usize - 1];
        assert_eq!(hebrew_month_days(month, false, 0), base);
        assert_eq!(hebrew_month_days(month, false, 1), base + if month == 3 { 1 } else { 0 });
        assert_eq!(
            hebrew_month_days(month, false, 2),
            base + if month == 2 || month == 3 { 1 } else { 0 }
        );
    }
    for month in 1..=13u8 {
        let base = leap[month as usize - 1];
        assert_eq!(hebrew_month_days(month, true, 0), base);
        assert_eq!(hebrew_month_days(month, true, 1), base + if month == 3 { 1 } else { 0 });
        assert_eq!(
            hebrew_month_days(month, true, 2),
            base + if month == 2 || month == 3 { 1 } else { 0 }
        );
    }
    assert_eq!(hebrew_month_and_day(0, false, 0), Some((1, 1)));
    assert_eq!(hebrew_month_and_day(29, false, 0), Some((1, 30)));
    assert_eq!(hebrew_month_and_day(30, false, 0), Some((2, 1)));
    assert_eq!(hebrew_month_and_day(59, false, 2), Some((2, 30)));
    assert_eq!(hebrew_month_and_day(59, false, 1), Some((3, 1)));
    assert_eq!(hebrew_month_and_day(352, false, 0), Some((12, 29)));
    assert_eq!(hebrew_month_and_day(353, false, 0), None);
    assert_eq!(hebrew_month_and_day(353, false, 1), Some((12, 29)));
    assert_eq!(hebrew_month_and_day(384, true, 2), Some((13, 29)));
    assert_eq!(hebrew_month_and_day(385, true, 2), None);
}

#[test]
fn hebrew_first_day() {
    assert_eq!(from_hebrew(&date(1, 1, 1)), Ok(HEBREW_MIN_DAY));
    assert_eq!(to_hebrew(HEBREW_MIN_DAY), Ok(date(1, 1, 1)));
    assert_eq!(to_hebrew(HEBREW_MIN_DAY + 1), Ok(date(1, 1, 2)));
    assert_eq!(to_hebrew(HEBREW_MIN_DAY - 1), Err(CalendarError::Overflow));
    assert_eq!(to_hebrew(0), Err(CalendarError::Overflow));
    assert_eq!(to_hebrew(-1), Err(CalendarError::Overflow));
    assert_eq!(to_hebrew(i128::MIN), Err(CalendarError::Overflow));
}

#[test]
fn hebrew_last_years() {
    assert_eq!(to_hebrew(i128::MAX), Err(CalendarError::Overflow));
    assert_eq!(to_hebrew(i128::MAX / 25920 + 1), Err(CalendarError::Overflow));
    assert_eq!(to_hebrew(i128::MAX / 25920), Err(CalendarError::Overflow));
    let first = from_hebrew(&date(u32::MAX, 1, 2)).unwrap();
    assert_eq!(to_hebrew(first), Ok(date(u32::MAX, 1, 2)));
    let beyond = molad_tishrei(u32::MAX as u64 + 1) / 25920 + 1;
    assert_eq!(to_hebrew(beyond), Err(CalendarError::Overflow));
    assert_eq!(molad_year(molad_tishrei(u32::MAX as u64 + 1)).0, u32::MAX as i128 + 1);
    assert_eq!(molad_year(molad_tishrei(u32::MAX as u64 + 1) - 1).0, u32::MAX as i128);
}

#[test]
fn hebrew_molad_years() {
    assert_eq!(molad_year(MOLAD_TISHREI_1_PARTS), (1, MOLAD_TISHREI_1_PARTS));
    assert_eq!(molad_year(MOLAD_TISHREI_1_PARTS + 12 * 765433 - 1), (1, MOLAD_TISHREI_1_PARTS));
    assert_eq!(molad_year(MOLAD_TISHREI_1_PARTS + 12 * 765433).0, 2);
    assert_eq!(molad_year(MOLAD_TISHREI_5758_PARTS), (5758, MOLAD_TISHREI_5758_PARTS));
    assert_eq!(molad_year(MOLAD_TISHREI_5758_PARTS - 1).0, 5757);
    for year in 1..=60u64 {
        assert_eq!(molad_year(molad_tishrei(year)), (year as i128, molad_tishrei(year)));
    }
}

#[test]
fn hebrew_invalid_fields() {
    for d in [
        date(5758, 13, 1),
        date(5758, 14, 1),
        date(5760, 14, 1),
        date(5758, 0, 1),
        date(5758, 1, 0),
        date(0, 1, 1),
        date(5758, 1, 31),
        date(5758, 2, 30),
        date(5758, 12, 30),
        date(5765, 2, 30),
    ] {
        assert_eq!(from_hebrew(&d), Err(CalendarError::InvalidInput));
    }
    assert!(from_hebrew(&date(5760, 13, 29)).is_ok());
    assert!(from_hebrew(&date(5760, 2, 30)).is_ok());
    assert!(from_hebrew(&date(5759, 3, 30)).is_ok());
    assert_eq!(from_hebrew(&date(5759, 2, 30)), Err(CalendarError::InvalidInput));
}

#[test]
fn hebrew_dates_of_5758_come_back() {
    // The new year of 5758 is put off, so every day of the year starts after
    // its molad, and no day of its months starts after the molad of 5759.
    let mut expected = new_year(5758);
    for month in 1..=12u8 {
        for day in 1..=hebrew_month_days(month, false, next_postponement(5758)) {
            let d = date(5758, month, day);
            assert_eq!(from_hebrew(&d), Ok(expected));
            assert_eq!(to_hebrew(expected), Ok(d));
            expected += 1;
        }
    }
    // The months of 5758 hold 353 days, one fewer than lie between its new
    // year and the next: the day after them has no date.
    assert_eq!(expected + 1, new_year(5759));
    assert_eq!(to_hebrew(expected), Err(CalendarError::Overflow));
}

#[test]
fn hebrew_new_year_on_the_day_of_its_molad_does_not_come_back() {
    // The new year of 5707 is not put off: its day starts before the molad,
    // and counts as a day after the last month of 5706.
    let d = date(5707, 1, 1);
    assert_eq!(from_hebrew(&d), Ok(2432089));
    assert_eq!(to_hebrew(2432089), Err(CalendarError::Overflow));
    assert_eq!(to_hebrew(2432090), Ok(date(5707, 1, 2)));
    assert_eq!(to_hebrew(2432088), Ok(date(5706, 13, 29)));
}

#[test]
fn hebrew_year_with_a_day_too_many_does_not_come_back() {
    // The months of 5718 hold 355 days, one more than lie between its new
    // year and the next.
    assert_eq!(months_days(5718), 355);
    assert_eq!(new_year(5719) - new_year(5718), 354);
    assert_eq!(from_hebrew(&date(5718, 12, 28)), Ok(2436460));
    assert_eq!(to_hebrew(2436460), Ok(date(5718, 12, 29)));
    assert_eq!(from_hebrew(&date(5718, 12, 27)), Ok(2436459));
    assert_eq!(to_hebrew(2436459), Ok(date(5718, 12, 27)));
    // Its last day has the number of the next new year.
    assert_eq!(from_hebrew(&date(5718, 12, 29)), Ok(2436461));
    assert_eq!(from_hebrew(&date(5719, 1, 1)), Ok(2436461));
    assert_eq!(to_hebrew(2436461), Ok(date(5719, 1, 1)));
    assert_eq!(from_hebrew(&date(5703, 13, 29)), from_hebrew(&date(5704, 1, 1)));
}

#[test]
fn hebrew_round_trips_where_the_year_fits() {
    let mut came_back = 0u32;
    let mut did_not = 0u32;
    for year in 5700..5800u32 {
        let start = new_year(year);
        let next = new_year(year + 1);
        let fits = months_days(year) == next - start;
        let put_off = tishrei_1_julian_day(molad_tishrei(year as u64), year).0 > 0;
        let next_molad = molad_tishrei(year as u64 + 1);
        for month in 1..=months_in(year) {
            let length = hebrew_month_days(month, is_leap_year(year), next_postponement(year));
            for day in 1..=length {
                let d = date(year, month, day);
                let number = from_hebrew(&d).unwrap();
                let before_molad = number * 25920 < molad_tishrei(year as u64);
                let after_next = number * 25920 >= next_molad;
                let expected = !before_molad && (!after_next || fits);
                assert_eq!(to_hebrew(number) == Ok(d), expected);
                assert_eq!(before_molad, !put_off && month == 1 && day == 1);
                if expected {
                    came_back += 1;
                } else {
                    did_not += 1;
                }
            }
        }
    }
    assert_eq!((came_back, did_not), (36465, 45));
}

#[test]
fn hebrew_earlier_dates_have_smaller_day_numbers_but_at_some_year_ends() {
    let mut previous: Option<(HebrewDate, i128)> = None;
    let mut collisions = 0u32;
    for year in 5700..5800u32 {
        for month in 1..=months_in(year) {
            let length = hebrew_month_days(month, is_leap_year(year), next_postponement(year));
            for day in 1..=length {
                let d = date(year, month, day);
                let number = from_hebrew(&d).unwrap();
                if let Some((before, before_number)) = previous {
                    let collide = d.year == before.year + 1
                        && (d.month, d.day) == (1, 1)
                        && months_days(before.year)
                            == new_year(before.year + 1) - new_year(before.year) + 1;
                    assert!(before_number <= number);
                    assert_eq!(before_number == number, collide);
                    if collide {
                        assert_eq!((before.month, before.day), (months_in(before.year), 29));
                        collisions += 1;
                    }
                }
                previous = Some((d, number));
            }
        }
    }
    assert_eq!(collisions, 16);
}

#[test]
fn hebrew_days_and_their_dates() {
    let first = new_year(5700);
    let last = new_year(5800);
    let mut counts = (0u32, 0u32, 0u32);
    for day in first..last {
        let (year, molad) = molad_year(day * 25920);
        let year = year as u32;
        let start = tishrei_1_julian_day(molad, year).1;
        match to_hebrew(day) {
            Ok(d) => {
                let back = from_hebrew(&d).unwrap();
                let fits_before =
                    months_days(year - 1) == new_year(year) - new_year(year - 1);
                assert_eq!(back == day, start <= day || fits_before);
                if back == day {
                    counts.0 += 1;
                } else {
                    counts.1 += 1;
                }
            }
            Err(e) => {
                assert_eq!(e, CalendarError::Overflow);
                assert!(day - start >= months_days(year));
                counts.2 += 1;
            }
        }
    }
    assert_eq!(counts, (36465, 4, 61));
}

#[test]
fn hebrew_month_names() {
    let names = [
        "Tishrei", "Cheshvan", "Kislev", "Tevet", "Shevat", "Adar/Adar II", "Nisan", "Iyar",
        "Sivan", "Tammuz", "Av", "Elul",
    ];
    for (i, name) in names.iter().enumerate() {
        let number = i as u8 + 1;
        assert_eq!(parse_hebrew_month(name, false), Some(number));
        assert_eq!(parse_hebrew_month(name, true), Some(if number >= 6 { number + 1 } else { number }));
    }
    assert_eq!(parse_hebrew_month("Chesvan", false), Some(2));
    assert_eq!(parse_hebrew_month("Chesvan", true), Some(2));
    assert_eq!(parse_hebrew_month("Adar I", true), Some(6));
    assert_eq!(parse_hebrew_month("Adar I", false), None);
    assert_eq!(parse_hebrew_month("Adar", false), None);
    assert_eq!(parse_hebrew_month("", true), None);
}

#[test]
fn hebrew_new_reads_the_fields() {
    let d = HebrewDate::new(1, String::from("Tishrei"), 5758, String::from("AD"));
    assert_eq!(d, Ok(date(5758, 1, 1)));
    let elul = HebrewDate::new(29, String::from("Elul"), 5760, String::new());
    assert_eq!(elul, Ok(date(5760, 13, 29)));
    let elul = HebrewDate::new(29, String::from("Elul"), 5758, String::new());
    assert_eq!(elul, Ok(date(5758, 12, 29)));
    let adar = HebrewDate::new(1, String::from("Adar I"), 5758, String::new());
    assert_eq!(adar, Err(CalendarError::InvalidInput));
    let unknown = HebrewDate::new(1, String::from("March"), 5758, String::new());
    assert_eq!(unknown, Err(CalendarError::InvalidInput));
    let wide = HebrewDate::new(300, String::from("Elul"), 5758, String::new());
    assert_eq!(wide, Err(CalendarError::InvalidInput));
    let negative = HebrewDate::new(1, String::from("Elul"), -1, String::new());
    assert_eq!(negative, Err(CalendarError::InvalidInput));
    // Whether the date exists is found out on conversion.
    let day_30 = HebrewDate::new(30, String::from("Elul"), 5758, String::new()).unwrap();
    assert_eq!(day_30.to_julian_day(), Err(CalendarError::InvalidInput));
}

#[test]
fn hebrew_month_name_codes() {
    let code = |d: HebrewDate| GenericDate::from(d).get_month_name();
    for month in 1..=12u8 {
        assert_eq!(code(date(5758, month, 1)), month);
    }
    let leap = [1u8, 2, 3, 4, 5, 13, 14, 7, 8, 9, 10, 11, 12];
    for month in 1..=13u8 {
        assert_eq!(code(date(5760, month, 1)), leap[month as usize - 1]);
    }
    let r = GenericDate::from(date(5760, 7, 8));
    assert_eq!(
        r,
        GenericDate {
            is_valid: true,
            is_not_overflow: true,
            era: false,
            year: 5760,
            month_name: 14,
            day: 8
        }
    );
}

#[test]
fn gregorian_to_hebrew_and_back() {
    let g = GregorianCalendar { era: Era::AD, year: 2000, month: 1, day: 1 };
    let h: HebrewDate = convert(g).unwrap();
    assert_eq!(h, date(5760, 4, 23));
    assert_eq!(convert::<HebrewDate, GregorianCalendar>(h), Ok(g));
    // 26 September 1946 has the day number of 1 Tishrei 5707, which has no
    // Hebrew date.
    let g = GregorianCalendar { era: Era::AD, year: 1946, month: 9, day: 26 };
    assert_eq!(g.to_julian_day(), Ok(2432089));
    assert_eq!(convert::<GregorianCalendar, HebrewDate>(g), Err(CalendarError::Overflow));
    // The day before the new year of 5719 comes back a day later.
    let g = GregorianCalendar::from_julian_day(2436460).unwrap();
    let h: HebrewDate = convert(g).unwrap();
    assert_eq!(h, date(5718, 12, 29));
    let back: GregorianCalendar = convert(h).unwrap();
    assert_eq!(back.to_julian_day(), Ok(2436461));
}

#[test]
fn julian_to_hebrew_and_back() {
    let j = JulianCalendar { era: Era::AD, year: 1997, month: 9, day: 19 };
    let h: HebrewDate = convert(j).unwrap();
    assert_eq!(h, date(5758, 1, 1));
    assert_eq!(convert::<HebrewDate, JulianCalendar>(h), Ok(j));
    let early = JulianCalendar { era: Era::BC, year: 4000, month: 1, day: 1 };
    assert_eq!(convert::<JulianCalendar, HebrewDate>(early), Err(CalendarError::Overflow));
}

#[test]
fn hebrew_trait_methods_are_the_codec() {
    assert_eq!(date(5758, 1, 1).to_julian_day(), Ok(2450723));
    assert_eq!(HebrewDate::from_julian_day(2450723), Ok(date(5758, 1, 1)));
    assert_eq!(HebrewDate::from_julian_day(1), Err(CalendarError::Overflow));
}
