use effitask::date::Date;
use effitask::period::Period;
use effitask::recurrence::Recurrence;

fn ymd(y: i32, m: u32, d: u32) -> Date {
    Date::from_ymd(y, m, d).unwrap()
}

#[test]
fn add_year() {
    let current = Period::Year.add(ymd(1999, 1, 1));
    let expected = ymd(2000, 1, 1);

    assert_eq!(current, expected);
}

#[test]
fn add_month() {
    let current = Period::Month.add(ymd(1999, 1, 1));
    let expected = ymd(1999, 2, 1);

    assert_eq!(current, expected);
}

#[test]
fn add_month_extra() {
    let current = Period::Month.add(ymd(1999, 12, 1));
    let expected = ymd(2000, 1, 1);

    assert_eq!(current, expected);
}

#[test]
fn add_week() {
    let current = Period::Week.add(ymd(1999, 1, 1));
    let expected = ymd(1999, 1, 8);

    assert_eq!(current, expected);
}

#[test]
fn add_day() {
    let current = Period::Day.add(ymd(1999, 1, 1));
    let expected = ymd(1999, 1, 2);

    assert_eq!(current, expected);
}

#[test]
fn add_day_extra() {
    let current = Period::Day.add(ymd(1999, 1, 31));
    let expected = ymd(1999, 2, 1);

    assert_eq!(current, expected);

    let current = Period::Day.add(ymd(1999, 4, 30));
    let expected = ymd(1999, 5, 1);

    assert_eq!(current, expected);

    let current = Period::Day.add(ymd(1999, 2, 28));
    let expected = ymd(1999, 3, 1);

    assert_eq!(current, expected);

    let current = Period::Day.add(ymd(2000, 2, 28));
    let expected = ymd(2000, 2, 29);

    assert_eq!(current, expected);

    let current = Period::Day.add(ymd(2000, 2, 29));
    let expected = ymd(2000, 3, 1);

    assert_eq!(current, expected);
}

#[test]
fn add_month_to_month_end_rolls_over() {
    assert_eq!(Period::Month.add(ymd(1999, 1, 31)), ymd(1999, 3, 3));
    assert_eq!(Period::Month.add(ymd(2000, 1, 31)), ymd(2000, 3, 2));
    assert_eq!(Period::Month.add(ymd(1999, 12, 31)), ymd(2000, 1, 31));
}

#[test]
fn add_year_from_leap_day() {
    assert_eq!(Period::Year.add(ymd(2000, 2, 29)), ymd(2001, 3, 1));
    assert_eq!(Period::Year.add(ymd(1999, 12, 31)), ymd(2000, 12, 31));
}

#[test]
fn add_week_across_year_end() {
    assert_eq!(Period::Week.add(ymd(1999, 12, 28)), ymd(2000, 1, 4));
}

#[test]
fn leap_years() {
    assert!(Period::is_leap_year(2000));
    assert!(Period::is_leap_year(2024));
    assert!(!Period::is_leap_year(1900));
    assert!(!Period::is_leap_year(2023));
}

#[test]
fn dates_must_exist() {
    assert!(Date::from_ymd(2023, 2, 29).is_none());
    assert!(Date::from_ymd(2024, 2, 29).is_some());
    assert!(Date::from_ymd(2024, 4, 31).is_none());
    assert!(Date::from_ymd(2024, 13, 1).is_none());
    assert!(Date::from_ymd(2024, 1, 0).is_none());
    assert!(Date::from_ymd(400000, 1, 1).is_none());
}

#[test]
fn period_text() {
    assert_eq!(Period::from_str("d"), Ok(Period::Day));
    assert_eq!(Period::from_str("w"), Ok(Period::Week));
    assert_eq!(Period::from_str("m"), Ok(Period::Month));
    assert_eq!(Period::from_str("y"), Ok(Period::Year));
    assert_eq!(Period::from_str("x"), Err(()));
    assert_eq!(Period::from_str("dd"), Err(()));
    assert_eq!(Period::Month.to_text(), "m");
}

#[test]
fn recurrence_parse() {
    let r = Recurrence::from_str("3m").unwrap();
    assert_eq!(r, Recurrence { num: 3, period: Period::Month, strict: false });

    let r = Recurrence::from_str("+1y").unwrap();
    assert_eq!(r, Recurrence { num: 1, period: Period::Year, strict: true });

    let r = Recurrence::from_str("12d").unwrap();
    assert_eq!(r.num, 12);

    assert!(Recurrence::from_str("").is_err());
    assert!(Recurrence::from_str("m").is_err());
    assert!(Recurrence::from_str("+m").is_err());
    assert!(Recurrence::from_str("3").is_err());
    assert!(Recurrence::from_str("3x").is_err());
    assert!(Recurrence::from_str("a3m").is_err());
    assert!(Recurrence::from_str("99999999999999999999d").is_err());
}

#[test]
fn recurrence_text_round_trip() {
    for text in ["3m", "+1y", "10d", "+0w"] {
        let r = Recurrence::from_str(text).unwrap();
        assert_eq!(r.to_text(), text);
        assert_eq!(Recurrence::from_str(&r.to_text()), Ok(r));
    }
}

#[test]
fn recurrence_add_repeats_single_steps() {
    let r = Recurrence::from_str("2m").unwrap();
    assert_eq!(r.add(ymd(1999, 1, 31)), ymd(1999, 4, 3));

    let r = Recurrence::from_str("3d").unwrap();
    assert_eq!(r.add(ymd(1999, 12, 30)), ymd(2000, 1, 2));

    let r = Recurrence::from_str("0w").unwrap();
    assert_eq!(r.add(ymd(1999, 12, 30)), ymd(1999, 12, 30));
}

#[test]
fn recurrence_checked_add_at_calendar_end() {
    let r = Recurrence::from_str("1y").unwrap();
    assert_eq!(r.checked_add(ymd(262141, 3, 1)), Some(ymd(262142, 3, 1)));
    assert_eq!(r.checked_add(ymd(262142, 3, 1)), None);

    let r = Recurrence::from_str("3d").unwrap();
    assert_eq!(r.checked_add(ymd(262142, 12, 1)), None);
    assert_eq!(r.checked_add(ymd(262141, 12, 30)), None);
    assert_eq!(r.checked_add(ymd(1999, 12, 30)), Some(ymd(2000, 1, 2)));
}
