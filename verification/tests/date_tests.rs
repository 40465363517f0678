use birthdays::date::{days_in_month, epoch_seconds, is_leap_year, parse_date, Date};
use birthdays::error::BirthdayError;
use birthdays::month::{to_month, Month};
use birthdays::person::Person;

#[test]
fn parse_plain_date() {
    let d = parse_date("15-03-1990").unwrap();
    assert_eq!(d, Date { day: 15, month: 3, year: 1990 });
}

#[test]
fn parse_slash_separators() {
    let d = parse_date("15/03/1990").unwrap();
    assert_eq!(d, Date { day: 15, month: 3, year: 1990 });
}

#[test]
fn parse_mixed_separators() {
    let d = parse_date("15/03-1990").unwrap();
    assert_eq!(d, Date { day: 15, month: 3, year: 1990 });
}

#[test]
fn parse_short_fields() {
    assert_eq!(parse_date("1-1-2000").unwrap(), Date { day: 1, month: 1, year: 2000 });
    assert_eq!(parse_date("5-12-1999").unwrap(), Date { day: 5, month: 12, year: 1999 });
    assert_eq!(parse_date("05-3-1990").unwrap(), Date { day: 5, month: 3, year: 1990 });
}

#[test]
fn parse_leap_day() {
    assert_eq!(parse_date("29-02-2000").unwrap(), Date { day: 29, month: 2, year: 2000 });
    assert_eq!(parse_date("29-02-2024").unwrap(), Date { day: 29, month: 2, year: 2024 });
    assert_eq!(parse_date("29-02-1900"), Err(BirthdayError::InvalidDate));
    assert_eq!(parse_date("29-02-2023"), Err(BirthdayError::InvalidDate));
}

#[test]
fn parse_rejects_unreal_dates() {
    assert_eq!(parse_date("32-01-2020"), Err(BirthdayError::InvalidDate));
    assert_eq!(parse_date("31-04-2020"), Err(BirthdayError::InvalidDate));
    assert_eq!(parse_date("15-13-1990"), Err(BirthdayError::InvalidDate));
    assert_eq!(parse_date("0-01-2020"), Err(BirthdayError::InvalidDate));
    assert_eq!(parse_date("15-0-2020"), Err(BirthdayError::InvalidDate));
}

#[test]
fn parse_rejects_malformed_text() {
    assert_eq!(parse_date(""), Err(BirthdayError::InvalidDate));
    assert_eq!(parse_date("birthday"), Err(BirthdayError::InvalidDate));
    assert_eq!(parse_date("15-03-90"), Err(BirthdayError::InvalidDate));
    assert_eq!(parse_date("15-03-19901"), Err(BirthdayError::InvalidDate));
    assert_eq!(parse_date("015-03-1990"), Err(BirthdayError::InvalidDate));
    assert_eq!(parse_date("15_03_1990"), Err(BirthdayError::InvalidDate));
    assert_eq!(parse_date("15--3-1990"), Err(BirthdayError::InvalidDate));
    assert_eq!(parse_date("1990-03-15"), Err(BirthdayError::InvalidDate));
}

#[test]
fn date_new_checks_validity() {
    assert_eq!(Date::new(29, 2, 2000), Some(Date { day: 29, month: 2, year: 2000 }));
    assert_eq!(Date::new(29, 2, 1999), None);
    assert_eq!(Date::new(31, 6, 1999), None);
    assert_eq!(Date::new(15, 3, 10000), None);
}

#[test]
fn leap_year_rule() {
    assert!(is_leap_year(2000));
    assert!(is_leap_year(2024));
    assert!(!is_leap_year(1900));
    assert!(!is_leap_year(2023));
    assert_eq!(days_in_month(2024, 2), 29);
    assert_eq!(days_in_month(2023, 2), 28);
    assert_eq!(days_in_month(2023, 4), 30);
    assert_eq!(days_in_month(2023, 1), 31);
}

#[test]
fn epoch_seconds_known_values() {
    assert_eq!(epoch_seconds(Date { day: 1, month: 1, year: 1970 }), 0);
    assert_eq!(epoch_seconds(Date { day: 2, month: 1, year: 1970 }), 86_400);
    assert_eq!(epoch_seconds(Date { day: 31, month: 12, year: 1969 }), -86_400);
    assert_eq!(epoch_seconds(Date { day: 15, month: 3, year: 1990 }), 637_459_200);
    assert_eq!(epoch_seconds(Date { day: 1, month: 1, year: 2000 }), 946_684_800);
}

#[test]
fn stored_date_int_matches_epoch() {
    let p = Person::new(Date { day: 15, month: 3, year: 1990 }, String::from("Alice"), 1);
    assert_eq!(p.get_date_int(), 637_459_200);
}

#[test]
fn age_in_whole_years() {
    let birth = Date { day: 15, month: 3, year: 1990 };
    let p = Person::new(birth, String::from("Alice"), 1);
    let at_birth = epoch_seconds(birth);
    assert_eq!(p.age(at_birth), 0);
    assert_eq!(p.age(at_birth + 730 * 86_400), 2);
    assert_eq!(p.age(at_birth + 729 * 86_400), 1);
    // A birthday in the future counts backwards, rounding toward zero.
    assert_eq!(p.age(at_birth - 400 * 86_400), -1);
    assert_eq!(p.age(at_birth - 300 * 86_400), 0);
}

#[test]
fn epoch_seconds_agrees_with_chrono() {
    let cases = [
        (1, 1, 1970),
        (31, 12, 1969),
        (15, 3, 1990),
        (29, 2, 2000),
        (28, 2, 1900),
        (1, 3, 1900),
        (31, 12, 9999),
        (1, 1, 1),
        (4, 10, 2024),
    ];
    for (day, month, year) in cases {
        let ours = epoch_seconds(Date { day, month, year });
        let theirs = chrono::NaiveDate::from_ymd_opt(year as i32, month, day)
            .unwrap()
            .and_hms_opt(0, 0, 0)
            .unwrap()
            .and_utc()
            .timestamp();
        assert_eq!(ours, theirs, "at {day}-{month}-{year}");
    }
}

#[test]
fn month_numbers_name_months() {
    assert_eq!(to_month(1), Month::January);
    assert_eq!(to_month(3), Month::March);
    assert_eq!(to_month(12), Month::December);
    assert_eq!(to_month(0), Month::January);
    assert_eq!(to_month(13), Month::January);
    assert_eq!(to_month(1).name(), "January");
    assert_eq!(to_month(3).name(), "March");
    assert_eq!(to_month(9).name(), "September");
}
