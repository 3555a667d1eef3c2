use group_motivation_bot::calendar::{today_text, CalendarDay, MAX_YEAR, MIN_YEAR};

fn text_of(year: i32, month: u32, day: u32) -> Option<String> {
    CalendarDay { year, month, day }.format()
}

#[test]
fn formats_a_day_with_leading_zeros() {
    assert_eq!(text_of(2015, 9, 5), Some("2015-09-05".to_string()));
    assert_eq!(text_of(2024, 12, 31), Some("2024-12-31".to_string()));
}

#[test]
fn formats_years_below_a_thousand_in_four_digits() {
    assert_eq!(text_of(0, 1, 1), Some("0000-01-01".to_string()));
    assert_eq!(text_of(7, 3, 9), Some("0007-03-09".to_string()));
    assert_eq!(text_of(999, 10, 10), Some("0999-10-10".to_string()));
}

#[test]
fn formats_years_outside_four_digits_with_a_sign() {
    assert_eq!(text_of(10000, 1, 1), Some("+10000-01-01".to_string()));
    assert_eq!(text_of(-1, 12, 31), Some("-0001-12-31".to_string()));
    assert_eq!(text_of(-12345, 6, 7), Some("-12345-06-07".to_string()));
}

#[test]
fn knows_leap_years() {
    assert_eq!(text_of(2024, 2, 29), Some("2024-02-29".to_string()));
    assert_eq!(text_of(2000, 2, 29), Some("2000-02-29".to_string()));
    assert_eq!(text_of(2023, 2, 29), None);
    assert_eq!(text_of(1900, 2, 29), None);
    assert_eq!(text_of(-4, 2, 29), Some("-0004-02-29".to_string()));
}

#[test]
fn refuses_days_that_do_not_exist() {
    assert_eq!(text_of(2023, 4, 31), None);
    assert_eq!(text_of(2023, 0, 10), None);
    assert_eq!(text_of(2023, 13, 10), None);
    assert_eq!(text_of(2023, 5, 0), None);
    assert_eq!(text_of(2023, 5, 32), None);
}

#[test]
fn holds_the_years_that_chrono_holds() {
    assert_eq!(text_of(MAX_YEAR, 12, 31), Some("+262142-12-31".to_string()));
    assert_eq!(text_of(MAX_YEAR + 1, 1, 1), None);
    assert_eq!(text_of(MIN_YEAR, 1, 1), Some("-262143-01-01".to_string()));
    assert_eq!(text_of(MIN_YEAR - 1, 12, 31), None);
}

fn day(year: i32, month: u32, day: u32) -> Option<CalendarDay> {
    Some(CalendarDay { year, month, day })
}

#[test]
fn finds_the_day_of_a_moment() {
    assert_eq!(CalendarDay::at_unix_time(0, 0), day(1970, 1, 1));
    assert_eq!(CalendarDay::at_unix_time(86_399, 999_999_999), day(1970, 1, 1));
    assert_eq!(CalendarDay::at_unix_time(86_400, 0), day(1970, 1, 2));
    assert_eq!(CalendarDay::at_unix_time(951_782_400, 0), day(2000, 2, 29));
    assert_eq!(CalendarDay::at_unix_time(1_431_648_000, 0), day(2015, 5, 15));
    assert_eq!(CalendarDay::at_unix_time(1_700_000_000, 0), day(2023, 11, 14));
    assert_eq!(CalendarDay::at_unix_time(253_402_300_800, 0), day(10000, 1, 1));
}

#[test]
fn finds_the_day_of_a_moment_before_1970() {
    assert_eq!(CalendarDay::at_unix_time(-1, 0), day(1969, 12, 31));
    assert_eq!(CalendarDay::at_unix_time(-86_400, 0), day(1969, 12, 31));
    assert_eq!(CalendarDay::at_unix_time(-86_401, 0), day(1969, 12, 30));
    assert_eq!(CalendarDay::at_unix_time(-62_167_219_200, 0), day(0, 1, 1));
}

#[test]
fn a_moment_out_of_range_has_no_day() {
    assert_eq!(CalendarDay::at_unix_time(i64::MAX, 0), None);
    assert_eq!(CalendarDay::at_unix_time(i64::MIN, 0), None);
    assert_eq!(CalendarDay::at_unix_time(0, 2_000_000_000), None);
    assert_eq!(CalendarDay::at_unix_time(0, 1_000_000_000), None);
    assert_eq!(CalendarDay::at_unix_time(59, 1_999_999_999), day(1970, 1, 1));
}

#[test]
fn today_is_a_day_of_the_calendar() {
    let today = CalendarDay::today().unwrap();
    assert!(1 <= today.month && today.month <= 12);
    assert!(1 <= today.day && today.day <= 31);
    assert!(today.year >= 1970);
    assert!(today.format().is_some());
}

#[test]
fn today_text_has_the_form_of_a_date() {
    let text = today_text().unwrap();
    let parts: Vec<&str> = text.split('-').collect();
    assert_eq!(parts.len(), 3);
    assert_eq!(parts[0].len(), 4);
    assert_eq!(parts[1].len(), 2);
    assert_eq!(parts[2].len(), 2);
    assert!(text.chars().all(|c| c == '-' || c.is_ascii_digit()));
}
