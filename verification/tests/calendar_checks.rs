use birthday_service::date::{Date, MAX_YEAR};
use birthday_service::errors::AppError;
use birthday_service::utils::days_until_next_birthday;

#[test]
fn birthday_is_today_exactly() {
    let today = Date::from_ymd_opt(1990, 1, 12).unwrap();
    let birthday = Date::from_ymd_opt(1990, 1, 12).unwrap();
    let result = days_until_next_birthday(today, &birthday).unwrap();

    assert_eq!(result, 0);
}

#[test]
fn birthday_is_today_different_year() {
    let today = Date::from_ymd_opt(2023, 1, 12).unwrap();
    let birthday = Date::from_ymd_opt(1990, 1, 12).unwrap();
    let result = days_until_next_birthday(today, &birthday).unwrap();

    assert_eq!(result, 0);
}

#[test]
fn birthday_is_yet_to_come_this_year() {
    let today = Date::from_ymd_opt(2023, 1, 12).unwrap();
    let birthday = Date::from_ymd_opt(1990, 6, 13).unwrap();
    let result = days_until_next_birthday(today, &birthday).unwrap();

    assert_eq!(result, 152);
}

#[test]
fn birthday_has_already_passed_this_year() {
    let today = Date::from_ymd_opt(2023, 4, 23).unwrap();
    let birthday = Date::from_ymd_opt(1990, 2, 4).unwrap();
    let result = days_until_next_birthday(today, &birthday).unwrap();

    assert_eq!(result, 287);
}

#[test]
fn birthday_is_a_leap_day() {
    // Note: birthdays on leap days are considered to be the next valid day
    let today = Date::from_ymd_opt(2023, 2, 28).unwrap();
    let birthday = Date::from_ymd_opt(1992, 2, 29).unwrap();
    let result = days_until_next_birthday(today, &birthday).unwrap();

    assert_eq!(result, 1);
}

#[test]
fn leap_day_lands_on_march_first_next_year() {
    // the day-of-year already passed, and the next year has no February 29
    let today = Date::from_ymd_opt(2024, 3, 1).unwrap();
    let birthday = Date::from_ymd_opt(1992, 2, 29).unwrap();
    let result = days_until_next_birthday(today, &birthday).unwrap();

    assert_eq!(result, 365);
}

#[test]
fn year_boundary_day_count() {
    // December 31 to January 12 of the next (leap) year
    let today = Date::from_ymd_opt(2023, 12, 31).unwrap();
    let birthday = Date::from_ymd_opt(1990, 1, 12).unwrap();
    let result = days_until_next_birthday(today, &birthday).unwrap();

    assert_eq!(result, 12);
}

#[test]
fn passed_birthday_at_last_supported_year_overflows() {
    let today = Date::from_ymd_opt(MAX_YEAR, 6, 1).unwrap();
    let birthday = Date::from_ymd_opt(1990, 1, 12).unwrap();
    let result = days_until_next_birthday(today, &birthday);

    assert_eq!(
        result.unwrap_err(),
        AppError::Other("Date arithmetic overflow".into())
    );
}

#[test]
fn ordinal_ranked_in_todays_leap_year() {
    // March 1 is day 60 of non-leap 2023 but day 61 of leap 2024: the
    // birthday must be ranked in today's year, so the wait is 51, not 50
    let today = Date::from_ymd_opt(2024, 1, 10).unwrap();
    let birthday = Date::from_ymd_opt(2023, 3, 1).unwrap();
    let result = days_until_next_birthday(today, &birthday).unwrap();

    assert_eq!(result, 51);
}

#[test]
fn ordinal_ranked_in_todays_non_leap_year() {
    // in today's year 2023, March 1 is day 60, already behind day 61
    // (March 2): a birth-year ordinal (61 in leap 2020) would say "today"
    let today = Date::from_ymd_opt(2023, 3, 2).unwrap();
    let birthday = Date::from_ymd_opt(2020, 3, 1).unwrap();
    let result = days_until_next_birthday(today, &birthday).unwrap();

    assert_eq!(result, 365);
}

#[test]
fn birthday_on_the_day_across_leap_skew() {
    // born March 1 of non-leap 2023, queried on March 1 of leap 2024
    let today = Date::from_ymd_opt(2024, 3, 1).unwrap();
    let birthday = Date::from_ymd_opt(2023, 3, 1).unwrap();
    let result = days_until_next_birthday(today, &birthday).unwrap();

    assert_eq!(result, 0);
}

#[test]
fn invalid_dates_are_rejected() {
    assert!(Date::from_ymd_opt(2023, 2, 29).is_none());
    assert!(Date::from_ymd_opt(2024, 2, 29).is_some());
    assert!(Date::from_ymd_opt(2023, 13, 1).is_none());
    assert!(Date::from_ymd_opt(2023, 0, 1).is_none());
    assert!(Date::from_ymd_opt(2023, 4, 31).is_none());
    assert!(Date::from_ymd_opt(2023, 12, 0).is_none());
}
