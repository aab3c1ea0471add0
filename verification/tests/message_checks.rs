use birthday_service::date::Date;
use birthday_service::user::User;
use birthday_service::utils::get_birthday_message;

#[test]
fn get_birthday_message_today() {
    let today = Date::from_ymd_opt(2020, 2, 28).unwrap();
    let user = User::new("jacob".into(), today, today).unwrap();

    let message = get_birthday_message(today, &user);

    assert_eq!(message.is_ok(), true);
    assert_eq!(message.unwrap(), "Hello, jacob! Happy birthday!");
}

#[test]
fn get_birthday_message_not_today() {
    let today = Date::from_ymd_opt(2020, 2, 28).unwrap();
    let birthday = Date::from_ymd_opt(1990, 1, 12).unwrap();
    let user = User::new("paul".into(), birthday, today).unwrap();

    let message = get_birthday_message(today, &user);

    assert_eq!(message.is_ok(), true);
    assert_eq!(
        message.unwrap(),
        "Hello, paul! Your birthday is in 319 day(s)"
    );
}

#[test]
fn get_birthday_message_single_day() {
    let today = Date::from_ymd_opt(2023, 1, 11).unwrap();
    let birthday = Date::from_ymd_opt(1990, 1, 12).unwrap();
    let user = User::new("ada".into(), birthday, today).unwrap();

    assert_eq!(
        get_birthday_message(today, &user).unwrap(),
        "Hello, ada! Your birthday is in 1 day(s)"
    );
}

#[test]
fn get_birthday_message_three_digit_count() {
    let today = Date::from_ymd_opt(2023, 4, 23).unwrap();
    let birthday = Date::from_ymd_opt(1990, 2, 4).unwrap();
    let user = User::new("grace".into(), birthday, today).unwrap();

    assert_eq!(
        get_birthday_message(today, &user).unwrap(),
        "Hello, grace! Your birthday is in 287 day(s)"
    );
}
