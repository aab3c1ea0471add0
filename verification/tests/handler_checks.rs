use std::collections::HashMap;

use birthday_service::config::Config;
use birthday_service::date::Date;
use birthday_service::errors::AppError;
use birthday_service::handlers::{get_user, healthz, resolve_retrieved, submit_birthday};
use birthday_service::user::PutUserBody;

#[test]
fn put_then_get_on_the_same_day() {
    let today = Date::from_ymd_opt(2023, 4, 23).unwrap();
    let body = PutUserBody { birthday: today };

    let stored = submit_birthday("jacob".into(), body, today).unwrap();

    let reply = get_user(Ok(stored), today).unwrap();
    assert_eq!(reply, "Hello, jacob! Happy birthday!");
}

#[test]
fn get_unknown_name_is_not_found() {
    let today = Date::from_ymd_opt(2023, 4, 23).unwrap();

    let reply = get_user(Err(AppError::NotFound), today);

    let err = reply.unwrap_err();
    assert_eq!(err, AppError::NotFound);
    assert_eq!(err.status_code(), 404);
    assert_eq!(err.client_message(), "not found");
}

#[test]
fn put_with_invalid_name_is_bad_request() {
    let today = Date::from_ymd_opt(2023, 4, 23).unwrap();
    let body = PutUserBody { birthday: today };

    let err = submit_birthday("dy1an".into(), body, today).unwrap_err();
    assert_eq!(err.status_code(), 400);
    assert_eq!(err.client_message(), "Invalid name, only letters allowed.");
}

#[test]
fn put_with_future_birthday_is_bad_request() {
    let today = Date::from_ymd_opt(2023, 4, 23).unwrap();
    let tomorrow = Date::from_ymd_opt(2023, 4, 24).unwrap();
    let body = PutUserBody { birthday: tomorrow };

    let err = submit_birthday("dylan".into(), body, today).unwrap_err();
    assert_eq!(err.status_code(), 400);
    assert_eq!(err.client_message(), "Provided birthday is in the future!");
}

#[test]
fn identical_puts_are_idempotent() {
    let today = Date::from_ymd_opt(2023, 4, 23).unwrap();
    let birthday = Date::from_ymd_opt(1990, 2, 4).unwrap();

    let first = submit_birthday("dylan".into(), PutUserBody { birthday }, today).unwrap();
    let second = submit_birthday("dylan".into(), PutUserBody { birthday }, today).unwrap();
    assert_eq!(first, second);

    let mut store: HashMap<String, Date> = HashMap::new();
    store.insert(first.name().to_string(), *first.birthday());
    let after_one = store.clone();
    store.insert(second.name().to_string(), *second.birthday());
    assert_eq!(store, after_one);
}

#[test]
fn resolve_absent_document_is_not_found() {
    let today = Date::from_ymd_opt(2023, 4, 23).unwrap();
    assert_eq!(resolve_retrieved(None, today).unwrap_err(), AppError::NotFound);
}

#[test]
fn resolve_stored_document_rebuilds_user() {
    let today = Date::from_ymd_opt(2023, 4, 23).unwrap();
    let birthday = Date::from_ymd_opt(1990, 2, 4).unwrap();

    let user = resolve_retrieved(Some(("dylan".into(), birthday)), today).unwrap();
    assert_eq!(user.name(), "dylan");
    assert_eq!(*user.birthday(), birthday);
}

#[test]
fn resolve_corrupt_document_is_opaque_failure() {
    let today = Date::from_ymd_opt(2023, 4, 23).unwrap();
    let future = Date::from_ymd_opt(2024, 1, 1).unwrap();

    let err = resolve_retrieved(Some(("dylan".into(), future)), today).unwrap_err();
    assert_eq!(err.status_code(), 500);
    assert_eq!(err.client_message(), "Something went wrong!");
}

#[test]
fn healthz_always_succeeds() {
    assert_eq!(healthz(), 200);
}

#[test]
fn store_errors_stay_opaque_to_clients() {
    let err = AppError::from_store_error("connection reset by the store".into());
    assert_eq!(err.status_code(), 500);
    assert_eq!(err.client_message(), "Something went wrong!");
}

#[test]
fn config_clones_whole() {
    let config = Config { port: 8000, firestore_project: "demo".into() };
    let copy = config.clone();
    assert_eq!(copy.port, 8000);
    assert_eq!(copy.firestore_project, "demo");
}
