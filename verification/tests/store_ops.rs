use birthday::date::Date;
use birthday::store::{validate, CreateUserSchema, ServiceError, UserStore};

fn date(y: u32, m: u32, d: u32) -> Date {
    Date::new(y, m, d).unwrap()
}

fn body(s: &str) -> CreateUserSchema {
    CreateUserSchema { date_of_birth: String::from(s) }
}

#[test]
fn upsert_then_read_succeeds() {
    let mut store = UserStore::new();
    let today = date(2024, 12, 30);
    assert!(store.upsert("alice", &body("1993-01-05"), &today).is_ok());
    let msg = store.read_user("alice", &today).unwrap();
    assert_eq!(msg, "Hello, alice! Your birthday is in 6 day(s)");
}

#[test]
fn upsert_is_idempotent() {
    let mut store = UserStore::new();
    let today = date(2024, 6, 1);
    assert!(store.upsert("bob", &body("1990-03-15"), &today).is_ok());
    assert!(store.upsert("bob", &body("1990-03-15"), &today).is_ok());
    assert_eq!(store.count(), 1);
}

#[test]
fn upsert_updates_in_place() {
    let mut store = UserStore::new();
    let today = date(2024, 6, 1);
    assert!(store.upsert("carol", &body("1990-03-15"), &today).is_ok());
    assert!(store.upsert("carol", &body("1985-06-01"), &today).is_ok());
    assert_eq!(store.count(), 1);
    let rec = store.lookup("carol").unwrap();
    assert_eq!(rec.username, "carol");
    assert_eq!(rec.date_of_birth, "1985-06-01");
}

#[test]
fn invalid_username_is_rejected_and_nothing_stored() {
    let mut store = UserStore::new();
    let today = date(2024, 6, 1);
    assert_eq!(
        store.upsert("alice7", &body("1990-03-15"), &today),
        Err(ServiceError::InvalidUsername)
    );
    assert_eq!(
        store.upsert("al ice", &body("1990-03-15"), &today),
        Err(ServiceError::InvalidUsername)
    );
    assert_eq!(store.upsert("", &body("1990-03-15"), &today), Err(ServiceError::InvalidUsername));
    assert_eq!(store.count(), 0);
}

#[test]
fn unparseable_date_is_rejected() {
    let mut store = UserStore::new();
    let today = date(2024, 6, 1);
    assert_eq!(store.upsert("alice", &body("not-a-date"), &today), Err(ServiceError::InvalidDate));
    assert_eq!(store.upsert("alice", &body("1990-02-30"), &today), Err(ServiceError::InvalidDate));
    assert_eq!(store.count(), 0);
}

#[test]
fn today_or_future_date_is_rejected() {
    let mut store = UserStore::new();
    let today = date(2024, 6, 1);
    assert_eq!(
        store.upsert("alice", &body("2024-06-01"), &today),
        Err(ServiceError::DateNotInPast)
    );
    assert_eq!(
        store.upsert("alice", &body("2024-06-02"), &today),
        Err(ServiceError::DateNotInPast)
    );
    assert_eq!(
        store.upsert("alice", &body("2030-01-01"), &today),
        Err(ServiceError::DateNotInPast)
    );
    assert_eq!(store.count(), 0);
    assert!(store.upsert("alice", &body("2024-05-31"), &today).is_ok());
}

#[test]
fn reading_unknown_username_is_not_found() {
    let store = UserStore::new();
    let today = date(2024, 6, 1);
    assert_eq!(store.read_user("nobody", &today), Err(ServiceError::NotFound));

    let mut store = UserStore::new();
    assert!(store.upsert("alice", &body("1990-03-15"), &today).is_ok());
    assert_eq!(store.read_user("bob", &today), Err(ServiceError::NotFound));
}

#[test]
fn read_on_the_birthday_wishes_happy_birthday() {
    let mut store = UserStore::new();
    let today = date(2024, 3, 15);
    assert!(store.upsert("dave", &body("1990-03-15"), &today).is_ok());
    assert_eq!(store.read_user("dave", &today).unwrap(), "Hello, dave! Happy birthday!");
}

#[test]
fn find_username_reports_existence() {
    let mut store = UserStore::new();
    let today = date(2024, 6, 1);
    assert!(store.find_username("eve").is_none());
    assert!(store.upsert("eve", &body("1990-03-15"), &today).is_ok());
    let found = store.find_username("eve").unwrap();
    assert_eq!(found.username, "eve");
}

#[test]
fn validate_returns_the_parsed_date() {
    let today = date(2024, 6, 1);
    let d = validate("alice", "1990-03-15", &today).unwrap();
    assert_eq!((d.year, d.month, d.day), (1990, 3, 15));
    assert_eq!(validate("a1", "1990-03-15", &today), Err(ServiceError::InvalidUsername));
    assert_eq!(validate("alice", "1990-3-15", &today), Err(ServiceError::InvalidDate));
    assert_eq!(validate("alice", "2025-01-01", &today), Err(ServiceError::DateNotInPast));
}
