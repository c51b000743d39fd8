use astreinte::{whole_hours, whole_minutes, JsonStorage, SchedError, TemplateStore};

#[test]
fn storage_and_template_store_remember_their_locations() {
    let storage = JsonStorage::open("rosters/main.json");
    assert_eq!(storage.path(), "rosters/main.json");
    let store = TemplateStore::new("templates");
    assert_eq!(store.base_dir(), "templates");
}

#[test]
fn whole_durations_truncate_toward_zero() {
    assert_eq!(whole_hours(3600, 0), 1);
    assert_eq!(whole_hours(3599, 0), 0);
    assert_eq!(whole_hours(-3600, 0), -1);
    assert_eq!(whole_hours(-3599, 0), 0);
    assert_eq!(whole_minutes(125, 0), 2);
    assert_eq!(whole_minutes(0, 125), -2);
}

#[test]
fn error_messages_name_their_subject() {
    assert_eq!(
        SchedError::InvalidTimeRange.message(),
        "invalid time range: end must be after start"
    );
    assert_eq!(
        SchedError::UnknownPerson("bob".to_string()).message(),
        "unknown person handle: bob"
    );
    assert_eq!(
        SchedError::UnknownShift("s9".to_string()).message(),
        "unknown shift: s9"
    );
    assert_eq!(
        SchedError::SwapInvalid("introduces overlap").message(),
        "swap invalid: introduces overlap"
    );
    assert_eq!(
        SchedError::CoverInvalid("person on vacation").message(),
        "cover invalid: person on vacation"
    );
}
