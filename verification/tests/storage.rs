use class_scheduler::objects::{Event, EventType, GetElementError, NewEvent, StoredCredentials};
use class_scheduler::storage_rules::{
    check_updated, new_stored_event, prepare_event, validate_table_name, StorageError,
};

fn lecture() -> NewEvent {
    NewEvent {
        title: "Lecture".to_string(),
        start_time: 900,
        end_time: 1015,
        day: 10,
        professor: "Prof".to_string(),
        description: "Weekly".to_string(),
    }
}

fn is_hex(c: char) -> bool {
    c.is_ascii_digit() || ('a'..='f').contains(&c)
}

#[test]
fn only_the_three_tables_may_be_named() {
    assert_eq!(validate_table_name("events"), Ok(()));
    assert_eq!(validate_table_name("schedules"), Ok(()));
    assert_eq!(validate_table_name("favorites"), Ok(()));
    for table in ["", "Events", "events ", "classes", "data", "events; DROP TABLE events", "event"] {
        assert_eq!(validate_table_name(table), Err(StorageError::InvalidTableName(table.to_string())));
    }
    assert_eq!(StorageError::InvalidTableName("users".to_string()).message(), "Invalid table name: users");
}

#[test]
fn an_update_that_changed_nothing_found_nothing() {
    assert_eq!(check_updated(1, "abc"), Ok(()));
    assert_eq!(check_updated(3, "abc"), Ok(()));
    assert_eq!(check_updated(0, "abc"), Err(StorageError::EventNotFound("abc".to_string())));
    assert_eq!(StorageError::EventNotFound("abc".to_string()).message(), "Event with id 'abc' not found");
}

#[test]
fn an_event_is_the_new_event_under_its_identity() {
    let event = Event::from_new("id-1".to_string(), lecture());
    assert_eq!(
        event,
        Event {
            id: "id-1".to_string(),
            title: "Lecture".to_string(),
            start_time: 900,
            end_time: 1015,
            day: 10,
            professor: "Prof".to_string(),
            description: "Weekly".to_string(),
        }
    );
    assert_eq!(event.clone(), event);
}

#[test]
fn a_stored_event_gets_a_fresh_random_identity() {
    let first = new_stored_event(lecture());
    let second = new_stored_event(lecture());
    assert_ne!(first.id, second.id);
    for event in [&first, &second] {
        let id: Vec<char> = event.id.chars().collect();
        assert_eq!(id.len(), 36);
        for (place, c) in id.iter().enumerate() {
            if place == 8 || place == 13 || place == 18 || place == 23 {
                assert_eq!(*c, '-');
            } else {
                assert!(is_hex(*c));
            }
        }
        assert_eq!(event.title, "Lecture");
        assert_eq!(event.start_time, 900);
        assert_eq!(event.end_time, 1015);
        assert_eq!(event.day, 10);
        assert_eq!(event.professor, "Prof");
        assert_eq!(event.description, "Weekly");
    }
}

#[test]
fn an_event_is_prepared_only_for_a_table_that_may_be_named() {
    let prepared = prepare_event("events", lecture()).unwrap();
    assert_eq!(prepared.id.len(), 36);
    assert_eq!(prepared.title, "Lecture");
    assert_eq!(prepare_event("nowhere", lecture()), Err(StorageError::InvalidTableName("nowhere".to_string())));
}

#[test]
fn plain_values_keep_what_they_are_given() {
    let error = GetElementError::new("no such element".to_string());
    assert_eq!(error.to_string(), "no such element");
    assert_eq!(format!("{:?}", error), "GetElementError { err_message: \"no such element\" }");
    assert_ne!(EventType::Events, EventType::Schedules);
    let credentials = StoredCredentials { username: "user".to_string(), password: "secret".to_string() };
    assert_eq!(credentials.username, "user");
    assert_eq!(credentials.password, "secret");
}
