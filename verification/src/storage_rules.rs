//! The rules of the store that do not need the store itself: which tables may be named,
//! what a new event is stored as, and when an update has found nothing.

use vstd::prelude::*;
use vstd::string::*;
use crate::objects::{Event, NewEvent};

verus! {

/// The tables that may be named from outside: `events`, `schedules` and `favorites`.
pub open spec fn is_valid_table(table: Seq<char>) -> bool {
    table == "events"@ || table == "schedules"@ || table == "favorites"@
}

/// What is wrong with a request to the store.
#[derive(Debug, PartialEq, Eq)]
pub enum StorageError {
    /// The table named is none of the tables that may be named.
    InvalidTableName(String),
    /// No event with this identity is stored.
    EventNotFound(String),
}

/// The value of a [`StorageError`].
pub enum StorageErrorView {
    InvalidTableName(Seq<char>),
    EventNotFound(Seq<char>),
}

impl View for StorageError {
    type V = StorageErrorView;

    open spec fn view(&self) -> StorageErrorView {
        match self {
            StorageError::InvalidTableName(table) => StorageErrorView::InvalidTableName(table@),
            StorageError::EventNotFound(id) => StorageErrorView::EventNotFound(id@),
        }
    }
}

/// What an error says.
pub open spec fn storage_error_text(error: StorageErrorView) -> Seq<char> {
    match error {
        StorageErrorView::InvalidTableName(table) => "Invalid table name: "@ + table,
        StorageErrorView::EventNotFound(id) => "Event with id '"@ + id + "' not found"@,
    }
}

impl StorageError {
    /// What the error says.
    pub fn message(&self) -> (text: String)
        ensures
            text@ == storage_error_text(self@),
    {
        match self {
            StorageError::InvalidTableName(table) => {
                let mut text = String::from_str("Invalid table name: ");
                text.append(table.as_str());
                text
            },
            StorageError::EventNotFound(id) => {
                let mut text = String::from_str("Event with id '");
                text.append(id.as_str());
                text.append("' not found");
                text
            },
        }
    }
}

/// The value of the result of a check.
pub open spec fn check_view(result: Result<(), StorageError>) -> Result<(), StorageErrorView> {
    match result {
        Ok(()) => Ok(()),
        Err(error) => Err(error@),
    }
}

/// Accepts the name of a table only if it is one of the tables that may be named, so
/// that no other text ever becomes part of a statement.
pub fn validate_table_name(table: &str) -> (result: Result<(), StorageError>)
    ensures
        is_valid_table(table@) ==> result is Ok,
        !is_valid_table(table@) ==> check_view(result) == Err::<(), StorageErrorView>(
            StorageErrorView::InvalidTableName(table@),
        ),
{
    let name = String::from_str(table);
    if name == String::from_str("events") || name == String::from_str("schedules") || name == String::from_str(
        "favorites",
    ) {
        Ok(())
    } else {
        Err(StorageError::InvalidTableName(name))
    }
}

/// An update that changed no row has found no event.
pub fn check_updated(rows_affected: usize, event_id: &str) -> (result: Result<(), StorageError>)
    ensures
        rows_affected > 0 ==> result is Ok,
        rows_affected == 0 ==> check_view(result) == Err::<(), StorageErrorView>(
            StorageErrorView::EventNotFound(event_id@),
        ),
{
    if rows_affected == 0 {
        Err(StorageError::EventNotFound(String::from_str(event_id)))
    } else {
        Ok(())
    }
}

/// The shape of a random identity: 36 characters in five groups with a hyphen between
/// one group and the next.
pub open spec fn is_identity(id: Seq<char>) -> bool {
    id.len() == 36 && id[8] == '-' && id[13] == '-' && id[18] == '-' && id[23] == '-'
}

/// `uuid::Uuid::new_v4`, printed with `to_string`: a random identity. Which one comes is
/// left open; the contract claims only its shape, the hyphenated form of 36 characters.
/// It takes its random numbers from the system and panics if the system has none to give.
#[verifier::external_body]
fn random_identity() -> (id: String)
    ensures
        is_identity(id@),
{
    uuid::Uuid::new_v4().to_string()
}

/// The event to store for a new event: the same event under a fresh random identity.
pub fn new_stored_event(new_event: NewEvent) -> (event: Event)
    ensures
        is_identity(event@.id),
        event@.title == new_event.title@,
        event@.start_time == new_event.start_time,
        event@.end_time == new_event.end_time,
        event@.day == new_event.day,
        event@.professor == new_event.professor@,
        event@.description == new_event.description@,
{
    Event::from_new(random_identity(), new_event)
}

/// The event to store in `table` for a new event, if the table may be named.
pub fn prepare_event(table: &str, new_event: NewEvent) -> (result: Result<Event, StorageError>)
    ensures
        is_valid_table(table@) ==> result is Ok && is_identity(result->Ok_0@.id) && result->Ok_0@.title
            == new_event.title@ && result->Ok_0@.start_time == new_event.start_time && result->Ok_0@.end_time
            == new_event.end_time && result->Ok_0@.day == new_event.day && result->Ok_0@.professor
            == new_event.professor@ && result->Ok_0@.description == new_event.description@,
        !is_valid_table(table@) ==> result is Err && result->Err_0@ == StorageErrorView::InvalidTableName(table@),
{
    match validate_table_name(table) {
        Ok(()) => Ok(new_stored_event(new_event)),
        Err(error) => Err(error),
    }
}

} // verus!
