//! Plain data of the scheduler: course sections, the user's wishes and calendar events,
//! each with the mathematical value that the contracts of this crate speak of.

use vstd::prelude::*;

verus! {

/// One weekday's meeting window of a section: `((start, end), active)`.
///
/// Times are integers in 24-hour HHMM form, so 1330 is 1:30 PM. `active` tells whether
/// the section meets on that day at all; an inactive slot carries no meaning in its times.
pub type WeeklyTimeSlot = ((i32, i32), bool);

/// One meeting pattern of a section (a lecture, a lab, ...): where, with whom, and on
/// which of the five weekdays, Monday first.
#[derive(Debug, PartialEq, Eq)]
pub struct TimeBlock {
    pub section: String,
    pub location: String,
    pub days: [WeeklyTimeSlot; 5],
    pub instructor: String,
}

/// The value of a [`TimeBlock`].
pub struct TimeBlockView {
    pub section: Seq<char>,
    pub location: Seq<char>,
    pub days: Seq<WeeklyTimeSlot>,
    pub instructor: Seq<char>,
}

impl View for TimeBlock {
    type V = TimeBlockView;

    open spec fn view(&self) -> TimeBlockView {
        TimeBlockView {
            section: self.section@,
            location: self.location@,
            days: self.days@,
            instructor: self.instructor@,
        }
    }
}

impl DeepView for TimeBlock {
    type V = TimeBlockView;

    open spec fn deep_view(&self) -> TimeBlockView {
        self@
    }
}

impl Clone for TimeBlock {
    fn clone(&self) -> (copy: Self)
        ensures
            copy@ == self@,
    {
        TimeBlock {
            section: self.section.clone(),
            location: self.location.clone(),
            days: self.days,
            instructor: self.instructor.clone(),
        }
    }
}

/// One offering of a course: a section with all of its meeting patterns.
#[derive(Debug, PartialEq, Eq)]
pub struct Class {
    pub code: String,
    pub name: String,
    pub description: String,
    pub classes: Vec<TimeBlock>,
}

/// The value of a [`Class`].
pub struct ClassView {
    pub code: Seq<char>,
    pub name: Seq<char>,
    pub description: Seq<char>,
    pub classes: Seq<TimeBlockView>,
}

impl View for Class {
    type V = ClassView;

    open spec fn view(&self) -> ClassView {
        ClassView {
            code: self.code@,
            name: self.name@,
            description: self.description@,
            classes: self.classes.deep_view(),
        }
    }
}

impl DeepView for Class {
    type V = ClassView;

    open spec fn deep_view(&self) -> ClassView {
        self@
    }
}

impl Clone for Class {
    fn clone(&self) -> (copy: Self)
        ensures
            copy@ == self@,
    {
        let mut blocks: Vec<TimeBlock> = Vec::with_capacity(self.classes.len());
        let mut i: usize = 0;
        while i < self.classes.len()
            invariant
                i <= self.classes.len(),
                blocks.len() == i,
                forall|k: int| 0 <= k < i ==> blocks[k]@ == self.classes[k]@,
            decreases self.classes.len() - i,
        {
            blocks.push(self.classes[i].clone());
            i += 1;
        }
        assert(blocks.deep_view() =~= self.classes.deep_view());
        Class {
            code: self.code.clone(),
            name: self.name.clone(),
            description: self.description.clone(),
            classes: blocks,
        }
    }
}

/// A recurring busy span of the user: a time range and the weekdays, Monday first, on
/// which it holds.
#[derive(Debug, PartialEq, Eq)]
pub struct EventParam {
    pub time: (i32, i32),
    pub days: [bool; 5],
}

/// The value of an [`EventParam`].
pub struct EventParamView {
    pub time: (i32, i32),
    pub days: Seq<bool>,
}

impl View for EventParam {
    type V = EventParamView;

    open spec fn view(&self) -> EventParamView {
        EventParamView { time: self.time, days: self.days@ }
    }
}

impl DeepView for EventParam {
    type V = EventParamView;

    open spec fn deep_view(&self) -> EventParamView {
        self@
    }
}

impl Clone for EventParam {
    fn clone(&self) -> (copy: Self)
        ensures
            copy@ == self@,
    {
        EventParam { time: self.time, days: self.days }
    }
}

/// What the user asks of one course: its code and number, and optionally one section
/// and one instructor. An empty `section` or `instructor` means no preference.
#[derive(Debug, PartialEq, Eq)]
pub struct ClassParam {
    pub id: String,
    pub code: String,
    pub name: String,
    pub section: String,
    pub instructor: String,
}

/// The value of a [`ClassParam`].
pub struct ClassParamView {
    pub id: Seq<char>,
    pub code: Seq<char>,
    pub name: Seq<char>,
    pub section: Seq<char>,
    pub instructor: Seq<char>,
}

impl View for ClassParam {
    type V = ClassParamView;

    open spec fn view(&self) -> ClassParamView {
        ClassParamView {
            id: self.id@,
            code: self.code@,
            name: self.name@,
            section: self.section@,
            instructor: self.instructor@,
        }
    }
}

impl DeepView for ClassParam {
    type V = ClassParamView;

    open spec fn deep_view(&self) -> ClassParamView {
        self@
    }
}

impl Clone for ClassParam {
    fn clone(&self) -> (copy: Self)
        ensures
            copy@ == self@,
    {
        ClassParam {
            id: self.id.clone(),
            code: self.code.clone(),
            name: self.name.clone(),
            section: self.section.clone(),
            instructor: self.instructor.clone(),
        }
    }
}

/// Everything one schedule search is asked with: three search switches, the wanted
/// courses in order, and the user's busy spans.
#[derive(Debug, PartialEq, Eq)]
pub struct ScrapeClassesParameters {
    pub params_checkbox: [bool; 3],
    pub classes: Vec<ClassParam>,
    pub events: Vec<EventParam>,
}

/// The value of a [`ScrapeClassesParameters`].
pub struct ScrapeClassesParametersView {
    pub params_checkbox: Seq<bool>,
    pub classes: Seq<ClassParamView>,
    pub events: Seq<EventParamView>,
}

impl View for ScrapeClassesParameters {
    type V = ScrapeClassesParametersView;

    open spec fn view(&self) -> ScrapeClassesParametersView {
        ScrapeClassesParametersView {
            params_checkbox: self.params_checkbox@,
            classes: self.classes.deep_view(),
            events: self.events.deep_view(),
        }
    }
}

impl DeepView for ScrapeClassesParameters {
    type V = ScrapeClassesParametersView;

    open spec fn deep_view(&self) -> ScrapeClassesParametersView {
        self@
    }
}

/// A calendar event as the user enters it, before it has an identity.
#[derive(Debug, PartialEq, Eq)]
pub struct NewEvent {
    pub title: String,
    pub start_time: i32,
    pub end_time: i32,
    pub day: i32,
    pub professor: String,
    pub description: String,
}

/// A stored calendar event. `start_time` and `end_time` are HHMM integers, zero or less
/// for "no time"; `day` is a mask over seven bits, Sunday at bit 0.
#[derive(Debug, PartialEq, Eq)]
pub struct Event {
    pub id: String,
    pub title: String,
    pub start_time: i32,
    pub end_time: i32,
    pub day: i32,
    pub professor: String,
    pub description: String,
}

/// The value of an [`Event`].
pub struct EventView {
    pub id: Seq<char>,
    pub title: Seq<char>,
    pub start_time: i32,
    pub end_time: i32,
    pub day: i32,
    pub professor: Seq<char>,
    pub description: Seq<char>,
}

impl View for Event {
    type V = EventView;

    open spec fn view(&self) -> EventView {
        EventView {
            id: self.id@,
            title: self.title@,
            start_time: self.start_time,
            end_time: self.end_time,
            day: self.day,
            professor: self.professor@,
            description: self.description@,
        }
    }
}

impl DeepView for Event {
    type V = EventView;

    open spec fn deep_view(&self) -> EventView {
        self@
    }
}

impl Clone for Event {
    fn clone(&self) -> (copy: Self)
        ensures
            copy@ == self@,
    {
        Event {
            id: self.id.clone(),
            title: self.title.clone(),
            start_time: self.start_time,
            end_time: self.end_time,
            day: self.day,
            professor: self.professor.clone(),
            description: self.description.clone(),
        }
    }
}

impl Event {
    /// The stored event that `new_event` becomes once it is given the identity `id`.
    pub fn from_new(id: String, new_event: NewEvent) -> (event: Event)
        ensures
            event@ == (EventView {
                id: id@,
                title: new_event.title@,
                start_time: new_event.start_time,
                end_time: new_event.end_time,
                day: new_event.day,
                professor: new_event.professor@,
                description: new_event.description@,
            }),
    {
        Event {
            id,
            title: new_event.title,
            start_time: new_event.start_time,
            end_time: new_event.end_time,
            day: new_event.day,
            professor: new_event.professor,
            description: new_event.description,
        }
    }
}

/// Which kind of calendar entries is meant.
#[derive(Clone, Copy, Debug, PartialEq, Eq, Structural)]
pub enum EventType {
    Events,
    Schedules,
}

/// The name and password with which the user signs in to the course catalogue.
#[derive(Debug, PartialEq, Eq)]
pub struct StoredCredentials {
    pub username: String,
    pub password: String,
}

/// The value of a [`StoredCredentials`].
pub struct StoredCredentialsView {
    pub username: Seq<char>,
    pub password: Seq<char>,
}

impl View for StoredCredentials {
    type V = StoredCredentialsView;

    open spec fn view(&self) -> StoredCredentialsView {
        StoredCredentialsView { username: self.username@, password: self.password@ }
    }
}

/// An element of a page that could not be found, with what was being looked for.
#[derive(Debug)]
pub struct GetElementError {
    err_message: String,
}

impl View for GetElementError {
    type V = Seq<char>;

    closed spec fn view(&self) -> Seq<char> {
        self.err_message@
    }
}

impl GetElementError {
    /// The error that says `err_message`.
    pub fn new(err_message: String) -> (error: GetElementError)
        ensures
            error@ == err_message@,
    {
        GetElementError { err_message }
    }

    /// What the error says.
    pub fn to_string(&self) -> (text: String)
        ensures
            text@ == self@,
    {
        self.err_message.clone()
    }
}

} // verus!
