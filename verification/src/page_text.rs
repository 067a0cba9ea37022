//! Picks what the scheduler needs out of the text of a course catalogue page: the part
//! of a text between two markers, the weekdays of a section, and where it meets.

use vstd::prelude::*;
use vstd::string::*;
use crate::text::{
    chars_of, find, first_occurrence, lowered, occurs_at, to_ascii_lowercase, trim_bounds, trimmed_range,
};

verus! {

/// The place where a section meets that meets on no weekday.
pub open spec fn online_location() -> Seq<char> {
    "Distance Education - Online"@
}

/// The part of `text` behind the first occurrence of `prefix` and before the next
/// occurrence of `suffix`, or up to the end of the text where no `suffix` follows,
/// without the white space at its two ends. The markers are found whatever the case of
/// their ASCII letters. Where `prefix` does not occur the part is empty.
pub open spec fn text_after(text: Seq<char>, prefix: Seq<char>, suffix: Seq<char>) -> Seq<char> {
    match first_occurrence(lowered(text), lowered(prefix), 0) {
        Some(at) => {
            let start = at + prefix.len();
            match first_occurrence(lowered(text), lowered(suffix), start) {
                Some(end) => trimmed_range(text, start, end),
                None => trimmed_range(text, start, text.len() as int),
            }
        },
        None => Seq::empty(),
    }
}

/// The text names the weekday whose short name is `name`.
pub open spec fn names_day(text: Seq<char>, name: Seq<char>) -> bool {
    first_occurrence(text, name, 0) is Some
}

/// The weekdays, Monday first, that a text such as `Mon Wed Fri` names.
pub open spec fn days_named(text: Seq<char>) -> Seq<bool> {
    seq![
        names_day(text, "Mon"@),
        names_day(text, "Tue"@),
        names_day(text, "Wed"@),
        names_day(text, "Thu"@),
        names_day(text, "Fri"@),
    ]
}

/// Where a section meets: online if it meets on no weekday, else what the text of its
/// location holds in round brackets.
pub open spec fn location_text(raw: Seq<char>, days: Seq<bool>) -> Seq<char> {
    if !days[0] && !days[1] && !days[2] && !days[3] && !days[4] {
        online_location()
    } else {
        text_after(raw, seq!['('], seq![')'])
    }
}

/// What is shown of a course: its units, what it requires, and what it is about.
pub open spec fn description_text(units: Seq<char>, prerequisites: Seq<char>, description: Seq<char>) -> Seq<
    char,
> {
    "Units: "@ + units + " | Prerequisites: "@ + prerequisites + " | Description: "@ + description
}

/// The part of `text` between the first `prefix` and the next `suffix`, trimmed.
pub fn extract_text_after(text: &str, prefix: &str, suffix: &str) -> (part: String)
    ensures
        part@ == text_after(text@, prefix@, suffix@),
{
    let chars = chars_of(text);
    let text_lower = to_ascii_lowercase(&chars);
    let prefix_lower = to_ascii_lowercase(&chars_of(prefix));
    let suffix_lower = to_ascii_lowercase(&chars_of(suffix));
    match find(&text_lower, &prefix_lower, 0) {
        Some(start_idx) => {
            assert(occurs_at(text_lower@, prefix_lower@, start_idx as int));
            assert(start_idx + prefix_lower.len() <= text_lower.len());
            let start = start_idx + prefix_lower.len();
            let end = match find(&text_lower, &suffix_lower, start) {
                Some(end_idx) => end_idx,
                None => chars.len(),
            };
            let (from, to) = trim_bounds(&chars, start, end);
            String::from_str(text.substring_char(from, to))
        },
        None => String::new(),
    }
}

/// Whether the text names the weekday.
fn names(text: &Vec<char>, name: &str) -> (named: bool)
    ensures
        named == names_day(text@, name@),
{
    let pattern = chars_of(name);
    find(text, &pattern, 0).is_some()
}

/// The weekdays, Monday first, that a text such as `Mon Wed Fri` names.
pub fn meeting_days(day_string: &str) -> (days: [bool; 5])
    ensures
        days@ == days_named(day_string@),
{
    let chars = chars_of(day_string);
    let days = [
        names(&chars, "Mon"),
        names(&chars, "Tue"),
        names(&chars, "Wed"),
        names(&chars, "Thu"),
        names(&chars, "Fri"),
    ];
    assert(days@ =~= days_named(day_string@));
    days
}

/// Where a section meets, from the text of its location and the weekdays on which it
/// meets.
pub fn location_of(raw: &str, days: &[bool; 5]) -> (location: String)
    ensures
        location@ == location_text(raw@, days@),
{
    if !days[0] && !days[1] && !days[2] && !days[3] && !days[4] {
        String::from_str("Distance Education - Online")
    } else {
        proof {
            reveal_strlit("(");
            reveal_strlit(")");
            assert("("@ =~= seq!['(']);
            assert(")"@ =~= seq![')']);
        }
        extract_text_after(raw, "(", ")")
    }
}

/// What is shown of a course: `Units: U | Prerequisites: P | Description: D`.
pub fn full_description(units: &str, prerequisites: &str, description: &str) -> (text: String)
    ensures
        text@ == description_text(units@, prerequisites@, description@),
{
    let mut text = String::from_str("Units: ");
    text.append(units);
    text.append(" | Prerequisites: ");
    text.append(prerequisites);
    text.append(" | Description: ");
    text.append(description);
    text
}

} // verus!
