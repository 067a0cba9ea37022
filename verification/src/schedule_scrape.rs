//! Reads a single time, a time range and a location out of the text of a course
//! catalogue page, for sections that are shown with one time range and one location.

use vstd::prelude::*;
use vstd::string::*;
use crate::text::{
    chars_of, find, first_occurrence, occurs_at, remove_all, split, split_on, trim, trim_bounds, trimmed,
    trimmed_range, without,
};
use crate::time_parsing::{clock_time, parse_clock_time, span_close, span_open, UNREAD_TIME};

verus! {

/// The hours, on the 24-hour clock, and the minutes that a text such as `11:45 AM`
/// writes; -1 for both if the text writes no time or the hours do not fit in 32 bits.
pub open spec fn single_time(text: Seq<char>) -> (i32, i32) {
    match clock_time(text) {
        Some((hours, minutes)) => if hours <= i32::MAX {
            (hours as i32, minutes as i32)
        } else {
            (UNREAD_TIME, UNREAD_TIME)
        },
        None => (UNREAD_TIME, UNREAD_TIME),
    }
}

/// Hours and minutes as one HHMM integer; none if one of them is -1 or the integer does
/// not fit in 32 bits.
pub open spec fn hhmm(time: (i32, i32)) -> Option<i32> {
    if time.0 == -1 || time.1 == -1 || time.0 * 100 + time.1 < i32::MIN || time.0 * 100 + time.1 > i32::MAX {
        None
    } else {
        Some((time.0 * 100 + time.1) as i32)
    }
}

/// A time range as text, freed of its markup.
pub open spec fn cleaned_time(text: Seq<char>) -> Seq<char> {
    without(without(text, span_open()), span_close())
}

/// The start and end, as HHMM integers, that a text writes. With a hyphen the text is a
/// range, `10:15 AM - 11:30 AM`: the times before the first hyphen and between the
/// first and the second. Without a hyphen the text is a single time, and the end is -1.
/// A blank text, or one of which a time cannot be read, gives -1 for both.
pub open spec fn time_pair(text: Seq<char>) -> (i32, i32) {
    let cleaned = cleaned_time(text);
    let parts = split_on(cleaned, '-');
    if trimmed(text).len() == 0 {
        (UNREAD_TIME, UNREAD_TIME)
    } else if parts.len() >= 2 {
        match (hhmm(single_time(trimmed(parts[0]))), hhmm(single_time(trimmed(parts[1])))) {
            (Some(start), Some(end)) => (start, end),
            _ => (UNREAD_TIME, UNREAD_TIME),
        }
    } else {
        match hhmm(single_time(cleaned)) {
            Some(start) => (start, UNREAD_TIME),
            None => (UNREAD_TIME, UNREAD_TIME),
        }
    }
}

/// The markup that opens the detail of a location.
pub open spec fn detail_open() -> Seq<char> {
    "<span class=\"show-detail\">"@
}

/// Where a section meets, from the markup of its location: online if the markup says
/// so; else what stands between the first opening of a detail and the next closing
/// markup; else the markup as it is.
pub open spec fn location_in(html: Seq<char>) -> Seq<char> {
    if first_occurrence(html, "Distance Education - Online"@, 0) is Some {
        "Distance Education - Online"@
    } else {
        match first_occurrence(html, detail_open(), 0) {
            Some(at) => {
                let start = at + detail_open().len();
                match first_occurrence(html, span_close(), start) {
                    Some(end) => html.subrange(start, end),
                    None => html,
                }
            },
            None => html,
        }
    }
}

/// The part of `text` behind the first occurrence of `prefix` and before the next
/// occurrence of `suffix`, or up to the end of the text where no `suffix` follows,
/// without the white space at its two ends. Where `prefix` does not occur the part is
/// empty.
pub open spec fn text_between(text: Seq<char>, prefix: Seq<char>, suffix: Seq<char>) -> Seq<char> {
    match first_occurrence(text, prefix, 0) {
        Some(at) => {
            let start = at + prefix.len();
            match first_occurrence(text, suffix, start) {
                Some(end) => trimmed_range(text, start, end),
                None => trimmed_range(text, start, text.len() as int),
            }
        },
        None => Seq::empty(),
    }
}

/// Reads a time of the 12-hour clock, such as `11:45 AM`, as the hours of the 24-hour
/// clock and the minutes; `(-1, -1)` if the text writes no such time.
pub fn convert_single_time(time: &str) -> (clock: (i32, i32))
    ensures
        clock == single_time(time@),
{
    let chars = chars_of(time);
    single_time_of(&chars)
}

/// Reads a time of the 12-hour clock as the hours of the 24-hour clock and the minutes.
fn single_time_of(time: &Vec<char>) -> (clock: (i32, i32))
    ensures
        clock == single_time(time@),
{
    match parse_clock_time(time) {
        Some((hours, minutes)) => {
            if hours > 2147483647 {
                (UNREAD_TIME, UNREAD_TIME)
            } else {
                (hours as i32, minutes as i32)
            }
        },
        None => (UNREAD_TIME, UNREAD_TIME),
    }
}

/// Hours and minutes as one HHMM integer.
fn to_hhmm(time: (i32, i32)) -> (combined: Option<i32>)
    ensures
        combined == hhmm(time),
{
    if time.0 == -1 || time.1 == -1 {
        return None;
    }
    let combined: i64 = (time.0 as i64) * 100 + (time.1 as i64);
    if combined < -2147483648 || combined > 2147483647 {
        None
    } else {
        Some(combined as i32)
    }
}

/// Reads the start and end of a time range such as `10:15 AM - 11:30 AM`, or the start
/// alone of a single time, as HHMM integers.
pub fn convert_time(time_str: &str) -> (range: (i32, i32))
    ensures
        range == time_pair(time_str@),
{
    let chars = chars_of(time_str);
    if trim(&chars).len() == 0 {
        return (UNREAD_TIME, UNREAD_TIME);
    }
    proof {
        reveal_strlit("<span class=\"inner_tbl_br\">");
        reveal_strlit("</span>");
    }
    let opened = remove_all(&chars, &chars_of("<span class=\"inner_tbl_br\">"));
    let cleaned_time = remove_all(&opened, &chars_of("</span>"));
    let parts = split(&cleaned_time, '-');
    if parts.len() >= 2 {
        assert(split_on(cleaned_time@, '-')[0] == parts[0]@) by {
            assert(parts.deep_view()[0] =~= parts[0]@);
        }
        assert(split_on(cleaned_time@, '-')[1] == parts[1]@) by {
            assert(parts.deep_view()[1] =~= parts[1]@);
        }
        let start_time = trim(&parts[0]);
        let end_time = trim(&parts[1]);
        let start = to_hhmm(single_time_of(&start_time));
        let end = to_hhmm(single_time_of(&end_time));
        return match (start, end) {
            (Some(combined_start), Some(combined_end)) => (combined_start, combined_end),
            _ => (UNREAD_TIME, UNREAD_TIME),
        };
    }
    match to_hhmm(single_time_of(&cleaned_time)) {
        Some(start) => (start, UNREAD_TIME),
        None => (UNREAD_TIME, UNREAD_TIME),
    }
}

/// Where a section meets, from the markup of its location.
pub fn extract_location(html: &str) -> (location: String)
    ensures
        location@ == location_in(html@),
{
    let chars = chars_of(html);
    if find(&chars, &chars_of("Distance Education - Online"), 0).is_some() {
        return String::from_str("Distance Education - Online");
    }
    let opening = chars_of("<span class=\"show-detail\">");
    match find(&chars, &opening, 0) {
        Some(start_idx) => {
            assert(occurs_at(chars@, opening@, start_idx as int));
            assert(start_idx + opening.len() <= chars.len());
            let content_start = start_idx + opening.len();
            match find(&chars, &chars_of("</span>"), content_start) {
                Some(end) => {
                    return String::from_str(html.substring_char(content_start, end));
                },
                None => {},
            }
        },
        None => {},
    }
    String::from_str(html)
}

/// The part of `text` between the first `prefix` and the next `suffix`, trimmed.
pub fn extract_text_after(text: &str, prefix: &str, suffix: &str) -> (part: String)
    ensures
        part@ == text_between(text@, prefix@, suffix@),
{
    let chars = chars_of(text);
    let before = chars_of(prefix);
    let behind = chars_of(suffix);
    match find(&chars, &before, 0) {
        Some(start_idx) => {
            assert(occurs_at(chars@, before@, start_idx as int));
            assert(start_idx + before.len() <= chars.len());
            let start = start_idx + before.len();
            let end = match find(&chars, &behind, start) {
                Some(end_idx) => end_idx,
                None => chars.len(),
            };
            let (from, to) = trim_bounds(&chars, start, end);
            String::from_str(text.substring_char(from, to))
        },
        None => String::new(),
    }
}

} // verus!
