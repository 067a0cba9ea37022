//! Reads the meeting times of a section from the text in which a course catalogue shows
//! them: `10:15 AM - 11:30 AM`, perhaps wrapped in markup. A time that cannot be read
//! becomes -1.

use vstd::prelude::*;
use vstd::string::*;
use crate::objects::WeeklyTimeSlot;
use crate::text::{
    chars_eq_ignore_ascii_case, chars_of, decimal, digit_char, equal_ignoring_ascii_case, find, first_occurrence, remove_all, slice_of,
    split, split_on, split_whitespace, trim, trimmed, without, words,
};

verus! {

/// The time that stands for one that could not be read.
pub const UNREAD_TIME: i32 = -1;

/// A decimal digit.
pub open spec fn is_digit(c: char) -> bool {
    '0' <= c && c <= '9'
}

/// The value of a decimal digit.
pub open spec fn digit_value(c: char) -> int {
    (c as u32) - ('0' as u32)
}

/// The number that a run of decimal digits writes.
pub open spec fn number_of(digits: Seq<char>) -> int
    decreases digits.len(),
{
    if digits.len() == 0 {
        0
    } else {
        number_of(digits.drop_last()) * 10 + digit_value(digits.last())
    }
}

/// Every character of the text is a decimal digit.
pub open spec fn all_digits(text: Seq<char>) -> bool {
    forall|i: int| 0 <= i < text.len() ==> is_digit(#[trigger] text[i])
}

/// The digits of a text that writes a whole number: the text but for a leading sign.
pub open spec fn digits_of(text: Seq<char>) -> Seq<char> {
    if text.len() > 0 && (text[0] == '+' || text[0] == '-') {
        text.drop_first()
    } else {
        text
    }
}

/// The whole number that a text writes: an optional sign, `+` or `-`, and then one or
/// more decimal digits and nothing else. A number that does not fit in 32 bits is none.
pub open spec fn parsed_number(text: Seq<char>) -> Option<i32> {
    let digits = digits_of(text);
    let value = if text.len() > 0 && text[0] == '-' {
        -number_of(digits)
    } else {
        number_of(digits)
    };
    if digits.len() > 0 && all_digits(digits) && i32::MIN <= value <= i32::MAX {
        Some(value as i32)
    } else {
        None
    }
}

/// The hour of the 24-hour clock for an hour of the 12-hour clock: afternoon hours but
/// twelve are twelve later, and twelve in the morning is zero. Any other word in place
/// of `AM` or `PM` leaves the hour as it is.
pub open spec fn adjusted_hours(hours: int, period: Seq<char>) -> int {
    if equal_ignoring_ascii_case(period, seq!['P', 'M']) && hours != 12 {
        hours + 12
    } else if equal_ignoring_ascii_case(period, seq!['A', 'M']) && hours == 12 {
        0
    } else {
        hours
    }
}

/// The hours, on the 24-hour clock, and the minutes that a text such as `1:30 PM`
/// writes: two words, the first of them two whole numbers with one colon between them.
pub open spec fn clock_time(text: Seq<char>) -> Option<(int, int)> {
    let parts = words(text);
    if parts.len() != 2 {
        None
    } else {
        let pieces = split_on(parts[0], ':');
        if pieces.len() != 2 {
            None
        } else {
            match (parsed_number(pieces[0]), parsed_number(pieces[1])) {
                (Some(hours), Some(minutes)) => Some((adjusted_hours(hours as int, parts[1]), minutes as int)),
                _ => None,
            }
        }
    }
}

/// The HHMM integer of a text such as `1:30 PM`, which is 1330; -1 if the text writes
/// no time or the integer does not fit in 32 bits.
pub open spec fn time_component(text: Seq<char>) -> int {
    match clock_time(text) {
        Some((hours, minutes)) => if i32::MIN <= hours * 100 + minutes <= i32::MAX {
            hours * 100 + minutes
        } else {
            -1
        },
        None => -1,
    }
}

/// The markup that may open a line break within a time.
pub open spec fn span_open() -> Seq<char> {
    "<span class=\"inner_tbl_br\">"@
}

/// The markup that closes it.
pub open spec fn span_close() -> Seq<char> {
    "</span>"@
}

/// A time range as text, freed of its markup and of white space around it.
pub open spec fn cleaned_range(text: Seq<char>) -> Seq<char> {
    trimmed(without(without(trimmed(text), span_open()), span_close()))
}

/// The start and end, as HHMM integers, of a time range such as `10:15 AM - 11:30 AM`:
/// the times before and behind the first hyphen. Without a hyphen both are -1; a side
/// that writes no time is -1.
pub open spec fn time_range(text: Seq<char>) -> (i32, i32) {
    let cleaned = cleaned_range(text);
    match first_occurrence(cleaned, seq!['-'], 0) {
        Some(hyphen) => (
            time_component(trimmed(cleaned.subrange(0, hyphen))) as i32,
            time_component(trimmed(cleaned.subrange(hyphen + 1, cleaned.len() as int))) as i32,
        ),
        None => (UNREAD_TIME, UNREAD_TIME),
    }
}

/// The slot of one weekday: the time range if the section meets on that day and a time
/// is given at all, and an inactive slot otherwise.
pub open spec fn day_slot(text: Seq<char>, meets: bool) -> WeeklyTimeSlot {
    if trimmed(text).len() == 0 || !meets {
        ((UNREAD_TIME, UNREAD_TIME), false)
    } else {
        (time_range(text), true)
    }
}

/// A slot is well formed if it is active or carries no times: an inactive slot has -1
/// for its start and its end.
pub open spec fn is_weekly_slot(slot: WeeklyTimeSlot) -> bool {
    slot.1 || slot.0 == (UNREAD_TIME, UNREAD_TIME)
}

/// The week of a section that meets at the time `text` on the weekdays `days`.
pub open spec fn week_of(text: Seq<char>, days: Seq<bool>) -> Seq<WeeklyTimeSlot> {
    Seq::new(5, |day: int| day_slot(text, days[day]))
}

proof fn lemma_number_of_grows(digits: Seq<char>, more: Seq<char>)
    requires
        all_digits(digits),
        all_digits(more),
    ensures
        number_of(digits) >= 0,
        number_of(digits + more) >= number_of(digits),
    decreases more.len(),
{
    lemma_number_of_is_natural(digits);
    if more.len() == 0 {
        assert(digits + more =~= digits);
    } else {
        lemma_number_of_grows(digits, more.drop_last());
        assert((digits + more).drop_last() =~= digits + more.drop_last());
        assert((digits + more).last() == more.last());
        lemma_number_of_is_natural(digits + more.drop_last());
        assert(is_digit(more[more.len() - 1]));
    }
}

proof fn lemma_number_of_is_natural(digits: Seq<char>)
    requires
        all_digits(digits),
    ensures
        number_of(digits) >= 0,
    decreases digits.len(),
{
    if digits.len() > 0 {
        lemma_number_of_is_natural(digits.drop_last());
        assert(is_digit(digits[digits.len() - 1]));
    }
}

/// The whole number that the text writes, if it writes one that fits in 32 bits.
pub fn parse_number(text: &Vec<char>) -> (number: Option<i32>)
    ensures
        number == parsed_number(text@),
{
    let signed = text.len() > 0 && (text[0] == '+' || text[0] == '-');
    let negative = text.len() > 0 && text[0] == '-';
    let first: usize = if signed {
        1
    } else {
        0
    };
    let ghost digits = digits_of(text@);
    assert(digits =~= text@.subrange(first as int, text.len() as int));
    if first == text.len() {
        return None;
    }
    let mut value: i64 = 0;
    let mut i: usize = first;
    assert(digits.take(0) =~= Seq::<char>::empty());
    while i < text.len()
        invariant
            first <= i <= text.len(),
            digits == text@.subrange(first as int, text.len() as int),
            digits == digits_of(text@),
            all_digits(digits.take(i - first)),
            value == number_of(digits.take(i - first)),
            0 <= value <= 2147483648,
        decreases text.len() - i,
    {
        let c = text[i];
        assert(digits[i - first] == c);
        if !('0' <= c && c <= '9') {
            assert(!is_digit(digits[i - first]));
            return None;
        }
        proof {
            assert(digits.take(i - first + 1).drop_last() =~= digits.take(i - first));
            assert(digits.take(i - first + 1).last() == c);
            assert forall|k: int| 0 <= k < i - first + 1 implies is_digit(
                #[trigger] digits.take(i - first + 1)[k],
            ) by {
                if k < i - first {
                    assert(digits.take(i - first)[k] == digits.take(i - first + 1)[k]);
                }
            }
        }
        value = value * 10 + ((c as u32 - '0' as u32) as i64);
        i += 1;
        assert(value == number_of(digits.take(i - first)));
        if value > 2147483648 {
            proof {
                let read = digits.take(i - first);
                let rest = digits.subrange(i - first, digits.len() as int);
                assert(digits =~= read + rest);
                if all_digits(digits) {
                    assert forall|k: int| 0 <= k < rest.len() implies is_digit(#[trigger] rest[k]) by {
                        assert(rest[k] == digits[i - first + k]);
                    }
                    lemma_number_of_grows(read, rest);
                }
            }
            return None;
        }
    }
    assert(digits.take(text.len() - first) =~= digits);
    if negative {
        Some((-value) as i32)
    } else if value > 2147483647 {
        None
    } else {
        Some(value as i32)
    }
}

/// The hours, on the 24-hour clock, and the minutes that a text such as `1:30 PM` writes.
pub fn parse_clock_time(time: &Vec<char>) -> (clock: Option<(i64, i64)>)
    ensures
        match clock {
            Some((hours, minutes)) => clock_time(time@) == Some((hours as int, minutes as int)),
            None => clock_time(time@) is None,
        },
{
    let parts = split_whitespace(time);
    if parts.len() != 2 {
        return None;
    }
    assert(words(time@)[0] == parts[0]@) by {
        assert(parts.deep_view()[0] =~= parts[0]@);
    }
    assert(words(time@)[1] == parts[1]@) by {
        assert(parts.deep_view()[1] =~= parts[1]@);
    }
    let time_components = split(&parts[0], ':');
    if time_components.len() != 2 {
        return None;
    }
    assert(split_on(parts[0]@, ':')[0] == time_components[0]@) by {
        assert(time_components.deep_view()[0] =~= time_components[0]@);
    }
    assert(split_on(parts[0]@, ':')[1] == time_components[1]@) by {
        assert(time_components.deep_view()[1] =~= time_components[1]@);
    }
    let hours: i32 = match parse_number(&time_components[0]) {
        Some(h) => h,
        None => {
            return None;
        },
    };
    let minutes: i32 = match parse_number(&time_components[1]) {
        Some(m) => m,
        None => {
            return None;
        },
    };
    proof {
        reveal_strlit("PM");
        reveal_strlit("AM");
    }
    let afternoon = chars_of("PM");
    let morning = chars_of("AM");
    assert(afternoon@ =~= seq!['P', 'M']);
    assert(morning@ =~= seq!['A', 'M']);
    let adjusted: i64 = if chars_eq_ignore_ascii_case(&parts[1], &afternoon) && hours != 12 {
        hours as i64 + 12
    } else if chars_eq_ignore_ascii_case(&parts[1], &morning) && hours == 12 {
        0
    } else {
        hours as i64
    };
    Some((adjusted, minutes as i64))
}

/// Reads a time of the 12-hour clock, such as `11:45 AM`, as an HHMM integer of the
/// 24-hour clock; -1 if the text writes no such time.
pub fn parse_time_component(time: &str) -> (hhmm: i32)
    ensures
        hhmm == time_component(time@),
{
    let chars = chars_of(time);
    parse_time_component_of(&chars)
}

/// Reads a time of the 12-hour clock as an HHMM integer of the 24-hour clock; -1 if the
/// text writes no such time.
pub fn parse_time_component_of(time: &Vec<char>) -> (hhmm: i32)
    ensures
        hhmm == time_component(time@),
{
    match parse_clock_time(time) {
        Some((hours, minutes)) => {
            let combined: i64 = hours * 100 + minutes;
            if combined < -2147483648 || combined > 2147483647 {
                UNREAD_TIME
            } else {
                combined as i32
            }
        },
        None => UNREAD_TIME,
    }
}

/// Reads a time range such as `10:15 AM - 11:30 AM` as its start and end.
pub fn parse_time_range(time_str: &Vec<char>) -> (range: (i32, i32))
    ensures
        range == time_range(time_str@),
{
    proof {
        reveal_strlit("<span class=\"inner_tbl_br\">");
        reveal_strlit("</span>");
        reveal_strlit("-");
    }
    let open = chars_of("<span class=\"inner_tbl_br\">");
    let close = chars_of("</span>");
    let hyphen = chars_of("-");
    assert(hyphen@ =~= seq!['-']);
    let outer = trim(time_str);
    let opened = remove_all(&outer, &open);
    let closed = remove_all(&opened, &close);
    let cleaned_time = trim(&closed);
    match find(&cleaned_time, &hyphen, 0) {
        Some(hyphen_pos) => {
            let start_time = trim(&slice_of(&cleaned_time, 0, hyphen_pos));
            let end_time = trim(&slice_of(&cleaned_time, hyphen_pos + 1, cleaned_time.len()));
            (parse_time_component_of(&start_time), parse_time_component_of(&end_time))
        },
        None => (UNREAD_TIME, UNREAD_TIME),
    }
}

/// The week of a section from the text of its meeting time and the weekdays on which
/// it meets: on each of those days the time range, on the others an inactive slot.
/// Without any text every slot is inactive.
pub fn convert_time(time_str: &str, days: [bool; 5]) -> (week: [WeeklyTimeSlot; 5])
    ensures
        week@ == week_of(time_str@, days@),
        forall|day: int| 0 <= day < 5 ==> is_weekly_slot(#[trigger] week@[day]),
        forall|day: int| 0 <= day < 5 ==> (#[trigger] week@[day]).1 == (days@[day] && trimmed(time_str@).len() > 0),
{
    let chars = chars_of(time_str);
    let given = trim(&chars).len() > 0;
    let range = if given {
        parse_time_range(&chars)
    } else {
        (UNREAD_TIME, UNREAD_TIME)
    };
    let off: WeeklyTimeSlot = ((UNREAD_TIME, UNREAD_TIME), false);
    let week = [
        if given && days[0] {
            (range, true)
        } else {
            off
        },
        if given && days[1] {
            (range, true)
        } else {
            off
        },
        if given && days[2] {
            (range, true)
        } else {
            off
        },
        if given && days[3] {
            (range, true)
        } else {
            off
        },
        if given && days[4] {
            (range, true)
        } else {
            off
        },
    ];
    assert(week@ =~= week_of(time_str@, days@));
    week
}

/// A number written in decimal reads back as itself.
pub proof fn lemma_decimal_reads_back(n: nat)
    ensures
        all_digits(decimal(n)),
        decimal(n).len() > 0,
        number_of(decimal(n)) == n,
        n <= i32::MAX ==> parsed_number(decimal(n)) == Some(n as i32),
    decreases n,
{
    if n < 10 {
        assert(decimal(n).drop_last() =~= Seq::<char>::empty());
        assert(number_of(decimal(n).drop_last()) == 0);
    } else {
        lemma_decimal_reads_back(n / 10);
        let shorter = decimal(n / 10);
        let digit = digit_char((n % 10) as int);
        assert(decimal(n).drop_last() =~= shorter);
        assert(decimal(n).last() == digit);
        assert forall|i: int| 0 <= i < decimal(n).len() implies is_digit(#[trigger] decimal(n)[i]) by {
            if i < shorter.len() {
                assert(decimal(n)[i] == shorter[i]);
            }
        }
    }
    assert(decimal(n)[0] != '+' && decimal(n)[0] != '-');
}

} // verus!
