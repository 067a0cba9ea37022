//! How a section is written out on one line.

use vstd::prelude::*;
use vstd::string::*;
use crate::objects::{Class, ClassView, TimeBlock, TimeBlockView, WeeklyTimeSlot};
use crate::text::{decimal, decimal_text};

verus! {

/// `count` zeros.
pub open spec fn zeros(count: int) -> Seq<char>
    decreases count,
{
    if count <= 0 {
        Seq::empty()
    } else {
        zeros(count - 1).push('0')
    }
}

/// A number in at least four characters: padded with zeros behind its sign, so that 930
/// is `0930` and -1 is `-001`.
pub open spec fn padded(n: int) -> Seq<char> {
    if n < 0 {
        seq!['-'] + zeros(3 - decimal((-n) as nat).len()) + decimal((-n) as nat)
    } else {
        zeros(4 - decimal(n as nat).len()) + decimal(n as nat)
    }
}

/// One weekday of a section: `SSSS-EEEE ` with its start and end if it meets, ` NA ` if not.
pub open spec fn slot_text(slot: WeeklyTimeSlot) -> Seq<char> {
    if slot.1 {
        padded(slot.0.0 as int) + seq!['-'] + padded(slot.0.1 as int) + seq![' ']
    } else {
        " NA "@
    }
}

/// The first `count` weekdays of a week, one behind the other.
pub open spec fn week_text(days: Seq<WeeklyTimeSlot>, count: int) -> Seq<char>
    decreases count,
{
    if count <= 0 {
        Seq::empty()
    } else {
        week_text(days, count - 1) + slot_text(days[count - 1])
    }
}

/// One meeting pattern: its section name, its week in square brackets, where it meets
/// and with whom.
pub open spec fn block_text(block: TimeBlockView) -> Seq<char> {
    block.section + ", ["@ + week_text(block.days, 5) + "], "@ + block.location + ", "@ + block.instructor
}

/// The first `count` meeting patterns of a section, with ` & ` between one and the next.
pub open spec fn blocks_text(blocks: Seq<TimeBlockView>, count: int) -> Seq<char>
    decreases count,
{
    if count <= 0 {
        Seq::empty()
    } else if count == 1 {
        block_text(blocks[0])
    } else {
        blocks_text(blocks, count - 1) + " & "@ + block_text(blocks[count - 1])
    }
}

/// A section on one line: `CODE, NAME, <PATTERNS>, DESCRIPTION`.
pub open spec fn class_text(class: ClassView) -> Seq<char> {
    class.code + ", "@ + class.name + ", <"@ + blocks_text(class.classes, class.classes.len() as int) + ">, "@
        + class.description
}

/// Appends a number in at least four characters, padded with zeros behind its sign.
fn append_padded(text: &mut String, n: i32)
    ensures
        final(text)@ == old(text)@ + padded(n as int),
{
    let ghost start = text@;
    let width: usize = if n < 0 {
        text.append("-");
        3
    } else {
        4
    };
    proof {
        reveal_strlit("-");
        assert("-"@ =~= seq!['-']);
    }
    let magnitude: u64 = if n < 0 {
        (-(n as i64)) as u64
    } else {
        n as u64
    };
    let digits = decimal_text(magnitude);
    let ghost sign = text@;
    let length = digits.as_str().unicode_len();
    let missing: usize = if length < width {
        width - length
    } else {
        0
    };
    let mut written: usize = 0;
    assert(zeros(0) =~= Seq::<char>::empty());
    while written < missing
        invariant
            written <= missing,
            text@ == sign + zeros(written as int),
        decreases missing - written,
    {
        proof {
            reveal_strlit("0");
            assert("0"@ =~= seq!['0']);
        }
        text.append("0");
        written += 1;
        assert(text@ =~= sign + zeros(written as int));
    }
    assert(zeros(width - length) == zeros(missing as int));
    text.append(digits.as_str());
    assert(text@ =~= start + padded(n as int));
}

/// Appends one weekday of a section.
fn append_slot(text: &mut String, slot: WeeklyTimeSlot)
    ensures
        final(text)@ == old(text)@ + slot_text(slot),
{
    let ghost start = text@;
    if slot.1 {
        proof {
            reveal_strlit("-");
            reveal_strlit(" ");
            assert("-"@ =~= seq!['-']);
            assert(" "@ =~= seq![' ']);
        }
        append_padded(text, slot.0.0);
        text.append("-");
        append_padded(text, slot.0.1);
        text.append(" ");
        assert(text@ =~= start + slot_text(slot));
    } else {
        text.append(" NA ");
    }
}

/// Appends one meeting pattern.
fn append_block(text: &mut String, block: &TimeBlock)
    ensures
        final(text)@ == old(text)@ + block_text(block@),
{
    let ghost start = text@;
    text.append(block.section.as_str());
    text.append(", [");
    let ghost opened = text@;
    let mut day: usize = 0;
    assert(week_text(block@.days, 0) =~= Seq::<char>::empty());
    while day < 5
        invariant
            day <= 5,
            text@ == opened + week_text(block@.days, day as int),
        decreases 5 - day,
    {
        append_slot(text, block.days[day]);
        day += 1;
        assert(text@ =~= opened + week_text(block@.days, day as int));
    }
    text.append("], ");
    text.append(block.location.as_str());
    text.append(", ");
    text.append(block.instructor.as_str());
    assert(text@ =~= start + block_text(block@));
}

impl Class {
    /// The section on one line: its course, each of its meeting patterns with its week,
    /// and its description.
    pub fn to_string(&self) -> (text: String)
        ensures
            text@ == class_text(self@),
    {
        let mut text = self.code.clone();
        text.append(", ");
        text.append(self.name.as_str());
        text.append(", <");
        let ghost opened = text@;
        let mut idx: usize = 0;
        while idx < self.classes.len()
            invariant
                idx <= self.classes.len(),
                text@ == opened + blocks_text(self@.classes, idx as int),
            decreases self.classes.len() - idx,
        {
            assert(self@.classes[idx as int] == self.classes[idx as int]@);
            let ghost before = text@;
            if idx != 0 {
                text.append(" & ");
            }
            append_block(&mut text, &self.classes[idx]);
            idx += 1;
            assert(text@ =~= opened + blocks_text(self@.classes, idx as int));
        }
        text.append(">, ");
        text.append(self.description.as_str());
        assert(text@ =~= class_text(self@));
        text
    }
}

} // verus!
