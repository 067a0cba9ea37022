//! Small helpers on text.

use vstd::prelude::*;
use vstd::string::*;

verus! {

/// The lower-case form of an ASCII capital letter; any other character is left as it is.
pub open spec fn ascii_lower(c: char) -> char {
    if 'A' <= c && c <= 'Z' {
        ((c as u8) + 32) as char
    } else {
        c
    }
}

/// Two texts are equal but for the case of their ASCII letters.
pub open spec fn equal_ignoring_ascii_case(a: Seq<char>, b: Seq<char>) -> bool {
    &&& a.len() == b.len()
    &&& forall|i: int| 0 <= i < a.len() ==> ascii_lower(#[trigger] a[i]) == ascii_lower(b[i])
}

/// The characters of `s`, in order.
pub fn chars_of(s: &str) -> (chars: Vec<char>)
    ensures
        chars@ == s@,
{
    let mut chars: Vec<char> = Vec::new();
    for c in it: s.chars()
        invariant
            chars@ == it.seq().take(it.index()),
            it.seq() == s@,
    {
        chars.push(c);
        assert(it.seq().take(it.index() + 1) =~= it.seq().take(it.index()).push(c));
    }
    chars
}

/// The lower-case form of an ASCII capital letter; any other character is returned as it is.
pub fn to_ascii_lower(c: char) -> (lower: char)
    ensures
        lower == ascii_lower(c),
{
    if 'A' <= c && c <= 'Z' {
        let code: u8 = c as u8;
        (code + 32) as char
    } else {
        c
    }
}

/// Whether two texts are equal but for the case of their ASCII letters.
pub fn chars_eq_ignore_ascii_case(left: &Vec<char>, right: &Vec<char>) -> (same: bool)
    ensures
        same == equal_ignoring_ascii_case(left@, right@),
{
    if left.len() != right.len() {
        return false;
    }
    let mut i: usize = 0;
    while i < left.len()
        invariant
            i <= left.len(),
            left.len() == right.len(),
            forall|k: int| 0 <= k < i ==> ascii_lower(#[trigger] left@[k]) == ascii_lower(right@[k]),
        decreases left.len() - i,
    {
        if to_ascii_lower(left[i]) != to_ascii_lower(right[i]) {
            return false;
        }
        i += 1;
    }
    true
}

/// Whether two texts are equal but for the case of their ASCII letters.
pub fn eq_ignore_ascii_case(a: &str, b: &str) -> (same: bool)
    ensures
        same == equal_ignoring_ascii_case(a@, b@),
{
    let left = chars_of(a);
    let right = chars_of(b);
    chars_eq_ignore_ascii_case(&left, &right)
}

/// The text with its ASCII capital letters in lower case.
pub open spec fn lowered(text: Seq<char>) -> Seq<char> {
    Seq::new(text.len(), |i: int| ascii_lower(text[i]))
}

/// The text with its ASCII capital letters in lower case.
pub fn to_ascii_lowercase(text: &Vec<char>) -> (lower: Vec<char>)
    ensures
        lower@ == lowered(text@),
{
    let mut lower: Vec<char> = Vec::with_capacity(text.len());
    let mut i: usize = 0;
    while i < text.len()
        invariant
            i <= text.len(),
            lower.len() == i,
            forall|k: int| 0 <= k < i ==> lower@[k] == ascii_lower(text@[k]),
        decreases text.len() - i,
    {
        lower.push(to_ascii_lower(text[i]));
        i += 1;
    }
    assert(lower@ =~= lowered(text@));
    lower
}

/// The character of a decimal digit.
pub open spec fn digit_char(digit: int) -> char {
    if digit == 0 {
        '0'
    } else if digit == 1 {
        '1'
    } else if digit == 2 {
        '2'
    } else if digit == 3 {
        '3'
    } else if digit == 4 {
        '4'
    } else if digit == 5 {
        '5'
    } else if digit == 6 {
        '6'
    } else if digit == 7 {
        '7'
    } else if digit == 8 {
        '8'
    } else {
        '9'
    }
}

/// A natural number in decimal, without leading zeros; zero is `0`.
pub open spec fn decimal(n: nat) -> Seq<char>
    decreases n,
{
    if n < 10 {
        seq![digit_char(n as int)]
    } else {
        decimal(n / 10).push(digit_char((n % 10) as int))
    }
}

/// The text of one decimal digit.
pub fn digit_text(digit: i32) -> (text: &'static str)
    requires
        0 <= digit <= 9,
    ensures
        text@ == seq![digit_char(digit as int)],
{
    proof {
        reveal_strlit("0");
        reveal_strlit("1");
        reveal_strlit("2");
        reveal_strlit("3");
        reveal_strlit("4");
        reveal_strlit("5");
        reveal_strlit("6");
        reveal_strlit("7");
        reveal_strlit("8");
        reveal_strlit("9");
    }
    let text = if digit == 0 {
        "0"
    } else if digit == 1 {
        "1"
    } else if digit == 2 {
        "2"
    } else if digit == 3 {
        "3"
    } else if digit == 4 {
        "4"
    } else if digit == 5 {
        "5"
    } else if digit == 6 {
        "6"
    } else if digit == 7 {
        "7"
    } else if digit == 8 {
        "8"
    } else {
        "9"
    };
    assert(text@ =~= seq![digit_char(digit as int)]);
    text
}

/// A number in decimal, without leading zeros.
pub fn decimal_text(n: u64) -> (text: String)
    ensures
        text@ == decimal(n as nat),
    decreases n,
{
    if n < 10 {
        String::from_str(digit_text(n as i32))
    } else {
        let mut text = decimal_text(n / 10);
        text.append(digit_text((n % 10) as i32));
        assert(text@ =~= decimal(n as nat));
        text
    }
}

/// White space: the characters that Unicode gives the property `White_Space`.
pub open spec fn is_whitespace(c: char) -> bool {
    let code = c as u32;
    ||| 0x09 <= code <= 0x0D
    ||| code == 0x20
    ||| code == 0x85
    ||| code == 0xA0
    ||| code == 0x1680
    ||| 0x2000 <= code <= 0x200A
    ||| code == 0x2028
    ||| code == 0x2029
    ||| code == 0x202F
    ||| code == 0x205F
    ||| code == 0x3000
}

/// Whether the character is white space.
pub fn is_space(c: char) -> (space: bool)
    ensures
        space == is_whitespace(c),
{
    let code = c as u32;
    (0x09 <= code && code <= 0x0D) || code == 0x20 || code == 0x85 || code == 0xA0 || code == 0x1680 || (0x2000
        <= code && code <= 0x200A) || code == 0x2028 || code == 0x2029 || code == 0x202F || code == 0x205F || code
        == 0x3000
}

/// The first place from `from` on, before `to`, that holds no white space; `to` if there
/// is none.
pub open spec fn first_solid(text: Seq<char>, from: int, to: int) -> int
    decreases to - from,
{
    if 0 <= from < to <= text.len() && is_whitespace(text[from]) {
        first_solid(text, from + 1, to)
    } else {
        from
    }
}

/// The place behind the last character before `to`, not before `from`, that is no white
/// space; `from` if there is none.
pub open spec fn last_solid_end(text: Seq<char>, from: int, to: int) -> int
    decreases to - from,
{
    if 0 <= from < to <= text.len() && is_whitespace(text[to - 1]) {
        last_solid_end(text, from, to - 1)
    } else {
        to
    }
}

/// The text between the places `from` and `to` without the white space at its two ends.
pub open spec fn trimmed_range(text: Seq<char>, from: int, to: int) -> Seq<char> {
    let start = first_solid(text, from, to);
    text.subrange(start, last_solid_end(text, start, to))
}

/// The text without the white space at its two ends.
pub open spec fn trimmed(text: Seq<char>) -> Seq<char> {
    trimmed_range(text, 0, text.len() as int)
}

/// The pattern stands in the text at place `at`.
pub open spec fn occurs_at(text: Seq<char>, pattern: Seq<char>, at: int) -> bool {
    0 <= at && at + pattern.len() <= text.len() && text.subrange(at, at + pattern.len()) == pattern
}

/// The first place at or behind `from` at which the pattern stands in the text, if any.
pub open spec fn first_occurrence(text: Seq<char>, pattern: Seq<char>, from: int) -> Option<int>
    decreases text.len() - from + 1,
{
    if from < 0 || from + pattern.len() > text.len() {
        None
    } else if occurs_at(text, pattern, from) {
        Some(from)
    } else {
        first_occurrence(text, pattern, from + 1)
    }
}

/// The words of a text: its longest runs of characters that are not white space, in order.
pub open spec fn words(text: Seq<char>) -> Seq<Seq<char>>
    decreases text.len(),
{
    if text.len() == 0 {
        Seq::empty()
    } else {
        let before = words(text.drop_last());
        if is_whitespace(text.last()) {
            before
        } else if text.len() >= 2 && !is_whitespace(text[text.len() - 2]) && before.len() > 0 {
            before.drop_last().push(before.last().push(text.last()))
        } else {
            before.push(seq![text.last()])
        }
    }
}

/// The parts of a text between the occurrences of a separator, in order: one part more
/// than there are separators, so that a text without a separator is its own single part.
pub open spec fn split_on(text: Seq<char>, separator: char) -> Seq<Seq<char>>
    decreases text.len(),
{
    if text.len() == 0 {
        seq![Seq::empty()]
    } else {
        let before = split_on(text.drop_last(), separator);
        if text.last() == separator {
            before.push(Seq::empty())
        } else {
            before.drop_last().push(before.last().push(text.last()))
        }
    }
}

/// The text with every occurrence of the pattern from place `from` on taken out, going
/// from left to right; what is before `from` is not part of the result.
pub open spec fn without_from(text: Seq<char>, pattern: Seq<char>, from: int) -> Seq<char>
    decreases text.len() - from,
{
    if from < 0 || from >= text.len() {
        Seq::empty()
    } else if pattern.len() > 0 && occurs_at(text, pattern, from) {
        without_from(text, pattern, from + pattern.len())
    } else {
        seq![text[from]] + without_from(text, pattern, from + 1)
    }
}

/// The text with every occurrence of the pattern taken out, going from left to right.
pub open spec fn without(text: Seq<char>, pattern: Seq<char>) -> Seq<char> {
    without_from(text, pattern, 0)
}

/// The characters of the text from place `from` up to, not including, place `to`.
pub fn slice_of(text: &Vec<char>, from: usize, to: usize) -> (part: Vec<char>)
    requires
        from <= to <= text.len(),
    ensures
        part@ == text@.subrange(from as int, to as int),
{
    let mut part: Vec<char> = Vec::with_capacity(to - from);
    let mut i: usize = from;
    while i < to
        invariant
            from <= i <= to,
            to <= text.len(),
            part@ == text@.subrange(from as int, i as int),
        decreases to - i,
    {
        part.push(text[i]);
        assert(part@ =~= text@.subrange(from as int, i + 1));
        i += 1;
    }
    part
}

/// Where the text between the places `from` and `to` begins and ends once the white
/// space at its two ends is left out.
pub fn trim_bounds(text: &Vec<char>, from: usize, to: usize) -> (bounds: (usize, usize))
    requires
        from <= to <= text.len(),
    ensures
        from <= bounds.0 <= bounds.1 <= to,
        bounds.0 == first_solid(text@, from as int, to as int),
        bounds.1 == last_solid_end(text@, bounds.0 as int, to as int),
        text@.subrange(bounds.0 as int, bounds.1 as int) == trimmed_range(text@, from as int, to as int),
{
    let mut start: usize = from;
    while start < to && is_space(text[start])
        invariant
            from <= start <= to,
            to <= text.len(),
            first_solid(text@, start as int, to as int) == first_solid(text@, from as int, to as int),
        decreases to - start,
    {
        start += 1;
    }
    let mut end: usize = to;
    while end > start && is_space(text[end - 1])
        invariant
            start <= end <= to,
            to <= text.len(),
            last_solid_end(text@, start as int, end as int) == last_solid_end(text@, start as int, to as int),
        decreases end,
    {
        end -= 1;
    }
    (start, end)
}

/// The text without the white space at its two ends.
pub fn trim(text: &Vec<char>) -> (inner: Vec<char>)
    ensures
        inner@ == trimmed(text@),
{
    let (start, end) = trim_bounds(text, 0, text.len());
    slice_of(text, start, end)
}

/// Whether the pattern stands in the text at place `at`.
pub fn stands_at(text: &Vec<char>, pattern: &Vec<char>, at: usize) -> (found: bool)
    ensures
        found == occurs_at(text@, pattern@, at as int),
{
    if pattern.len() > text.len() || at > text.len() - pattern.len() {
        return false;
    }
    let mut k: usize = 0;
    while k < pattern.len()
        invariant
            k <= pattern.len(),
            at + pattern.len() <= text.len(),
            forall|j: int| 0 <= j < k ==> text@[at + j] == pattern@[j],
        decreases pattern.len() - k,
    {
        if text[at + k] != pattern[k] {
            assert(text@.subrange(at as int, at + pattern.len())[k as int] != pattern@[k as int]);
            return false;
        }
        k += 1;
    }
    assert(text@.subrange(at as int, at + pattern.len()) =~= pattern@);
    true
}

/// The first place at or behind `from` at which the pattern stands in the text, if any.
pub fn find(text: &Vec<char>, pattern: &Vec<char>, from: usize) -> (place: Option<usize>)
    ensures
        match place {
            Some(at) => first_occurrence(text@, pattern@, from as int) == Some(at as int) && from <= at
                && occurs_at(text@, pattern@, at as int),
            None => first_occurrence(text@, pattern@, from as int) is None,
        },
{
    if pattern.len() > text.len() {
        return None;
    }
    let last = text.len() - pattern.len();
    if from > last {
        return None;
    }
    let mut at: usize = from;
    loop
        invariant
            from <= at <= last,
            last == text.len() - pattern.len(),
            pattern.len() <= text.len(),
            first_occurrence(text@, pattern@, at as int) == first_occurrence(text@, pattern@, from as int),
        decreases last - at,
    {
        if stands_at(text, pattern, at) {
            return Some(at);
        }
        if at == last {
            assert(first_occurrence(text@, pattern@, at + 1) is None);
            return None;
        }
        at += 1;
    }
}

/// The words of a text.
pub fn split_whitespace(text: &Vec<char>) -> (found: Vec<Vec<char>>)
    ensures
        found.deep_view() == words(text@),
{
    let mut found: Vec<Vec<char>> = Vec::new();
    let mut i: usize = 0;
    assert(text@.take(0) =~= Seq::<char>::empty());
    while i < text.len()
        invariant
            i <= text.len(),
            found.deep_view() == words(text@.take(i as int)),
        decreases text.len() - i,
    {
        let c = text[i];
        let ghost before = found.deep_view();
        proof {
            assert(text@.take(i + 1).drop_last() =~= text@.take(i as int));
            assert(text@.take(i + 1).last() == c);
            if i > 0 {
                assert(text@.take(i + 1)[i - 1] == text@[i - 1]);
            }
        }
        if !is_space(c) {
            if i > 0 && !is_space(text[i - 1]) && found.len() > 0 {
                let last = found.len() - 1;
                found[last].push(c);
                assert(found.deep_view() =~~= before.drop_last().push(before.last().push(c)));
            } else {
                let mut word: Vec<char> = Vec::new();
                word.push(c);
                found.push(word);
                assert(found.deep_view() =~~= before.push(seq![c]));
            }
        }
        i += 1;
    }
    assert(text@.take(text.len() as int) =~= text@);
    found
}

/// The parts of a text between the occurrences of a separator.
pub fn split(text: &Vec<char>, separator: char) -> (parts: Vec<Vec<char>>)
    ensures
        parts.deep_view() == split_on(text@, separator),
{
    let mut parts: Vec<Vec<char>> = Vec::new();
    parts.push(Vec::new());
    let mut i: usize = 0;
    assert(text@.take(0) =~= Seq::<char>::empty());
    assert(parts.deep_view() =~~= seq![Seq::<char>::empty()]);
    while i < text.len()
        invariant
            i <= text.len(),
            parts.len() > 0,
            parts.deep_view() == split_on(text@.take(i as int), separator),
        decreases text.len() - i,
    {
        let c = text[i];
        let ghost before = parts.deep_view();
        proof {
            assert(text@.take(i + 1).drop_last() =~= text@.take(i as int));
            assert(text@.take(i + 1).last() == c);
        }
        if c == separator {
            parts.push(Vec::new());
            assert(parts.deep_view() =~~= before.push(Seq::<char>::empty()));
        } else {
            let last = parts.len() - 1;
            parts[last].push(c);
            assert(parts.deep_view() =~~= before.drop_last().push(before.last().push(c)));
        }
        i += 1;
    }
    assert(text@.take(text.len() as int) =~= text@);
    parts
}

/// The text with every occurrence of the pattern taken out, going from left to right.
pub fn remove_all(text: &Vec<char>, pattern: &Vec<char>) -> (rest: Vec<char>)
    ensures
        rest@ == without(text@, pattern@),
{
    let mut rest: Vec<char> = Vec::new();
    let mut i: usize = 0;
    while i < text.len()
        invariant
            i <= text.len(),
            rest@ + without_from(text@, pattern@, i as int) == without(text@, pattern@),
        decreases text.len() - i,
    {
        if pattern.len() > 0 && stands_at(text, pattern, i) {
            i += pattern.len();
        } else {
            let ghost before = rest@;
            rest.push(text[i]);
            assert(rest@ + without_from(text@, pattern@, i + 1) =~= before + without_from(
                text@,
                pattern@,
                i as int,
            ));
            i += 1;
        }
    }
    assert(rest@ + Seq::<char>::empty() =~= rest@);
    rest
}

/// The first occurrence is an occurrence, and the first: the pattern stands at no
/// earlier place from `from` on; and where there is no first occurrence, the pattern
/// stands nowhere from `from` on.
pub proof fn lemma_first_occurrence_is_first(text: Seq<char>, pattern: Seq<char>, from: int)
    requires
        0 <= from,
    ensures
        match first_occurrence(text, pattern, from) {
            Some(at) => from <= at && occurs_at(text, pattern, at) && forall|k: int|
                from <= k < at ==> !occurs_at(text, pattern, k),
            None => forall|k: int| from <= k ==> !occurs_at(text, pattern, k),
        },
    decreases text.len() - from + 1,
{
    if from + pattern.len() > text.len() {
    } else if occurs_at(text, pattern, from) {
    } else {
        lemma_first_occurrence_is_first(text, pattern, from + 1);
    }
}

/// Trimming drops white space and nothing else: what is left out at the two ends is
/// white space, and what stays neither begins nor ends with white space.
pub proof fn lemma_trimmed_range_is_tight(text: Seq<char>, from: int, to: int)
    requires
        0 <= from <= to <= text.len(),
    ensures
        from <= first_solid(text, from, to) <= last_solid_end(text, first_solid(text, from, to), to) <= to,
        forall|k: int| from <= k < first_solid(text, from, to) ==> is_whitespace(#[trigger] text[k]),
        forall|k: int|
            last_solid_end(text, first_solid(text, from, to), to) <= k < to ==> is_whitespace(#[trigger] text[k]),
        trimmed_range(text, from, to).len() > 0 ==> !is_whitespace(trimmed_range(text, from, to).first())
            && !is_whitespace(trimmed_range(text, from, to).last()),
{
    lemma_first_solid(text, from, to);
    let start = first_solid(text, from, to);
    lemma_last_solid_end(text, start, to);
}

proof fn lemma_first_solid(text: Seq<char>, from: int, to: int)
    requires
        0 <= from <= to <= text.len(),
    ensures
        from <= first_solid(text, from, to) <= to,
        forall|k: int| from <= k < first_solid(text, from, to) ==> is_whitespace(#[trigger] text[k]),
        first_solid(text, from, to) < to ==> !is_whitespace(text[first_solid(text, from, to)]),
    decreases to - from,
{
    if from < to && is_whitespace(text[from]) {
        lemma_first_solid(text, from + 1, to);
    }
}

proof fn lemma_last_solid_end(text: Seq<char>, from: int, to: int)
    requires
        0 <= from <= to <= text.len(),
    ensures
        from <= last_solid_end(text, from, to) <= to,
        forall|k: int| last_solid_end(text, from, to) <= k < to ==> is_whitespace(#[trigger] text[k]),
        from < last_solid_end(text, from, to) ==> !is_whitespace(text[last_solid_end(text, from, to) - 1]),
    decreases to - from,
{
    if from < to && is_whitespace(text[to - 1]) {
        lemma_last_solid_end(text, from, to - 1);
    }
}

/// Every word has a character, and none of its characters is white space.
pub proof fn lemma_words_are_solid(text: Seq<char>)
    ensures
        forall|w: int, k: int|
            0 <= w < words(text).len() && 0 <= k < words(text)[w].len() ==> !is_whitespace(
                #[trigger] words(text)[w][k],
            ),
        forall|w: int| 0 <= w < words(text).len() ==> (#[trigger] words(text)[w]).len() > 0,
    decreases text.len(),
{
    if text.len() > 0 {
        lemma_words_are_solid(text.drop_last());
        let before = words(text.drop_last());
        let now = words(text);
        let c = text.last();
        assert forall|w: int| 0 <= w < now.len() implies (#[trigger] now[w]).len() > 0 && forall|k: int|
            0 <= k < now[w].len() ==> !is_whitespace(#[trigger] now[w][k]) by {
            if is_whitespace(c) {
                assert(now[w] == before[w]);
            } else if text.len() >= 2 && !is_whitespace(text[text.len() - 2]) && before.len() > 0 {
                if w < before.len() - 1 {
                    assert(now[w] == before[w]);
                } else {
                    let last = before[before.len() - 1];
                    assert(now[w] == last.push(c));
                    assert forall|k: int| 0 <= k < now[w].len() implies !is_whitespace(#[trigger] now[w][k]) by {
                        if k < last.len() {
                            assert(now[w][k] == last[k]);
                        }
                    }
                }
            } else {
                if w < before.len() {
                    assert(now[w] == before[w]);
                } else {
                    assert(now[w] == seq![c]);
                }
            }
        }
    }
}

/// How often a character occurs in a text.
pub open spec fn count_of(text: Seq<char>, c: char) -> nat
    decreases text.len(),
{
    if text.len() == 0 {
        0
    } else if text.last() == c {
        count_of(text.drop_last(), c) + 1
    } else {
        count_of(text.drop_last(), c)
    }
}

/// Splitting gives one part more than the text has separators, and no part holds a
/// separator.
pub proof fn lemma_split_on_parts(text: Seq<char>, separator: char)
    ensures
        split_on(text, separator).len() == count_of(text, separator) + 1,
        forall|p: int, k: int|
            0 <= p < split_on(text, separator).len() && 0 <= k < split_on(text, separator)[p].len() ==> (
            #[trigger] split_on(text, separator)[p][k]) != separator,
    decreases text.len(),
{
    if text.len() > 0 {
        lemma_split_on_parts(text.drop_last(), separator);
    }
}

} // verus!
