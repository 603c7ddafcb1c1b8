//! Small text operations with exact contracts.

use vstd::prelude::*;
use vstd::utf8::encode_utf8_decode_utf8;

verus! {

/// `String::push` appends one character.
pub assume_specification[ String::push ](text: &mut String, character: char)
    ensures
        final(text)@ == old(text)@.push(character),
;

/// Compares two byte strings.
pub fn same_bytes(left: &[u8], right: &[u8]) -> (same: bool)
    ensures
        same == (left@ == right@),
{
    if left.len() != right.len() {
        return false;
    }
    let mut i: usize = 0;
    while i < left.len()
        invariant
            left@.len() == right@.len(),
            i <= left@.len(),
            forall|j: int| 0 <= j < i ==> left@[j] == right@[j],
        decreases left@.len() - i,
    {
        if left[i] != right[i] {
            assert(left@[i as int] != right@[i as int]);
            return false;
        }
        i += 1;
    }
    assert(left@ =~= right@);
    true
}

/// Appends bytes to others.
pub(crate) fn append_bytes(output: &mut Vec<u8>, bytes: &[u8])
    ensures
        final(output)@ == old(output)@ + bytes@,
{
    let ghost before = output@;
    let mut i: usize = 0;
    while i < bytes.len()
        invariant
            i <= bytes@.len(),
            output@ =~= before + bytes@.take(i as int),
        decreases bytes@.len() - i,
    {
        output.push(bytes[i]);
        i += 1;
    }
    assert(bytes@.take(bytes@.len() as int) =~= bytes@);
}

/// Compares two texts.
pub fn same_text(left: &str, right: &str) -> (same: bool)
    ensures
        same == (left@ == right@),
{
    proof {
        encode_utf8_decode_utf8(left@);
        encode_utf8_decode_utf8(right@);
    }
    same_bytes(left.as_bytes(), right.as_bytes())
}

/// The characters of a text.
pub fn chars_of(text: &str) -> (chars: Vec<char>)
    ensures
        chars@ == text@,
{
    let mut chars: Vec<char> = Vec::new();
    for character in iter: text.chars()
        invariant
            iter.seq() == text@,
            chars@ =~= text@.take(iter.index() as int),
    {
        chars.push(character);
    }
    assert(text@.take(text@.len() as int) =~= text@);
    chars
}

/// A character of the Unicode property `White_Space`.
pub open spec fn is_white(character: char) -> bool {
    let code = character as u32;
    0x09 <= code <= 0x0d || code == 0x20 || code == 0x85 || code == 0xa0 || code == 0x1680 || 0x2000
        <= code <= 0x200a || code == 0x2028 || code == 0x2029 || code == 0x202f || code == 0x205f
        || code == 0x3000
}

fn check_white(character: char) -> (white: bool)
    ensures
        white == is_white(character),
{
    let code: u32 = character as u32;
    (0x09 <= code && code <= 0x0d) || code == 0x20 || code == 0x85 || code == 0xa0 || code == 0x1680
        || (0x2000 <= code && code <= 0x200a) || code == 0x2028 || code == 0x2029 || code == 0x202f
        || code == 0x205f || code == 0x3000
}

/// A text without the white space before and behind it.
pub open spec fn trimmed(text: Seq<char>) -> Seq<char>
    decreases text.len(),
{
    if text.len() == 0 {
        text
    } else if is_white(text[0]) {
        trimmed(text.skip(1))
    } else if is_white(text.last()) {
        trimmed(text.drop_last())
    } else {
        text
    }
}

pub fn trim(text: &str) -> (inner: &str)
    ensures
        inner@ == trimmed(text@),
{
    let chars = chars_of(text);
    let mut start: usize = 0;
    let mut end: usize = chars.len();
    assert(text@.subrange(0, end as int) =~= text@);
    while start < end && check_white(chars[start])
        invariant
            chars@ == text@,
            start <= end == text@.len(),
            trimmed(text@.subrange(start as int, end as int)) == trimmed(text@),
        ensures
            start < end ==> !is_white(text@[start as int]),
        decreases end - start,
    {
        assert(text@.subrange(start as int, end as int).skip(1) =~= text@.subrange(
            start + 1,
            end as int,
        ));
        start += 1;
    }
    while start < end && check_white(chars[end - 1])
        invariant
            chars@ == text@,
            start <= end <= text@.len(),
            start < end ==> !is_white(text@[start as int]),
            trimmed(text@.subrange(start as int, end as int)) == trimmed(text@),
        ensures
            start < end ==> !is_white(text@[end - 1]),
        decreases end - start,
    {
        assert(text@.subrange(start as int, end as int).drop_last() =~= text@.subrange(
            start as int,
            end - 1,
        ));
        end -= 1;
    }
    text.substring_char(start, end)
}

pub open spec fn ascii_lower(character: char) -> char {
    if 'A' <= character <= 'Z' {
        ((character as u32 + 32) as u8) as char
    } else {
        character
    }
}

pub open spec fn lowered(text: Seq<char>) -> Seq<char> {
    text.map_values(|character: char| ascii_lower(character))
}

/// The text with its ASCII letters in lower case.
pub fn to_ascii_lowercase(text: &str) -> (lower: String)
    ensures
        lower@ == lowered(text@),
{
    let chars = chars_of(text);
    let mut lower = String::new();
    let mut i: usize = 0;
    while i < chars.len()
        invariant
            chars@ == text@,
            i <= chars@.len(),
            lower@ =~= lowered(text@.take(i as int)),
        decreases chars@.len() - i,
    {
        let character = chars[i];
        let changed = if 'A' <= character && character <= 'Z' {
            ((character as u32 + 32) as u8) as char
        } else {
            character
        };
        lower.push(changed);
        assert(text@.take(i + 1) =~= text@.take(i as int).push(character));
        i += 1;
    }
    assert(text@.take(text@.len() as int) =~= text@);
    lower
}

/// Compares two texts without regard to the case of ASCII letters.
pub fn eq_ignore_ascii_case(left: &str, right: &str) -> (same: bool)
    ensures
        same == (lowered(left@) == lowered(right@)),
{
    same_text(to_ascii_lowercase(left).as_str(), to_ascii_lowercase(right).as_str())
}

/// The position of the first occurrence of a character.
pub open spec fn first_index(text: Seq<char>, character: char) -> Option<int>
    decreases text.len(),
{
    if text.len() == 0 {
        None
    } else if text[0] == character {
        Some(0)
    } else {
        match first_index(text.drop_first(), character) {
            Some(i) => Some(i + 1),
            None => None,
        }
    }
}

proof fn lemma_first_index(text: Seq<char>, character: char, i: int)
    requires
        0 <= i <= text.len(),
        forall|j: int| 0 <= j < i ==> text[j] != character,
    ensures
        i < text.len() && text[i] == character ==> first_index(text, character) == Some(i),
        i == text.len() ==> first_index(text, character) is None,
    decreases i,
{
    if i > 0 {
        let rest = text.drop_first();
        assert forall|j: int| 0 <= j < i - 1 implies rest[j] != character by {
            assert(rest[j] == text[j + 1]);
        }
        lemma_first_index(rest, character, i - 1);
    }
}

/// The text before the first `/`, where there is one.
pub open spec fn before_slash(text: Seq<char>) -> Option<Seq<char>> {
    match first_index(text, '/') {
        Some(i) => Some(text.take(i)),
        None => None,
    }
}

/// Finds the first occurrence of a character.
fn find_char(text: &str, character: char) -> (at: Option<usize>)
    ensures
        match at {
            Some(at) => at < text@.len() && first_index(text@, character) == Some(at as int),
            None => first_index(text@, character) is None,
        },
{
    let chars = chars_of(text);
    let mut i: usize = 0;
    while i < chars.len() && chars[i] != character
        invariant
            chars@ == text@,
            i <= chars@.len(),
            forall|j: int| 0 <= j < i ==> text@[j] != character,
        decreases chars@.len() - i,
    {
        i += 1;
    }
    proof {
        lemma_first_index(text@, character, i as int);
    }
    if i == chars.len() {
        None
    } else {
        Some(i)
    }
}

/// The text before the first `/`, where there is one.
pub fn split_before_slash(text: &str) -> (head: Option<&str>)
    ensures
        match head {
            Some(head) => before_slash(text@) == Some(head@),
            None => before_slash(text@) is None,
        },
{
    match find_char(text, '/') {
        Some(at) => {
            let head = text.substring_char(0, at);
            assert(head@ =~= text@.take(at as int));
            Some(head)
        },
        None => None,
    }
}

/// The text before and after the first occurrence of a character.
pub open spec fn halves(text: Seq<char>, character: char) -> Option<(Seq<char>, Seq<char>)> {
    match first_index(text, character) {
        Some(at) => Some((text.take(at), text.skip(at + 1))),
        None => None,
    }
}

pub fn split_once(text: &str, character: char) -> (parts: Option<(&str, &str)>)
    ensures
        match parts {
            Some((head, tail)) => halves(text@, character) == Some((head@, tail@)),
            None => halves(text@, character) is None,
        },
{
    match find_char(text, character) {
        Some(at) => {
            let size: usize = text.unicode_len();
            let head = text.substring_char(0, at);
            let tail = text.substring_char(at + 1, size);
            assert(head@ =~= text@.take(at as int));
            assert(tail@ =~= text@.skip(at + 1));
            Some((head, tail))
        },
        None => None,
    }
}

pub open spec fn digit_value(character: char) -> Option<int> {
    if '0' <= character <= '9' {
        Some(character as u32 - '0' as u32)
    } else {
        None
    }
}

/// The number that a text of decimal digits denotes.
pub open spec fn digits_value(text: Seq<char>) -> Option<int>
    decreases text.len(),
{
    if text.len() == 0 {
        Some(0)
    } else {
        match (digits_value(text.drop_last()), digit_value(text.last())) {
            (Some(front), Some(digit)) => Some(front * 10 + digit),
            _ => None,
        }
    }
}

/// What a decimal number of at most `max` reads as: an optional `+`, then at least one digit.
pub open spec fn decimal_value(text: Seq<char>, max: int) -> Option<int> {
    let digits = if text.len() > 0 && text[0] == '+' {
        text.drop_first()
    } else {
        text
    };
    match digits_value(digits) {
        Some(value) => if digits.len() > 0 && value <= max {
            Some(value)
        } else {
            None
        },
        None => None,
    }
}

proof fn lemma_digits_grow(text: Seq<char>, i: int)
    requires
        0 <= i <= text.len(),
    ensures
        digits_value(text) matches Some(value) ==> (digits_value(text.take(i)) matches Some(front)
            && 0 <= front <= value),
    decreases text.len() - i,
{
    if i == text.len() {
        assert(text.take(i) =~= text);
        lemma_digits_nonnegative(text);
    } else {
        lemma_digits_grow(text, i + 1);
        assert(text.take(i + 1).drop_last() =~= text.take(i));
        lemma_digits_nonnegative(text.take(i));
    }
}

proof fn lemma_digits_nonnegative(text: Seq<char>)
    ensures
        digits_value(text) matches Some(value) ==> value >= 0,
    decreases text.len(),
{
    if text.len() > 0 {
        lemma_digits_nonnegative(text.drop_last());
    }
}

/// Reads a decimal number of at most `max`.
pub fn parse_decimal(text: &str, max: u64) -> (number: Option<u64>)
    requires
        max <= 0xffff_ffff,
    ensures
        match number {
            Some(number) => decimal_value(text@, max as int) == Some(number as int),
            None => decimal_value(text@, max as int) is None,
        },
{
    let chars = chars_of(text);
    let first: usize = if chars.len() > 0 && chars[0] == '+' {
        1
    } else {
        0
    };
    let ghost digits = text@.skip(first as int);
    assert(digits =~= if text@.len() > 0 && text@[0] == '+' {
        text@.drop_first()
    } else {
        text@
    });
    if first == chars.len() {
        return None;
    }
    let mut value: u64 = 0;
    let mut i: usize = first;
    while i < chars.len()
        invariant
            chars@ == text@,
            first <= i <= chars@.len(),
            first < chars@.len(),
            max <= 0xffff_ffff,
            value <= max,
            digits == text@.skip(first as int),
            digits =~= if text@.len() > 0 && text@[0] == '+' {
                text@.drop_first()
            } else {
                text@
            },
            digits_value(digits.take(i - first)) == Some(value as int),
        decreases chars@.len() - i,
    {
        let character = chars[i];
        proof {
            assert(digits.take(i - first + 1).drop_last() =~= digits.take(i - first));
            assert(digits.take(i - first + 1).last() == character);
            lemma_digits_grow(digits, i - first + 1);
        }
        if !('0' <= character && character <= '9') {
            return None;
        }
        let digit: u64 = (character as u32 - '0' as u32) as u64;
        value = value * 10 + digit;
        if value > max {
            return None;
        }
        i += 1;
    }
    assert(digits.take(i - first) =~= digits);
    Some(value)
}

pub open spec fn digit_char(digit: int) -> char {
    (('0' as u32 + digit) as u8) as char
}

/// The decimal text of a number.
pub open spec fn decimal_text(number: nat) -> Seq<char>
    decreases number,
{
    if number < 10 {
        seq![digit_char(number as int)]
    } else {
        decimal_text(number / 10).push(digit_char((number % 10) as int))
    }
}

/// Writes a number in decimal.
pub fn decimal(number: u64) -> (text: String)
    ensures
        text@ == decimal_text(number as nat),
    decreases number,
{
    let mut text = if number < 10 {
        String::new()
    } else {
        decimal(number / 10)
    };
    text.push(((48 + number % 10) as u8) as char);
    assert(number < 10 ==> text@ =~= decimal_text(number as nat));
    text
}

/// The decimal text of a number that may be negative.
pub open spec fn signed_text(number: int) -> Seq<char> {
    if number < 0 {
        "-"@ + decimal_text((-number) as nat)
    } else {
        decimal_text(number as nat)
    }
}

pub fn signed_decimal(number: i32) -> (text: String)
    ensures
        text@ == signed_text(number as int),
{
    if number < 0 {
        sentence_up_to("-", decimal((-(number as i64)) as u64).as_str())
    } else {
        decimal(number as u64)
    }
}

/// One text of a list; empty beyond its end.
pub open spec fn text_at(list: Seq<String>, index: int) -> Seq<char> {
    if 0 <= index < list.len() {
        list[index]@
    } else {
        ""@
    }
}

pub fn nth_text(list: &Vec<String>, index: usize) -> (text: &str)
    ensures
        text@ == text_at(list@, index as int),
{
    if index < list.len() {
        list[index].as_str()
    } else {
        ""
    }
}

/// A sentence that ends in a value.
pub fn sentence_up_to(head: &str, value: &str) -> (text: String)
    ensures
        text@ == head@ + value@,
{
    let mut text = head.to_owned();
    text.append(value);
    text
}

/// A sentence around one value.
pub fn sentence(head: &str, value: &str, tail: &str) -> (text: String)
    ensures
        text@ == head@ + value@ + tail@,
{
    let mut text = sentence_up_to(head, value);
    text.append(tail);
    text
}

/// A sentence around two values.
pub fn sentence_of_two(head: &str, first: &str, middle: &str, second: &str, tail: &str) -> (text:
    String)
    ensures
        text@ == head@ + first@ + middle@ + second@ + tail@,
{
    let mut text = sentence(head, first, middle);
    text.append(second);
    text.append(tail);
    text
}

/// Texts one after the other, with a separator between them.
pub open spec fn joined_texts(list: Seq<String>, separator: Seq<char>) -> Seq<char>
    decreases list.len(),
{
    if list.len() == 0 {
        ""@
    } else if list.len() == 1 {
        list[0]@
    } else {
        joined_texts(list.drop_last(), separator) + separator + list.last()@
    }
}

pub fn join_texts(list: &Vec<String>, separator: &str) -> (text: String)
    ensures
        text@ == joined_texts(list@, separator@),
{
    let mut text = "".to_owned();
    let mut i: usize = 0;
    assert(list@.take(0) =~= Seq::<String>::empty());
    while i < list.len()
        invariant
            i <= list@.len(),
            text@ == joined_texts(list@.take(i as int), separator@),
        decreases list@.len() - i,
    {
        assert(list@.take(i + 1).drop_last() =~= list@.take(i as int));
        assert(list@.take(i + 1).last() == list@[i as int]);
        if i == 0 {
            text = list[i].clone();
        } else {
            text.append(separator);
            text.append(list[i].as_str());
        }
        i += 1;
    }
    assert(list@.take(list@.len() as int) =~= list@);
    text
}

/// A text is cut at the first occurrence of a character, which is in neither part; where it does
/// not occur there is nothing to cut.
pub proof fn law_texts_are_cut_at_the_first_character(
    head: Seq<char>,
    character: char,
    tail: Seq<char>,
)
    requires
        forall|k: int| 0 <= k < head.len() ==> #[trigger] head[k] != character,
    ensures
        halves(head.push(character) + tail, character) == Some((head, tail)),
        halves(head, character) is None,
        character == '/' ==> before_slash(head.push(character) + tail) == Some(head),
        character == '/' ==> before_slash(head) is None,
{
    let whole = head.push(character) + tail;
    lemma_first_index(whole, character, head.len() as int);
    lemma_first_index(head, character, head.len() as int);
    assert(whole.take(head.len() as int) =~= head);
    assert(whole.skip(head.len() as int + 1) =~= tail);
}

proof fn lemma_decimal_digits(number: nat)
    ensures
        digits_value(decimal_text(number)) == Some(number as int),
        decimal_text(number).len() > 0,
        forall|i: int| 0 <= i < decimal_text(number).len() ==> '0' <= #[trigger] decimal_text(
            number,
        )[i] <= '9',
        number > 0 ==> decimal_text(number)[0] != '0',
        number == 0 ==> decimal_text(number) == seq!['0'],
    decreases number,
{
    let text = decimal_text(number);
    if number < 10 {
        assert(text.drop_last() =~= Seq::<char>::empty());
        assert(digits_value(Seq::<char>::empty()) == Some(0int));
    } else {
        lemma_decimal_digits(number / 10);
        assert(text.drop_last() =~= decimal_text(number / 10));
    }
}

/// A number is read back from the text that it is written as, wherever it is within the limit, with
/// or without a plus sign before it; beyond the limit nothing is read. The text has digits alone,
/// and none of them is an idle zero.
pub proof fn law_numbers_are_read_back(number: nat, max: int)
    ensures
        decimal_value(decimal_text(number), max) == if number <= max {
            Some(number as int)
        } else {
            None
        },
        decimal_value(seq!['+'] + decimal_text(number), max) == if number <= max {
            Some(number as int)
        } else {
            None
        },
        forall|i: int| 0 <= i < decimal_text(number).len() ==> '0' <= #[trigger] decimal_text(
            number,
        )[i] <= '9',
        decimal_text(number).len() > 1 ==> decimal_text(number)[0] != '0',
        decimal_text(number).len() > 0,
        signed_text(number as int) == decimal_text(number),
        number > 0 ==> signed_text(-(number as int)) == seq!['-'] + decimal_text(number),
{
    lemma_decimal_digits(number);
    let text = decimal_text(number);
    let signed = seq!['+'] + text;
    assert(signed.skip(1) =~= text);
    assert(signed.drop_first() =~= text);
    assert(text[0] != '+');
    reveal_strlit("-");
    assert("-"@ =~= seq!['-']);
}

/// Letters from A to Z are written small; nothing else changes, so texts that differ in the case of
/// such letters alone are the same.
pub proof fn law_lower_case(text: Seq<char>, i: int)
    requires
        0 <= i < text.len(),
    ensures
        lowered(text).len() == text.len(),
        lowered(lowered(text)) == lowered(text),
        'A' <= text[i] <= 'Z' ==> lowered(text)[i] as u32 == text[i] as u32 + 32,
        !('A' <= text[i] <= 'Z') ==> lowered(text)[i] == text[i],
{
    assert(lowered(lowered(text)) =~= lowered(text));
}

/// White space around a text is cut off, and the text itself stays whole.
pub proof fn law_white_space_is_cut_off(before: Seq<char>, text: Seq<char>, behind: Seq<char>)
    requires
        forall|i: int| 0 <= i < before.len() ==> is_white(#[trigger] before[i]),
        forall|i: int| 0 <= i < behind.len() ==> is_white(#[trigger] behind[i]),
        text.len() > 0 ==> !is_white(text[0]) && !is_white(text.last()),
    ensures
        trimmed(before + text + behind) == text,
        is_white(' ') && is_white('\t') && is_white('\n') && is_white('\r'),
        forall|c: char| '!' <= c <= '~' ==> !is_white(c),
    decreases before.len() + behind.len(),
{
    let whole = before + text + behind;
    if before.len() > 0 {
        assert(whole[0] == before[0]);
        assert(whole.skip(1) =~= before.skip(1) + text + behind);
        assert forall|i: int| 0 <= i < before.skip(1).len() implies is_white(
            #[trigger] before.skip(1)[i],
        ) by {
            assert(before.skip(1)[i] == before[i + 1]);
        }
        law_white_space_is_cut_off(before.skip(1), text, behind);
    } else if text.len() > 0 {
        assert(whole[0] == text[0]);
        if behind.len() > 0 {
            assert(whole.last() == behind.last());
            assert(behind[behind.len() - 1] == behind.last());
            assert(whole.drop_last() =~= before + text + behind.drop_last());
            law_white_space_is_cut_off(before, text, behind.drop_last());
        } else {
            assert(whole =~= text);
        }
    } else if behind.len() > 0 {
        assert(whole[0] == behind[0]);
        assert(whole.skip(1) =~= before + text + behind.skip(1));
        assert forall|i: int| 0 <= i < behind.skip(1).len() implies is_white(
            #[trigger] behind.skip(1)[i],
        ) by {
            assert(behind.skip(1)[i] == behind[i + 1]);
        }
        law_white_space_is_cut_off(before, text, behind.skip(1));
    } else {
        assert(whole =~= text);
    }
}

/// Joining puts the separator between texts, and nowhere else.
pub proof fn law_texts_are_joined(list: Seq<String>, next: String, separator: Seq<char>)
    ensures
        joined_texts(Seq::empty(), separator).len() == 0,
        list.len() == 0 ==> joined_texts(list.push(next), separator) == next@,
        list.len() > 0 ==> joined_texts(list.push(next), separator) == joined_texts(list, separator)
            + separator + next@,
{
    reveal_strlit("");
    assert(list.push(next).drop_last() =~= list);
}

/// Nothing is read from a text that has no digit, or a character that is none behind the sign; one
/// digit more counts ten times what stood before it and itself.
pub proof fn law_only_digits_are_read(text: Seq<char>, i: int, digit: char, max: int)
    ensures
        decimal_value(Seq::empty(), max) is None,
        decimal_value(seq!['+'], max) is None,
        0 < i < text.len() && !('0' <= text[i] <= '9') ==> decimal_value(text, max) is None,
        text.len() > 0 && !('0' <= text[0] <= '9') && text[0] != '+' ==> decimal_value(
            text,
            max,
        ) is None,
        decimal_value(text, max) is Some && '0' <= digit <= '9' ==> {
            let value = 10 * decimal_value(text, max)->Some_0 + (digit as u32 - '0' as u32);
            decimal_value(text.push(digit), max) == if value <= max {
                Some(value)
            } else {
                None
            }
        },
{
    let digits = if text.len() > 0 && text[0] == '+' {
        text.drop_first()
    } else {
        text
    };
    assert(seq!['+'].drop_first() =~= Seq::<char>::empty());
    if 0 < i < text.len() && !('0' <= text[i] <= '9') {
        let at = if text[0] == '+' {
            i - 1
        } else {
            i
        };
        assert(digits[at] == text[i]);
        lemma_digits_grow(digits, at + 1);
        assert(digits.take(at + 1).last() == digits[at]);
    }
    if text.len() > 0 && !('0' <= text[0] <= '9') && text[0] != '+' {
        lemma_digits_grow(digits, 1);
        assert(digits.take(1).last() == digits[0]);
    }
    if decimal_value(text, max) is Some {
        assert(text.len() > 0);
        let longer = text.push(digit);
        assert(longer[0] == text[0]);
        assert(text[0] == '+' ==> longer.drop_first() =~= digits.push(digit));
        assert(digits.push(digit).drop_last() =~= digits);
    }
}

} // verus!
