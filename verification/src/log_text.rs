//! Text that may be shown in a log: bounded and without control characters.

use crate::text::chars_of;
use vstd::prelude::*;
use vstd::utf8::{char_is_scalar, encode_scalar, encode_utf8};

verus! {

/// The control characters of Unicode: C0, DEL and C1.
pub open spec fn is_control_char(character: char) -> bool {
    (character as u32) < 0x20 || 0x7f <= character as u32 <= 0x9f
}

fn is_control(character: char) -> (control: bool)
    ensures
        control == is_control_char(character),
{
    (character as u32) < 0x20 || (0x7f <= character as u32 && character as u32 <= 0x9f)
}

/// A character as a log shows it: control characters become spaces.
pub open spec fn shown(character: char) -> char {
    if is_control_char(character) {
        ' '
    } else {
        character
    }
}

fn show(character: char) -> (result: char)
    ensures
        result == shown(character),
{
    if is_control(character) {
        ' '
    } else {
        character
    }
}

/// How many bytes a character takes in UTF-8.
pub open spec fn utf8_width(character: char) -> int {
    if (character as u32) < 0x80 {
        1
    } else if (character as u32) < 0x800 {
        2
    } else if (character as u32) < 0x1_0000 {
        3
    } else {
        4
    }
}

fn char_width(character: char) -> (width: usize)
    ensures
        width == utf8_width(character),
{
    if (character as u32) < 0x80 {
        1
    } else if (character as u32) < 0x800 {
        2
    } else if (character as u32) < 0x1_0000 {
        3
    } else {
        4
    }
}

/// At most 160 characters of a value, as a log shows them.
pub open spec fn log_value_text(value: Seq<char>) -> Seq<char> {
    value.map_values(|character: char| shown(character)).take(
        if value.len() < 160 {
            value.len() as int
        } else {
            160
        },
    )
}

pub fn log_value(value: &str) -> (text: String)
    ensures
        text@ == log_value_text(value@),
{
    let chars = chars_of(value);
    let mut text = String::new();
    let ghost all = value@.map_values(|character: char| shown(character));
    let mut i: usize = 0;
    while i < chars.len() && i < 160
        invariant
            chars@ == value@,
            i <= chars@.len(),
            i <= 160,
            all == value@.map_values(|character: char| shown(character)),
            text@ =~= all.take(i as int),
        decreases chars@.len() - i,
    {
        text.push(show(chars[i]));
        i += 1;
    }
    text
}

/// The longest beginning of a line that takes at most `room` bytes in UTF-8, as a log shows it.
pub open spec fn fitting(line: Seq<char>, room: int) -> Seq<char>
    decreases line.len(),
{
    if line.len() == 0 {
        Seq::empty()
    } else {
        let first = shown(line[0]);
        if utf8_width(first) > room {
            Seq::empty()
        } else {
            seq![first] + fitting(line.drop_first(), room - utf8_width(first))
        }
    }
}

/// A line of at most 1024 bytes without control characters.
pub fn sanitize_log_line(line: &String) -> (clean: String)
    ensures
        clean@ == fitting(line@, 1024),
{
    let chars = chars_of(line.as_str());
    let mut clean = String::new();
    let mut used: usize = 0;
    let mut i: usize = 0;
    proof {
        assert(line@.skip(0) =~= line@);
        assert(clean@ + fitting(line@, 1024) =~= fitting(line@, 1024));
    }
    while i < chars.len()
        invariant
            chars@ == line@,
            i <= chars@.len(),
            used <= 1024,
            fitting(line@, 1024) == clean@ + fitting(line@.skip(i as int), 1024 - used),
        decreases chars@.len() - i,
    {
        let character = show(chars[i]);
        let width: usize = char_width(character);
        proof {
            assert(line@.skip(i as int)[0] == line@[i as int]);
            assert(line@.skip(i as int).drop_first() =~= line@.skip(i + 1));
        }
        if used + width > 1024 {
            assert(clean@ + Seq::<char>::empty() =~= clean@);
            return clean;
        }
        let ghost before = clean@;
        clean.push(character);
        used = used + width;
        assert(before + (seq![character] + fitting(line@.skip(i + 1), 1024 - used)) =~= clean@
            + fitting(line@.skip(i + 1), 1024 - used));
        i += 1;
    }
    assert(fitting(line@.skip(i as int), 1024 - used) =~= Seq::<char>::empty());
    assert(clean@ + Seq::<char>::empty() =~= clean@);
    clean
}

/// A sanitized line never takes more bytes than its room, has no control character, and is a
/// beginning of the line it came from.
pub proof fn law_log_lines_are_bounded(line: Seq<char>, room: int)
    requires
        room >= 0,
    ensures
        encode_utf8(fitting(line, room)).len() <= room,
        fitting(line, room).len() <= line.len(),
        forall|i: int|
            0 <= i < fitting(line, room).len() ==> !is_control_char(
                #[trigger] fitting(line, room)[i],
            ) && fitting(line, room)[i] == shown(line[i]),
    decreases line.len(),
{
    let result = fitting(line, room);
    if result.len() > 0 {
        let first = shown(line[0]);
        let rest = fitting(line.drop_first(), room - utf8_width(first));
        law_log_lines_are_bounded(line.drop_first(), room - utf8_width(first));
        assert(result == seq![first] + rest);
        assert(result.drop_first() =~= rest);
        assert(result[0] == first);
        char_is_scalar(first);
        assert(encode_scalar(first as u32).len() == utf8_width(first));
        assert forall|i: int| 0 <= i < result.len() implies !is_control_char(
            #[trigger] result[i],
        ) && result[i] == shown(line[i]) by {
            if i > 0 {
                assert(result[i] == rest[i - 1]);
                assert(line.drop_first()[i - 1] == line[i]);
            }
        }
    }
}

/// A log shows the control characters, those below 0x20 and those from 0x7f to 0x9f, as spaces,
/// and every other character as it is.
pub proof fn law_characters_are_shown(character: char)
    ensures
        (character as u32) < 0x20 || 0x7f <= character as u32 <= 0x9f ==> shown(character) == ' ',
        0x20 <= character as u32 <= 0x7e || character as u32 >= 0xa0 ==> shown(character)
            == character,
{
}

/// A character takes as many bytes as its UTF-8 encoding has.
pub proof fn law_widths_are_those_of_utf8(character: char)
    ensures
        utf8_width(character) == encode_utf8(seq![character]).len(),
{
    char_is_scalar(character);
    assert(encode_scalar(character as u32).len() == utf8_width(character));
    assert(seq![character].drop_first() =~= Seq::empty());
    assert(encode_utf8(Seq::<char>::empty()).len() == 0);
}

/// A value is shown whole up to 160 characters, and by its first 160 beyond.
pub proof fn law_values_are_shown_up_to_their_limit(value: Seq<char>, at: int)
    ensures
        value.len() <= 160 ==> log_value_text(value).len() == value.len(),
        value.len() > 160 ==> log_value_text(value).len() == 160,
        0 <= at < value.len() && at < 160 ==> {
            let code = value[at] as u32;
            let control = code < 0x20 || 0x7f <= code <= 0x9f;
            &&& control ==> log_value_text(value)[at] == ' '
            &&& !control ==> log_value_text(value)[at] == value[at]
        },
{
}

/// A line is cut only where it must be: either all of it is shown, or its next character would
/// take the line beyond its room.
pub proof fn law_lines_are_cut_only_where_they_must_be(line: Seq<char>, room: int)
    requires
        room >= 0,
    ensures
        fitting(line, room).len() == line.len() || encode_utf8(
            fitting(line, room).push(shown(line[fitting(line, room).len() as int])),
        ).len() > room,
    decreases line.len(),
{
    let result = fitting(line, room);
    if line.len() > 0 {
        let first = shown(line[0]);
        char_is_scalar(first);
        assert(encode_scalar(first as u32).len() == utf8_width(first));
        if utf8_width(first) > room {
            assert(result.push(first).drop_first() =~= Seq::empty());
            assert(result.push(first)[0] == first);
        } else {
            let left = room - utf8_width(first);
            let rest = fitting(line.drop_first(), left);
            law_lines_are_cut_only_where_they_must_be(line.drop_first(), left);
            law_log_lines_are_bounded(line.drop_first(), left);
            assert(result == seq![first] + rest);
            if rest.len() < line.len() - 1 {
                let next = shown(line[result.len() as int]);
                assert(line.drop_first()[rest.len() as int] == line[result.len() as int]);
                assert(result.push(next).drop_first() =~= rest.push(next));
                assert(result.push(next)[0] == first);
            }
        }
    }
}

} // verus!
