//! What readable times are written as, digit by digit.
use vstd::prelude::*;

use crate::bytes::field;
use crate::iso9660::time::{
    all_digits, decimal_value, human_time, is_digit, offset_byte, place, place_byte,
    recording_time_bytes, time_check, volume_time_bytes, with_hundredths, VolumeTime,
};
use crate::iso9660::time_laws::{ascii_bytes, readable_is_not_raw};
use crate::text::utf8;

verus! {

/// The number that two characters spell.
pub open spec fn two_spell(text: Seq<char>, at: int) -> int {
    (text[at] as int - 48) * 10 + (text[at + 1] as int - 48)
}

/// A readable time of day, `HH:MM:SS`, stands in a text behind a day, `YYYY-MM-DDT`, and its
/// numbers are those of a day of the calendar and of a time of a day.
pub open spec fn spells_moment(text: Seq<char>) -> bool {
    let year = two_spell(text, 0) * 100 + two_spell(text, 2);
    let month = two_spell(text, 5);
    let day = two_spell(text, 8);
    &&& text[4] == '-' && text[7] == '-' && text[10] == 'T' && text[13] == ':' && text[16] == ':'
    &&& 1 <= month <= 12
    &&& 1 <= day <= 31
    &&& month == 4 || month == 6 || month == 9 || month == 11 ==> day <= 30
    &&& month == 2 ==> day <= 29
    &&& month == 2 && day == 29 ==> year % 4 == 0 && (year % 100 != 0 || year % 400 == 0)
    &&& two_spell(text, 11) <= 23
    &&& two_spell(text, 14) <= 59
    &&& two_spell(text, 17) <= 59
}

/// A readable offset from Greenwich, `+HH:MM`, stands in a text: a whole number of quarters
/// of an hour, from twelve hours behind to thirteen ahead.
pub open spec fn spells_offset(text: Seq<char>, at: int) -> bool {
    let minutes = two_spell(text, at + 1) * 60 + two_spell(text, at + 4);
    &&& text[at] == '+' || text[at] == '-'
    &&& text[at + 3] == ':'
    &&& two_spell(text, at + 4) < 60
    &&& minutes % 15 == 0
    &&& text[at] == '+' ==> minutes <= 780
    &&& text[at] == '-' ==> 0 < minutes <= 720
}

/// A byte is the number of quarters of an hour of an offset, in two's complement.
pub open spec fn is_offset_byte(byte: u8, text: Seq<char>, at: int) -> bool {
    let minutes = two_spell(text, at + 1) * 60 + two_spell(text, at + 4);
    if text[at] == '+' {
        byte * 15 == minutes
    } else {
        (256 - byte) * 15 == minutes
    }
}

/// What a readable volume time is, and the seventeen bytes that it is written as: its digits
/// one after the other, and the number of quarters of an hour of its offset.
#[verifier::rlimit(60)]
pub proof fn volume_time_is_spelled(text: Seq<char>)
    requires
        text.len() == 28,
        forall|i: int|
            0 <= i < 28 && i != 4 && i != 7 && i != 10 && i != 13 && i != 16 && i != 19 && i != 22
                && i != 25 ==> '0' <= #[trigger] text[i] <= '9',
        forall|i: int| 0 <= i < 28 ==> (#[trigger] text[i] as int) < 128,
    ensures
        volume_time_bytes(Some(text)) is Ok <==> spells_moment(text) && text[19] == '.'
            && spells_offset(text, 22),
        volume_time_bytes(Some(text)) matches Ok(bytes) ==> {
            &&& bytes.len() == 17
            &&& bytes[0] == text[0] as int && bytes[1] == text[1] as int && bytes[2]
                == text[2] as int && bytes[3] == text[3] as int
            &&& bytes[4] == text[5] as int && bytes[5] == text[6] as int
            &&& bytes[6] == text[8] as int && bytes[7] == text[9] as int
            &&& bytes[8] == text[11] as int && bytes[9] == text[12] as int
            &&& bytes[10] == text[14] as int && bytes[11] == text[15] as int
            &&& bytes[12] == text[17] as int && bytes[13] == text[18] as int
            &&& bytes[14] == text[20] as int && bytes[15] == text[21] as int
            &&& is_offset_byte(bytes[16], text, 22)
        },
{
    reveal(volume_time_bytes);
    let written = utf8(text);
    characters_are_bytes(text);
    assert('0' <= text[0] <= '9');
    readable_is_not_raw(text, 17, "volume"@);
    readable_is_taken(text, written);
    assert forall|i: int|
        0 <= i < 28 && i != 4 && i != 7 && i != 10 && i != 13 && i != 16 && i != 19 && i != 22 && i
            != 25 implies '0' <= #[trigger] text[i] <= '9' by {}
    if let Ok(time) = human_time(written) {
        assert('0' <= text[1] <= '9' && '0' <= text[2] <= '9' && '0' <= text[3] <= '9');
        assert('0' <= text[5] <= '9' && '0' <= text[6] <= '9' && '0' <= text[8] <= '9' && '0'
            <= text[9] <= '9');
        assert('0' <= text[11] <= '9' && '0' <= text[12] <= '9' && '0' <= text[14] <= '9' && '0'
            <= text[15] <= '9');
        assert('0' <= text[17] <= '9' && '0' <= text[18] <= '9' && '0' <= text[20] <= '9' && '0'
            <= text[21] <= '9');
        four_are_placed(text);
        two_are_placed(text, 5);
        two_are_placed(text, 8);
        two_are_placed(text, 11);
        two_are_placed(text, 14);
        two_are_placed(text, 17);
        two_are_placed(text, 20);
    }
}

proof fn two_are_placed(text: Seq<char>, at: int)
    requires
        '0' <= text[at] <= '9',
        '0' <= text[at + 1] <= '9',
    ensures
        place_byte(two_spell(text, at), 1) == text[at] as int,
        place_byte(two_spell(text, at), 0) == text[at + 1] as int,
{
    reveal(place);
    let tens = text[at] as int - 48;
    let ones = text[at + 1] as int - 48;
    assert((tens * 10 + ones) / 10 % 10 == tens && (tens * 10 + ones) % 10 == ones);
}

proof fn four_are_placed(text: Seq<char>)
    requires
        '0' <= text[0] <= '9',
        '0' <= text[1] <= '9',
        '0' <= text[2] <= '9',
        '0' <= text[3] <= '9',
    ensures
        ({
            let year = two_spell(text, 0) * 100 + two_spell(text, 2);
            &&& place_byte(year, 3) == text[0] as int
            &&& place_byte(year, 2) == text[1] as int
            &&& place_byte(year, 1) == text[2] as int
            &&& place_byte(year, 0) == text[3] as int
        }),
{
    reveal(place);
    let a = text[0] as int - 48;
    let b = text[1] as int - 48;
    let c = text[2] as int - 48;
    let d = text[3] as int - 48;
    let year = (a * 10 + b) * 100 + (c * 10 + d);
    assert(year / 1000 == a && year / 100 == a * 10 + b && year / 10 == a * 100 + b * 10 + c);
}

proof fn characters_are_bytes(text: Seq<char>)
    requires
        forall|i: int| 0 <= i < text.len() ==> (#[trigger] text[i] as int) < 128,
    ensures
        vstd::utf8::is_ascii_chars(text),
        utf8(text).len() == text.len(),
        forall|i: int|
            0 <= i < text.len() ==> #[trigger] utf8(text)[i] as int == text[i] as int,
{
    assert forall|i: int| 0 <= i < text.len() implies 0 <= (#[trigger] text[i] as int) < 128
        && text[i] as u8 == text[i] as int by {
        assert((text[i] as int) < 128);
        character_is_small(text[i]);
    }
    ascii_bytes(text);
    assert forall|i: int| 0 <= i < text.len() implies #[trigger] utf8(text)[i] as int
        == text[i] as int by {
        assert(utf8(text)[i] == text[i] as u8);
        assert(text[i] as u8 == text[i] as int);
    }
}

proof fn character_is_small(character: char)
    ensures
        0 <= character as int,
        (character as int) < 128 ==> character as u8 == character as int,
{
}

/// Two digits of a text are the number that they spell.
proof fn two_are_read(text: Seq<char>, bytes: Seq<u8>, at: int)
    requires
        0 <= at,
        at + 2 <= bytes.len(),
        at + 2 <= text.len(),
        bytes[at] as int == text[at] as int,
        bytes[at + 1] as int == text[at + 1] as int,
        '0' <= text[at] <= '9',
        '0' <= text[at + 1] <= '9',
    ensures
        all_digits(field(bytes, at, 2)),
        decimal_value(field(bytes, at, 2)) == two_spell(text, at),
        0 <= two_spell(text, at) < 100,
{
    let part = field(bytes, at, 2);
    assert(is_digit(part[0]) && is_digit(part[1]));
    reveal_with_fuel(decimal_value, 3);
    assert(part.drop_last()[0] == part[0]);
    assert(part.drop_last().drop_last() =~= Seq::empty());
}

proof fn four_are_read(text: Seq<char>, bytes: Seq<u8>)
    requires
        4 <= bytes.len(),
        4 <= text.len(),
        forall|i: int|
            0 <= i < 4 ==> #[trigger] bytes[i] as int == text[i] as int && '0' <= text[i] <= '9',
    ensures
        all_digits(field(bytes, 0, 4)),
        decimal_value(field(bytes, 0, 4)) == two_spell(text, 0) * 100 + two_spell(text, 2),
{
    let part = field(bytes, 0, 4);
    assert(bytes[0] as int == text[0] as int && bytes[1] as int == text[1] as int && bytes[2] as int
        == text[2] as int && bytes[3] as int == text[3] as int);
    assert(is_digit(part[0]) && is_digit(part[1]) && is_digit(part[2]) && is_digit(part[3]));
    reveal_with_fuel(decimal_value, 5);
    let three = part.drop_last();
    let two = three.drop_last();
    let one = two.drop_last();
    assert(three[2] == part[2] && two[1] == part[1] && one[0] == part[0]);
    assert(one.drop_last() =~= Seq::empty());
}

/// What the bytes of a readable time are taken as.
#[verifier::rlimit(60)]
proof fn readable_is_taken(text: Seq<char>, bytes: Seq<u8>)
    requires
        text.len() == 28,
        bytes.len() == 28,
        forall|i: int|
            0 <= i < 28 && i != 4 && i != 7 && i != 10 && i != 13 && i != 16 && i != 19 && i != 22
                && i != 25 ==> '0' <= #[trigger] text[i] <= '9',
        forall|i: int| 0 <= i < 28 ==> #[trigger] bytes[i] as int == text[i] as int,
    ensures
        human_time(bytes) is Ok <==> spells_moment(text) && text[19] == '.' && spells_offset(
            text,
            22,
        ),
        human_time(bytes) matches Ok(time) ==> {
            &&& time.year == two_spell(text, 0) * 100 + two_spell(text, 2)
            &&& time.month == two_spell(text, 5)
            &&& time.day == two_spell(text, 8)
            &&& time.hour == two_spell(text, 11)
            &&& time.minute == two_spell(text, 14)
            &&& time.second == two_spell(text, 17)
            &&& time.centisecond == two_spell(text, 20)
            &&& is_offset_byte(offset_byte(time.offset_quarters), text, 22)
        },
{
    assert forall|i: int| 0 <= i < 4 implies #[trigger] bytes[i] as int == text[i] as int && '0'
        <= text[i] <= '9' by {}
    four_are_read(text, bytes);
    assert('0' <= text[0] <= '9' && '0' <= text[1] <= '9' && '0' <= text[2] <= '9' && '0' <= text[3]
        <= '9');
    assert('0' <= text[5] <= '9' && '0' <= text[6] <= '9' && '0' <= text[8] <= '9' && '0' <= text[9]
        <= '9');
    assert('0' <= text[11] <= '9' && '0' <= text[12] <= '9' && '0' <= text[14] <= '9' && '0'
        <= text[15] <= '9');
    assert('0' <= text[17] <= '9' && '0' <= text[18] <= '9' && '0' <= text[20] <= '9' && '0'
        <= text[21] <= '9');
    assert('0' <= text[23] <= '9' && '0' <= text[24] <= '9' && '0' <= text[26] <= '9' && '0'
        <= text[27] <= '9');
    two_are_read(text, bytes, 5);
    two_are_read(text, bytes, 8);
    two_are_read(text, bytes, 11);
    two_are_read(text, bytes, 14);
    two_are_read(text, bytes, 17);
    two_are_read(text, bytes, 20);
    two_are_read(text, bytes, 23);
    two_are_read(text, bytes, 26);
    assert(bytes[4] as int == text[4] as int && bytes[7] as int == text[7] as int && bytes[10] as int
        == text[10] as int && bytes[13] as int == text[13] as int && bytes[16] as int
        == text[16] as int && bytes[19] as int == text[19] as int && bytes[22] as int
        == text[22] as int && bytes[25] as int == text[25] as int);
}

/// What a readable directory time is, and the seven bytes that it is written as: the years
/// since 1900, the month, the day, the hour, the minute, the second, and the number of
/// quarters of an hour of its offset.
#[verifier::rlimit(60)]
pub proof fn recording_time_is_spelled(text: Seq<char>)
    requires
        text.len() == 25,
        forall|i: int|
            0 <= i < 25 && i != 4 && i != 7 && i != 10 && i != 13 && i != 16 && i != 19 && i != 22
                ==> '0' <= #[trigger] text[i] <= '9',
        forall|i: int| 0 <= i < 25 ==> (#[trigger] text[i] as int) < 128,
    ensures
        ({
            let year = two_spell(text, 0) * 100 + two_spell(text, 2);
            &&& recording_time_bytes(text) is Ok <==> spells_moment(text) && spells_offset(text, 19)
                && 1900 <= year <= 2155
            &&& recording_time_bytes(text) matches Ok(bytes) ==> {
                &&& bytes.len() == 7
                &&& 1900 + bytes[0] == year
                &&& bytes[1] == two_spell(text, 5)
                &&& bytes[2] == two_spell(text, 8)
                &&& bytes[3] == two_spell(text, 11)
                &&& bytes[4] == two_spell(text, 14)
                &&& bytes[5] == two_spell(text, 17)
                &&& is_offset_byte(bytes[6], text, 19)
            }
        }),
{
    reveal(recording_time_bytes);
    let written = utf8(text);
    characters_are_bytes(text);
    assert('0' <= text[0] <= '9');
    readable_is_not_raw(text, 7, "directory recording"@);
    assert(written[19] as int == text[19] as int);
    let expanded = with_hundredths(written);
    let whole = text.subrange(0, 19) + seq!['.', '0', '0'] + text.subrange(19, 25);
    assert forall|i: int| 0 <= i < 28 implies #[trigger] expanded[i] as int == whole[i] as int by {
        if i < 19 {
            assert(whole[i] == text[i]);
            assert(written[i] as int == text[i] as int);
        } else if i >= 22 {
            assert(whole[i] == text[i - 3]);
            assert(written[i - 3] as int == text[i - 3] as int);
        }
    }
    assert forall|i: int|
        0 <= i < 28 && i != 4 && i != 7 && i != 10 && i != 13 && i != 16 && i != 19 && i != 22 && i
            != 25 implies '0' <= #[trigger] whole[i] <= '9' by {
        if i < 19 {
            assert(whole[i] == text[i]);
        } else if i >= 22 {
            assert(whole[i] == text[i - 3]);
        }
    }
    if written[19] == 43 || written[19] == 45 {
        readable_is_taken(whole, expanded);
    }
    assert(two_spell(whole, 0) == two_spell(text, 0) && two_spell(whole, 2) == two_spell(text, 2)
        && two_spell(whole, 5) == two_spell(text, 5) && two_spell(whole, 8) == two_spell(text, 8)
        && two_spell(whole, 11) == two_spell(text, 11) && two_spell(whole, 14) == two_spell(text, 14)
        && two_spell(whole, 17) == two_spell(text, 17) && two_spell(whole, 23) == two_spell(text, 20)
        && two_spell(whole, 26) == two_spell(text, 23));
    assert(whole[4] == text[4] && whole[7] == text[7] && whole[10] == text[10] && whole[13]
        == text[13] && whole[16] == text[16] && whole[19] == '.' && whole[22] == text[19]
        && whole[25] == text[22]);
}

/// The calendar: which fields make up a time.
pub proof fn times_are_of_the_calendar(time: VolumeTime)
    ensures
        time_check(time) is Ok <==> {
            &&& 1 <= time.month <= 12
            &&& 1 <= time.day <= 31
            &&& time.month == 4 || time.month == 6 || time.month == 9 || time.month == 11
                ==> time.day <= 30
            &&& time.month == 2 ==> time.day <= 29
            &&& time.month == 2 && time.day == 29 ==> time.year % 4 == 0 && (time.year % 100 != 0
                || time.year % 400 == 0)
            &&& time.hour <= 23
            &&& time.minute <= 59
            &&& time.second <= 59
            &&& time.centisecond <= 99
            &&& -48 <= time.offset_quarters <= 52
        },
{
}

/// A volume time that is not given is written as sixteen zero digits and a zero byte.
pub proof fn no_time_is_zeros()
    ensures
        volume_time_bytes(None) matches Ok(bytes) && bytes.len() == 17 && bytes[16] == 0 && forall|
            i: int,
        |
            0 <= i < 16 ==> #[trigger] bytes[i] == 48,
{
    reveal(volume_time_bytes);
}

} // verus!
