//! Recorded times survive being read and written, in both directions.
use vstd::prelude::*;

use crate::bytes::field;
use crate::error::Failure;
use crate::hexcode::{hex_round_trip, hex_text};
use crate::iso9660::time::{
    all_digits, decimal_value, described_bytes, described_time, has_time_digits, has_time_marks,
    human_time, is_digit, no_time, offset_byte, offset_minutes, offset_of, offset_sign, place,
    place_byte, raw_prefix, raw_text, raw_time_bytes, recorded_bytes, recorded_time,
    recording_text, recording_time_bytes, recording_time_text, time_check, volume_text,
    volume_time_bytes, volume_time_text, with_hundredths, VolumeTime,
};
use crate::text::{has_prefix, utf8};

verus! {

/// Two written digits are read as the number they write.
proof fn two_digits(bytes: Seq<u8>, offset: int, value: int)
    requires
        0 <= offset,
        offset + 2 <= bytes.len(),
        0 <= value < 100,
        bytes[offset] == place_byte(value, 1),
        bytes[offset + 1] == place_byte(value, 0),
    ensures
        all_digits(field(bytes, offset, 2)),
        decimal_value(field(bytes, offset, 2)) == value,
{
    reveal(place);
    let part = field(bytes, offset, 2);
    assert(part[0] == bytes[offset] && part[1] == bytes[offset + 1]);
    reveal_with_fuel(decimal_value, 3);
    assert(part.drop_last()[0] == part[0]);
    assert(part.drop_last().drop_last() =~= Seq::empty());
}

/// Four written digits are read as the number they write.
proof fn four_digits(bytes: Seq<u8>, offset: int, value: int)
    requires
        0 <= offset,
        offset + 4 <= bytes.len(),
        0 <= value < 10000,
        bytes[offset] == place_byte(value, 3),
        bytes[offset + 1] == place_byte(value, 2),
        bytes[offset + 2] == place_byte(value, 1),
        bytes[offset + 3] == place_byte(value, 0),
    ensures
        all_digits(field(bytes, offset, 4)),
        decimal_value(field(bytes, offset, 4)) == value,
{
    reveal(place);
    let part = field(bytes, offset, 4);
    assert(part[0] == bytes[offset] && part[1] == bytes[offset + 1] && part[2] == bytes[offset + 2]
        && part[3] == bytes[offset + 3]);
    reveal_with_fuel(decimal_value, 5);
    let three = part.drop_last();
    let two = three.drop_last();
    let one = two.drop_last();
    assert(three[2] == part[2] && two[1] == part[1] && one[0] == part[0]);
    assert(one.drop_last() =~= Seq::empty());
}

/// Two digits are the digits of the number they write.
proof fn digits_of_two(bytes: Seq<u8>, offset: int)
    requires
        0 <= offset,
        offset + 2 <= bytes.len(),
        all_digits(field(bytes, offset, 2)),
    ensures
        ({
            let value = decimal_value(field(bytes, offset, 2));
            &&& 0 <= value < 100
            &&& place(value, 1) == bytes[offset] as char
            &&& place(value, 0) == bytes[offset + 1] as char
            &&& is_digit(bytes[offset])
            &&& is_digit(bytes[offset + 1])
        }),
{
    reveal(place);
    let part = field(bytes, offset, 2);
    assert(is_digit(part[0]) && is_digit(part[1]));
    reveal_with_fuel(decimal_value, 3);
    assert(part.drop_last()[0] == part[0]);
    assert(part.drop_last().drop_last() =~= Seq::empty());
}

/// Four digits are the digits of the number they write.
proof fn digits_of_four(bytes: Seq<u8>, offset: int)
    requires
        0 <= offset,
        offset + 4 <= bytes.len(),
        all_digits(field(bytes, offset, 4)),
    ensures
        ({
            let value = decimal_value(field(bytes, offset, 4));
            &&& 0 <= value < 10000
            &&& place(value, 3) == bytes[offset] as char
            &&& place(value, 2) == bytes[offset + 1] as char
            &&& place(value, 1) == bytes[offset + 2] as char
            &&& place(value, 0) == bytes[offset + 3] as char
            &&& is_digit(bytes[offset])
            &&& is_digit(bytes[offset + 1])
            &&& is_digit(bytes[offset + 2])
            &&& is_digit(bytes[offset + 3])
        }),
{
    reveal(place);
    let part = field(bytes, offset, 4);
    assert(is_digit(part[0]) && is_digit(part[1]) && is_digit(part[2]) && is_digit(part[3]));
    reveal_with_fuel(decimal_value, 5);
    let three = part.drop_last();
    let two = three.drop_last();
    let one = two.drop_last();
    assert(three[2] == part[2] && two[1] == part[1] && one[0] == part[0]);
    assert(one.drop_last() =~= Seq::empty());
}

/// Every character of a readable time is ASCII.
proof fn place_is_ascii(value: int, index: int)
    requires
        value >= 0,
    ensures
        48 <= place(value, index) as int <= 57,
        place(value, index) == place_byte(value, index) as char,
        is_digit(place_byte(value, index)),
{
    reveal(place);
}

/// The bytes of a readable time are read as that time.
proof fn human_of_text(bytes: Seq<u8>, time: VolumeTime)
    requires
        bytes.len() == 28,
        time_check(time) is Ok,
        time.year <= 9999,
        forall|i: int| 0 <= i < 28 ==> bytes[i] == #[trigger] volume_text(time)[i] as u8,
    ensures
        human_time(bytes) == Ok::<VolumeTime, Failure>(time),
{
    let text = volume_text(time);
    assert(text.len() == 28);
    assert forall|i: int| 0 <= i < 28 implies bytes[i] == text[i] as u8 by {}
    assert(bytes[0] == text[0] as u8 && bytes[1] == text[1] as u8 && bytes[2] == text[2] as u8
        && bytes[3] == text[3] as u8);
    four_digits(bytes, 0, time.year as int);
    assert(bytes[4] == text[4] as u8);
    assert(bytes[5] == text[5] as u8 && bytes[6] == text[6] as u8);
    two_digits(bytes, 5, time.month as int);
    assert(bytes[7] == text[7] as u8);
    assert(bytes[8] == text[8] as u8 && bytes[9] == text[9] as u8);
    two_digits(bytes, 8, time.day as int);
    assert(bytes[10] == text[10] as u8);
    assert(bytes[11] == text[11] as u8 && bytes[12] == text[12] as u8);
    two_digits(bytes, 11, time.hour as int);
    assert(bytes[13] == text[13] as u8);
    assert(bytes[14] == text[14] as u8 && bytes[15] == text[15] as u8);
    two_digits(bytes, 14, time.minute as int);
    assert(bytes[16] == text[16] as u8);
    assert(bytes[17] == text[17] as u8 && bytes[18] == text[18] as u8);
    two_digits(bytes, 17, time.second as int);
    assert(bytes[19] == text[19] as u8);
    assert(bytes[20] == text[20] as u8 && bytes[21] == text[21] as u8);
    two_digits(bytes, 20, time.centisecond as int);
    assert(bytes[22] == text[22] as u8);
    let minutes = offset_minutes(time.offset_quarters);
    assert(bytes[23] == text[23] as u8 && bytes[24] == text[24] as u8);
    two_digits(bytes, 23, minutes / 60);
    assert(bytes[25] == text[25] as u8);
    assert(bytes[26] == text[26] as u8 && bytes[27] == text[27] as u8);
    two_digits(bytes, 26, minutes % 60);
    assert(has_time_marks(bytes));
    assert(has_time_digits(bytes));
    assert(minutes / 60 * 60 + minutes % 60 == minutes);
}

/// The bytes that are read as a time are those of its readable form.
proof fn text_of_human(bytes: Seq<u8>, time: VolumeTime)
    requires
        human_time(bytes) == Ok::<VolumeTime, Failure>(time),
    ensures
        bytes.len() == 28,
        time.year <= 9999,
        time_check(time) is Ok,
        volume_text(time) == Seq::new(28, |i: int| bytes[i] as char),
        forall|i: int| 0 <= i < 28 ==> #[trigger] bytes[i] < 128,
{
    digits_of_four(bytes, 0);
    digits_of_two(bytes, 5);
    digits_of_two(bytes, 8);
    digits_of_two(bytes, 11);
    digits_of_two(bytes, 14);
    digits_of_two(bytes, 17);
    digits_of_two(bytes, 20);
    digits_of_two(bytes, 23);
    digits_of_two(bytes, 26);
    let hours = decimal_value(field(bytes, 23, 2));
    let minutes = decimal_value(field(bytes, 26, 2));
    assert(offset_minutes(time.offset_quarters) == hours * 60 + minutes);
    assert((hours * 60 + minutes) / 60 == hours && (hours * 60 + minutes) % 60 == minutes);
    assert(offset_sign(time.offset_quarters) == bytes[22] as char);
    let text = volume_text(time);
    let expected = Seq::new(28, |i: int| bytes[i] as char);
    assert(text[4] == expected[4] && text[7] == expected[7] && text[10] == expected[10] && text[13]
        == expected[13] && text[16] == expected[16] && text[19] == expected[19] && text[25]
        == expected[25]);
    assert(text =~= expected);
}

/// Text of bytes below 128 is written as those bytes.
pub proof fn ascii_bytes(text: Seq<char>)
    requires
        forall|i: int| 0 <= i < text.len() ==> 0 <= (#[trigger] text[i] as int) < 128,
    ensures
        vstd::utf8::is_ascii_chars(text),
        utf8(text).len() == text.len(),
        forall|i: int| 0 <= i < text.len() ==> #[trigger] utf8(text)[i] == text[i] as u8,
{
    assert forall|i: int| 0 <= i < text.len() implies '\0' <= #[trigger] text[i] <= '\u{7f}' by {
        assert(0 <= (text[i] as int) < 128);
    }
    vstd::utf8::is_ascii_chars_encode_utf8(text);
}

/// Bytes kept as they are come back as they were.
proof fn raw_round_trip(bytes: Seq<u8>, label: Seq<char>)
    ensures
        raw_time_bytes(raw_text(bytes), bytes.len() as int, label) == Ok::<Option<Seq<u8>>, Failure>(
            Some(bytes),
        ),
{
    let text = raw_text(bytes);
    assert(text.subrange(0, 4) =~= raw_prefix());
    assert(text.subrange(4, text.len() as int) =~= hex_text(bytes));
    hex_round_trip(bytes);
}

/// Only text that begins with the raw prefix keeps bytes as they are.
pub proof fn readable_is_not_raw(text: Seq<char>, count: int, label: Seq<char>)
    requires
        text.len() > 0,
        text[0] != 'h',
    ensures
        raw_time_bytes(text, count, label) == Ok::<Option<Seq<u8>>, Failure>(None),
{
    if has_prefix(text, raw_prefix()) {
        assert(text.subrange(0, 4)[0] == raw_prefix()[0]);
    }
}

/// The characters of a readable volume time are ASCII.
proof fn volume_text_is_ascii(time: VolumeTime)
    requires
        time_check(time) is Ok,
        time.year <= 9999,
    ensures
        forall|i: int| 0 <= i < 28 ==> 0 <= (#[trigger] volume_text(time)[i] as int) < 128,
        volume_text(time).len() == 28,
        volume_text(time)[0] != 'h',
{
    let minutes = offset_minutes(time.offset_quarters);
    assert forall|v: int, k: int| v >= 0 implies (#[trigger] place(v, k) as int) <= 57 && place(v, k)
        as int >= 48 by {
        place_is_ascii(v, k);
    }
    assert(minutes / 60 >= 0 && minutes % 60 >= 0);
}

/// The bytes of a directory time survive being read and written, whatever they are.
#[verifier::rlimit(40)]
pub proof fn recording_time_survives(bytes: Seq<u8>)
    requires
        bytes.len() == 7,
    ensures
        recording_time_bytes(recording_time_text(bytes)) == Ok::<Seq<u8>, Failure>(bytes),
{
    reveal(recording_time_bytes);
    let time = recorded_time(bytes);
    if time_check(time) is Ok {
        let text = recording_text(time);
        volume_text_is_ascii(time);
        let whole = volume_text(time);
        assert(text.len() == 25);
        assert forall|i: int| 0 <= i < 25 implies 0 <= (#[trigger] text[i] as int) < 128 by {
            assert(text[i] == whole[if i < 19 { i } else { i + 3 }]);
        }
        assert(text[0] == whole[0]);
        ascii_bytes(text);
        readable_is_not_raw(text, 7, "directory recording"@);
        let written = utf8(text);
        let expanded = with_hundredths(written);
        assert forall|i: int| 0 <= i < 28 implies expanded[i] == #[trigger] whole[i] as u8 by {
            if i < 19 {
                assert(written[i] == text[i] as u8);
            } else if i < 22 {
                reveal(place);
            } else {
                assert(written[i - 3] == text[i - 3] as u8);
            }
        }
        human_of_text(expanded, time);
        assert(written[19] == text[19] as u8);
        assert(recorded_bytes(time) =~= bytes);
    } else {
        raw_round_trip(bytes, "directory recording"@);
    }
}

/// The bytes of a volume time survive being read and written, whatever they are.
pub proof fn volume_time_survives(bytes: Seq<u8>)
    requires
        bytes.len() == 17,
    ensures
        volume_time_bytes(volume_time_text(bytes)) == Ok::<Seq<u8>, Failure>(bytes),
{
    reveal(volume_time_bytes);
    reveal(volume_time_text);
    let time = described_time(bytes);
    if bytes == no_time() {
    } else if all_digits(bytes.subrange(0, 16)) && time_check(time) is Ok {
        let digits = bytes.subrange(0, 16);
        assert forall|i: int| 0 <= i < 16 implies is_digit(#[trigger] bytes[i]) by {
            assert(is_digit(digits[i]));
        }
        digits_of_four(bytes, 0);
        digits_of_two(bytes, 4);
        digits_of_two(bytes, 6);
        digits_of_two(bytes, 8);
        digits_of_two(bytes, 10);
        digits_of_two(bytes, 12);
        digits_of_two(bytes, 14);
        let text = volume_text(time);
        volume_text_is_ascii(time);
        ascii_bytes(text);
        readable_is_not_raw(text, 17, "volume"@);
        human_of_text(utf8(text), time);
        assert(described_bytes(time) =~= bytes);
    } else {
        raw_round_trip(bytes, "volume"@);
    }
}

/// A readable directory time that can be written is read as it was.
pub proof fn recording_text_survives(text: Seq<char>, bytes: Seq<u8>)
    requires
        recording_time_bytes(text) == Ok::<Seq<u8>, Failure>(bytes),
        !has_prefix(text, raw_prefix()),
    ensures
        recording_time_text(bytes) == text,
{
    reveal(recording_time_bytes);
    let written = utf8(text);
    let expanded = with_hundredths(written);
    let time = human_time(expanded)->Ok_0;
    text_of_human(expanded, time);
    vstd::utf8::is_ascii_chars_encode_utf8(text);
    digits_of_two(expanded, 20);
    assert(expanded[20] == 48 && expanded[21] == 48);
    reveal(place);
    assert(time.centisecond == 0);
    assert(recorded_time(bytes) == time);
    let whole = volume_text(time);
    let short = recording_text(time);
    assert forall|i: int| 0 <= i < 25 implies short[i] == text[i] by {
        let j = if i < 19 {
            i
        } else {
            i + 3
        };
        assert(short[i] == whole[j]);
        assert(whole[j] == expanded[j] as char);
        assert(expanded[j] == written[i]);
        assert(text[i] as u8 == written[i]);
        assert('\0' <= text[i] <= '\u{7f}');
    }
    assert(short =~= text);
}

/// A readable volume time that can be written is read as it was.
pub proof fn volume_text_survives(text: Seq<char>, bytes: Seq<u8>)
    requires
        volume_time_bytes(Some(text)) == Ok::<Seq<u8>, Failure>(bytes),
        !has_prefix(text, raw_prefix()),
    ensures
        volume_time_text(bytes) == Some(text),
{
    reveal(volume_time_bytes);
    reveal(volume_time_text);
    let written = utf8(text);
    let time = human_time(written)->Ok_0;
    text_of_human(written, time);
    assert forall|i: int| 0 <= i < bytes.subrange(0, 16).len() implies is_digit(
        #[trigger] bytes.subrange(0, 16)[i],
    ) by {
        assert forall|v: int, k: int| v >= 0 implies is_digit(#[trigger] place_byte(v, k)) by {
            place_is_ascii(v, k);
        }
        assert(bytes.subrange(0, 16)[i] == bytes[i]);
    }
    four_digits(bytes, 0, time.year as int);
    two_digits(bytes, 4, time.month as int);
    two_digits(bytes, 6, time.day as int);
    two_digits(bytes, 8, time.hour as int);
    two_digits(bytes, 10, time.minute as int);
    two_digits(bytes, 12, time.second as int);
    two_digits(bytes, 14, time.centisecond as int);
    if bytes == no_time() {
        assert(bytes[4] == 48 && bytes[5] == 48);
        reveal(place);
        assert(time.month == 0);
    }
    assert(offset_of(offset_byte(time.offset_quarters)) == time.offset_quarters);
    assert(described_time(bytes) == time);
    let whole = volume_text(time);
    ascii_bytes(whole);
    assert(utf8(whole) =~= written);
    vstd::utf8::encode_utf8_decode_utf8(text);
    vstd::utf8::encode_utf8_decode_utf8(whole);
}

} // verus!
