//! Joliet text: identifiers and fixed fields in UCS-2.
use vstd::prelude::*;
use vstd::slice::slice_subrange;

use crate::bytes::{
    all_are, all_bytes_are, append_bytes, be16, be16_bytes, be16_round_trip, field, from_be16, put,
    put_bytes, read_be16,
};
use crate::error::{failure, Error, ErrorKind, Failure};
use crate::manifest::JolietLevel;
use crate::model::agrees;
use crate::text::{chars_of, trim_fixed, trimmed};

verus! {

/// The 16-bit units that bytes hold, most significant byte first.
pub open spec fn units_of(bytes: Seq<u8>) -> Seq<u16> {
    Seq::new(bytes.len() / 2, |i: int| from_be16(field(bytes, 2 * i, 2)))
}

/// The unit opens a surrogate pair.
pub open spec fn is_high_surrogate(unit: u16) -> bool {
    0xd800 <= unit < 0xdc00
}

/// The unit closes a surrogate pair.
pub open spec fn is_low_surrogate(unit: u16) -> bool {
    0xdc00 <= unit < 0xe000
}

/// The character that a surrogate pair stands for.
pub open spec fn paired(high: u16, low: u16) -> char {
    (0x1_0000 + (high - 0xd800) * 0x400 + (low - 0xdc00)) as char
}

/// `read`, and then the characters of the units from `index` on; nothing if a
/// surrogate stands alone.
pub open spec fn utf16_text_from(units: Seq<u16>, index: int, read: Seq<char>) -> Option<Seq<char>>
    decreases units.len() - index,
{
    if index < 0 || index >= units.len() {
        Some(read)
    } else if !is_high_surrogate(units[index]) && !is_low_surrogate(units[index]) {
        utf16_text_from(units, index + 1, read.push(units[index] as char))
    } else if is_high_surrogate(units[index]) && index + 1 < units.len() && is_low_surrogate(
        units[index + 1],
    ) {
        utf16_text_from(units, index + 2, read.push(paired(units[index], units[index + 1])))
    } else {
        None
    }
}

/// The text of a Joliet identifier.
pub open spec fn joliet_text(bytes: Seq<u8>) -> Result<Seq<char>, Failure> {
    if bytes.len() % 2 != 0 {
        Err(failure(ErrorKind::JolietOddLength))
    } else {
        match utf16_text_from(units_of(bytes), 0, Seq::empty()) {
            Some(text) => Ok(text),
            None => Err(failure(ErrorKind::JolietUtf16)),
        }
    }
}

fn read_units(bytes: &[u8]) -> (units: Vec<u16>)
    requires
        bytes.len() % 2 == 0,
    ensures
        units@ == units_of(bytes@),
{
    let mut units: Vec<u16> = Vec::new();
    let mut offset: usize = 0;
    while offset < bytes.len()
        invariant
            offset <= bytes.len(),
            offset % 2 == 0,
            bytes.len() % 2 == 0,
            units@ == units_of(bytes@).take(offset as int / 2),
        decreases bytes.len() - offset,
    {
        units.push(read_be16(bytes, offset));
        offset = offset + 2;
        assert(units@ =~= units_of(bytes@).take(offset as int / 2));
    }
    assert(units_of(bytes@).take(offset as int / 2) =~= units_of(bytes@));
    units
}

/// Reads a Joliet identifier.
pub fn decode_joliet_identifier(bytes: &[u8]) -> (result: Result<String, Error>)
    ensures
        agrees(result, joliet_text(bytes@)),
{
    if bytes.len() % 2 != 0 {
        return Err(Error::new(ErrorKind::JolietOddLength));
    }
    let units: Vec<u16> = read_units(bytes);
    let mut text: String = String::new();
    let mut i: usize = 0;
    while i < units.len()
        invariant
            i <= units.len(),
            bytes@.len() % 2 == 0,
            units@ == units_of(bytes@),
            utf16_text_from(units@, 0, Seq::empty()) == utf16_text_from(units@, i as int, text@),
        decreases units.len() - i,
    {
        let unit: u16 = units[i];
        let mut value: u32 = unit as u32;
        let mut used: usize = 1;
        if unit >= 0xd800 && unit < 0xe000 {
            if unit >= 0xdc00 || i + 1 >= units.len() || units[i + 1] < 0xdc00 || units[i + 1]
                >= 0xe000 {
                return Err(Error::new(ErrorKind::JolietUtf16));
            }
            value = 0x1_0000 + (unit as u32 - 0xd800) * 0x400 + (units[i + 1] as u32 - 0xdc00);
            used = 2;
        }
        match char::from_u32(value) {
            Some(character) => {
                proof {
                    vstd::utf8::char_u32_cast(character, value);
                }
                text.push(character);
            },
            None => {
                assert(vstd::utf8::is_scalar(value));
                return Err(Error::new(ErrorKind::JolietUtf16));
            },
        }
        i = i + used;
    }
    Ok(text)
}

/// Every character fits one 16-bit unit.
pub open spec fn is_ucs2(text: Seq<char>) -> bool {
    forall|i: int| 0 <= i < text.len() ==> (#[trigger] text[i] as u32) <= 0xffff
}

/// The bytes of a text in UCS-2, most significant byte first.
pub open spec fn ucs2_bytes(text: Seq<char>) -> Seq<u8> {
    Seq::new(2 * text.len(), |i: int| be16((text[i / 2] as u32) as u16)[i % 2])
}

/// The bytes of a Joliet identifier.
pub open spec fn joliet_identifier(text: Seq<char>) -> Result<Seq<u8>, Failure> {
    if !is_ucs2(text) {
        Err(failure(ErrorKind::JolietNotUcs2))
    } else if text.len() == 0 || 2 * text.len() > 128 {
        Err(failure(ErrorKind::JolietIdentifierLength))
    } else {
        Ok(ucs2_bytes(text))
    }
}

/// Writes a Joliet identifier.
pub fn encode_joliet_identifier(value: &str) -> (result: Result<Vec<u8>, Error>)
    ensures
        agrees(result, joliet_identifier(value@)),
{
    let characters: Vec<char> = chars_of(value);
    let mut bytes: Vec<u8> = Vec::new();
    let mut i: usize = 0;
    while i < characters.len()
        invariant
            i <= characters.len(),
            characters@ == value@,
            bytes@ == ucs2_bytes(value@.take(i as int)),
            is_ucs2(value@.take(i as int)),
        decreases characters.len() - i,
    {
        let character: char = characters[i];
        let unit: u32 = character as u32;
        if unit > 0xffff {
            assert(!is_ucs2(value@)) by {
                assert((value@[i as int] as u32) > 0xffff);
            }
            return Err(Error::new(ErrorKind::JolietNotUcs2));
        }
        append_bytes(&mut bytes, be16_bytes(unit as u16).as_slice());
        i = i + 1;
        proof {
            let longer = value@.take(i as int);
            assert forall|j: int| 0 <= j < longer.len() implies (#[trigger] longer[j] as u32)
                <= 0xffff by {
                if j < i - 1 {
                    assert(value@.take(i - 1)[j] as u32 <= 0xffff);
                }
            }
            assert(bytes@ =~= ucs2_bytes(longer)) by {
                assert forall|j: int| 0 <= j < 2 * i implies bytes@[j] == ucs2_bytes(longer)[j] by {
                    if j < 2 * (i - 1) {
                        assert(ucs2_bytes(value@.take(i - 1))[j] == ucs2_bytes(longer)[j]);
                    }
                }
            }
        }
    }
    assert(value@.take(characters.len() as int) =~= value@);
    if bytes.len() == 0 || bytes.len() > 128 {
        return Err(Error::new(ErrorKind::JolietIdentifierLength));
    }
    Ok(bytes)
}

/// The characters of a text in UCS-2 are read one by one.
pub proof fn ucs2_reads_back(text: Seq<char>, index: int)
    requires
        is_ucs2(text),
        0 <= index <= text.len(),
    ensures
        utf16_text_from(units_of(ucs2_bytes(text)), index, text.take(index)) == Some(text),
    decreases text.len() - index,
{
    let bytes = ucs2_bytes(text);
    let units = units_of(bytes);
    if index < text.len() {
        let character = text[index];
        let unit = character as u32;
        vstd::utf8::char_is_scalar(character);
        vstd::utf8::char_u32_cast(character, unit);
        assert(unit <= 0xffff);
        assert(units[index] == unit as u16) by {
            let pair = field(bytes, 2 * index, 2);
            assert(pair[0] == be16(unit as u16)[0]) by {
                assert((2 * index) / 2 == index && (2 * index) % 2 == 0);
            }
            assert(pair[1] == be16(unit as u16)[1]) by {
                assert((2 * index + 1) / 2 == index && (2 * index + 1) % 2 == 1);
            }
            assert(pair =~= be16(unit as u16));
            be16_round_trip(unit as u16);
        }
        assert(text.take(index).push(character) =~= text.take(index + 1));
        assert(units[index] as char == character);
        ucs2_reads_back(text, index + 1);
    } else {
        assert(text.take(index) =~= text);
    }
}

/// A Joliet identifier that is written is read as it was.
pub proof fn joliet_identifier_survives(text: Seq<char>, bytes: Seq<u8>)
    requires
        joliet_identifier(text) == Ok::<Seq<u8>, Failure>(bytes),
    ensures
        joliet_text(bytes) == Ok::<Seq<char>, Failure>(text),
{
    ucs2_reads_back(text, 0);
    assert(text.take(0) =~= Seq::empty());
}

/// A text is no longer than the units it is read from.
pub proof fn utf16_text_bound(units: Seq<u16>, index: int, read: Seq<char>)
    requires
        0 <= index <= units.len(),
        read.len() <= index,
    ensures
        utf16_text_from(units, index, read) matches Some(text) ==> text.len() <= units.len(),
    decreases units.len() - index,
{
    if index < units.len() {
        if !is_high_surrogate(units[index]) && !is_low_surrogate(units[index]) {
            utf16_text_bound(units, index + 1, read.push(units[index] as char));
        } else if index + 1 < units.len() {
            utf16_text_bound(units, index + 2, read.push(paired(units[index], units[index + 1])));
        }
    }
}

/// The text of a fixed Joliet field, without its padding.
pub open spec fn joliet_fixed_text(bytes: Seq<u8>, offset: int, length: int) -> Result<
    Seq<char>,
    Failure,
> {
    match joliet_text(field(bytes, offset, length / 2 * 2)) {
        Ok(text) => Ok(trimmed(text)),
        Err(failure) => Err(failure),
    }
}

/// Reads the text of a fixed Joliet field, without its padding.
pub fn read_joliet_fixed(bytes: &[u8], offset: usize, length: usize) -> (result: Result<String, Error>)
    requires
        offset + length <= bytes.len(),
    ensures
        agrees(result, joliet_fixed_text(bytes@, offset as int, length as int)),
{
    let part: &[u8] = slice_subrange(bytes, offset, offset + length / 2 * 2);
    match decode_joliet_identifier(part) {
        Ok(text) => Ok(trim_fixed(text.as_str())),
        Err(error) => Err(error),
    }
}

/// The units that fill a fixed Joliet field up.
pub open spec fn joliet_padding(length: int, zero: bool) -> Seq<u8> {
    Seq::new(
        length as nat,
        |i: int|
            if i % 2 == 0 || zero {
                0u8
            } else {
                32u8
            },
    )
}

/// The bytes of a text in a Joliet field: an empty text has none.
pub open spec fn joliet_field_text(text: Seq<char>) -> Result<Seq<u8>, Failure> {
    if text.len() == 0 {
        Ok(Seq::empty())
    } else {
        joliet_identifier(text)
    }
}

/// A fixed Joliet field: the text, its padding, and the odd byte of a field of
/// odd length.
#[verifier::opaque]
pub open spec fn joliet_field(
    text: Seq<char>,
    length: int,
    zero_fill_empty: bool,
    zero_pad: bool,
    odd_byte: Option<u8>,
) -> Result<Seq<u8>, Failure> {
    let capacity = length / 2 * 2;
    let zero = (text.len() == 0 && zero_fill_empty) || (text.len() != 0 && zero_pad);
    match joliet_field_text(text) {
        Err(failure) => Err(failure),
        Ok(encoded) => if encoded.len() > capacity {
            Err(failure(ErrorKind::JolietFixedLong))
        } else if length % 2 == 0 && odd_byte is Some {
            Err(failure(ErrorKind::JolietFixedOddByte))
        } else {
            Ok(
                encoded + joliet_padding(capacity - encoded.len(), zero) + (if length % 2 == 1 {
                    seq![
                        match odd_byte {
                            Some(byte) => byte,
                            None => 0u8,
                        },
                    ]
                } else {
                    Seq::empty()
                }),
            )
        },
    }
}

/// Makes a fixed Joliet field of a text.
pub fn joliet_field_bytes(
    length: usize,
    value: &str,
    zero_fill_empty: bool,
    zero_pad: bool,
    odd_byte: Option<u8>,
) -> (result: Result<Vec<u8>, Error>)
    ensures
        agrees(result, joliet_field(value@, length as int, zero_fill_empty, zero_pad, odd_byte)),
        result matches Ok(bytes) ==> bytes.len() == length,
{
    reveal(joliet_field);
    let mut bytes: Vec<u8> = if value.is_empty() {
        Vec::new()
    } else {
        match encode_joliet_identifier(value) {
            Ok(encoded) => encoded,
            Err(error) => return Err(error),
        }
    };
    let ghost encoded = bytes@;
    let capacity: usize = length / 2 * 2;
    if bytes.len() > capacity {
        return Err(Error::new(ErrorKind::JolietFixedLong));
    }
    if length % 2 == 0 && odd_byte.is_some() {
        return Err(Error::new(ErrorKind::JolietFixedOddByte));
    }
    let zero: bool = if value.is_empty() {
        zero_fill_empty
    } else {
        zero_pad
    };
    assert(encoded + joliet_padding(0, zero) =~= encoded);
    while bytes.len() < capacity
        invariant
            encoded.len() <= bytes.len() <= capacity,
            encoded.len() % 2 == 0,
            bytes@ == encoded + joliet_padding(bytes.len() - encoded.len(), zero),
        decreases capacity - bytes.len(),
    {
        let byte: u8 = if bytes.len() % 2 == 0 || zero {
            0
        } else {
            32
        };
        let ghost before = bytes.len() as int;
        bytes.push(byte);
        assert(bytes@ =~= encoded + joliet_padding(bytes.len() - encoded.len(), zero)) by {
            assert((before - encoded.len()) % 2 == before % 2);
        }
    }
    if length % 2 == 1 {
        let byte: u8 = match odd_byte {
            Some(byte) => byte,
            None => 0,
        };
        bytes.push(byte);
    }
    proof {
        let expected = joliet_field(value@, length as int, zero_fill_empty, zero_pad, odd_byte);
        assert(bytes@ =~= expected->Ok_0);
    }
    Ok(bytes)
}

/// Writes a text into a fixed Joliet field.
pub fn write_joliet_fixed(
    bytes: &mut Vec<u8>,
    offset: usize,
    length: usize,
    value: &str,
    zero_fill_empty: bool,
    zero_pad: bool,
    odd_byte: Option<u8>,
) -> (result: Result<(), Error>)
    requires
        offset + length <= old(bytes).len(),
    ensures
        match (
            result,
            joliet_field(value@, length as int, zero_fill_empty, zero_pad, odd_byte),
        ) {
            (Ok(_), Ok(data)) => final(bytes)@ == put(
                old(bytes)@,
                offset as int,
                data,
            ),
            (Err(error), Err(failure)) => error@ == failure && final(bytes)@ == old(bytes)@,
            _ => false,
        },
{
    match joliet_field_bytes(length, value, zero_fill_empty, zero_pad, odd_byte) {
        Ok(data) => {
            put_bytes(bytes, offset, data.as_slice());
            Ok(())
        },
        Err(error) => Err(error),
    }
}

/// The bytes that declare a Joliet level.
pub open spec fn level_bytes(level: JolietLevel) -> Seq<u8> {
    seq![
        37u8,
        47u8,
        match level {
            JolietLevel::Level1 => 64u8,
            JolietLevel::Level2 => 67u8,
            JolietLevel::Level3 => 69u8,
        },
    ]
}

/// Writes the bytes that declare a Joliet level.
pub fn joliet_escape_sequence(level: JolietLevel) -> (bytes: [u8; 3])
    ensures
        bytes@ == level_bytes(level),
{
    let bytes: [u8; 3] = [
        37u8,
        47u8,
        match level {
            JolietLevel::Level1 => 64u8,
            JolietLevel::Level2 => 67u8,
            JolietLevel::Level3 => 69u8,
        },
    ];
    assert(bytes@ =~= level_bytes(level));
    bytes
}

/// The level that an escape-sequence field declares.
pub open spec fn level_of(bytes: Seq<u8>) -> Result<JolietLevel, Failure> {
    if bytes.len() != 32 || !all_are(bytes.subrange(3, 32), 0) || bytes[0] != 37 || bytes[1] != 47 {
        Err(failure(ErrorKind::EscapeSequence))
    } else if bytes[2] == 64 {
        Ok(JolietLevel::Level1)
    } else if bytes[2] == 67 {
        Ok(JolietLevel::Level2)
    } else if bytes[2] == 69 {
        Ok(JolietLevel::Level3)
    } else {
        Err(failure(ErrorKind::EscapeSequence))
    }
}

/// Reads the level that an escape-sequence field declares.
pub fn parse_joliet_level(bytes: &[u8]) -> (result: Result<JolietLevel, Error>)
    ensures
        match (result, level_of(bytes@)) {
            (Ok(level), Ok(expected)) => level == expected,
            (Err(error), Err(failure)) => error@ == failure,
            _ => false,
        },
{
    if bytes.len() != 32 {
        return Err(Error::new(ErrorKind::EscapeSequence));
    }
    if !all_bytes_are(slice_subrange(bytes, 3, 32), 0) || bytes[0] != 37 || bytes[1]
        != 47 {
        return Err(Error::new(ErrorKind::EscapeSequence));
    }
    if bytes[2] == 64 {
        Ok(JolietLevel::Level1)
    } else if bytes[2] == 67 {
        Ok(JolietLevel::Level2)
    } else if bytes[2] == 69 {
        Ok(JolietLevel::Level3)
    } else {
        Err(Error::new(ErrorKind::EscapeSequence))
    }
}

/// The level that an escape-sequence field declares; an empty field has none.
pub open spec fn optional_level_of(bytes: Seq<u8>) -> Result<Option<JolietLevel>, Failure> {
    if all_are(bytes, 0) {
        Ok(None)
    } else {
        match level_of(bytes) {
            Ok(level) => Ok(Some(level)),
            Err(failure) => Err(failure),
        }
    }
}

/// Reads the level that an escape-sequence field declares, if it declares one.
pub fn parse_optional_joliet_level(bytes: &[u8]) -> (result: Result<Option<JolietLevel>, Error>)
    ensures
        match (result, optional_level_of(bytes@)) {
            (Ok(level), Ok(expected)) => level == expected,
            (Err(error), Err(failure)) => error@ == failure,
            _ => false,
        },
{
    if all_bytes_are(bytes, 0) {
        return Ok(None);
    }
    match parse_joliet_level(bytes) {
        Ok(level) => Ok(Some(level)),
        Err(error) => Err(error),
    }
}

/// The level that a written escape sequence declares is the level it was written for.
pub proof fn level_survives(level: JolietLevel, bytes: Seq<u8>)
    requires
        bytes.len() == 32,
        bytes.subrange(0, 3) == level_bytes(level),
        all_are(bytes.subrange(3, 32), 0),
    ensures
        level_of(bytes) == Ok::<JolietLevel, Failure>(level),
        optional_level_of(bytes) == Ok::<Option<JolietLevel>, Failure>(Some(level)),
{
    let start = bytes.subrange(0, 3);
    assert(start[0] == bytes[0] && start[1] == bytes[1] && start[2] == bytes[2]);
}

} // verus!
