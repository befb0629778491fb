//! Times of a track: minutes, seconds and frames in binary-coded decimal.
use vstd::prelude::*;

use crate::error::{failure, failure_at, Error, ErrorKind, Failure};
use crate::hexcode::{encode, hex_digit};
use crate::model::{agrees, views};
use crate::text::{
    all_digits, chars_of, digit_value, last_index_of_unique, number_value, parse_byte, parsed_byte,
    split, split_at, split_last, unsigned,
};

verus! {

/// Both digits of a byte are decimal.
pub open spec fn is_bcd(value: u8) -> bool {
    value / 16 <= 9 && value % 16 <= 9
}

/// The number that the two digits of a byte spell.
pub open spec fn bcd_value(value: u8) -> int {
    value / 16 * 10 + value % 16
}

/// The byte whose two digits spell a number.
pub open spec fn bcd(value: int) -> u8 {
    (value / 10 * 16 + value % 10) as u8
}

/// Reads a number out of the two digits of a byte.
pub fn from_bcd(value: u8) -> (result: Result<u8, Error>)
    ensures
        match result {
            Ok(number) => is_bcd(value) && number == bcd_value(value),
            Err(error) => !is_bcd(value) && error@ == failure_at(ErrorKind::InvalidBcd, value as int),
        },
{
    let high: u8 = value / 16;
    let low: u8 = value % 16;
    if high > 9 || low > 9 {
        return Err(Error::at(ErrorKind::InvalidBcd, value as u64));
    }
    Ok(high * 10 + low)
}

/// Writes a number as the two digits of a byte. Of the tens of a number that has more than
/// two digits, no more than fit in half a byte are kept.
pub fn to_bcd(value: u8) -> (byte: u8)
    ensures
        byte == value / 10 % 16 * 16 + value % 10,
        value <= 99 ==> byte == bcd(value as int),
{
    value / 10 % 16 * 16 + value % 10
}

/// The frame that a time names.
pub open spec fn frame_of(msf: Seq<u8>) -> Result<u32, Failure> {
    if !is_bcd(msf[0]) {
        Err(failure_at(ErrorKind::InvalidBcd, msf[0] as int))
    } else if !is_bcd(msf[1]) {
        Err(failure_at(ErrorKind::InvalidBcd, msf[1] as int))
    } else if !is_bcd(msf[2]) {
        Err(failure_at(ErrorKind::InvalidBcd, msf[2] as int))
    } else if bcd_value(msf[1]) >= 60 || bcd_value(msf[2]) >= 75 {
        Err(failure(ErrorKind::InvalidMsf))
    } else {
        Ok((bcd_value(msf[0]) * 4500 + bcd_value(msf[1]) * 75 + bcd_value(msf[2])) as u32)
    }
}

/// The time of a frame.
pub open spec fn msf_of(frame: u32) -> Result<Seq<u8>, Failure> {
    if frame / 4500 > 99 {
        Err(failure(ErrorKind::MsfRange))
    } else {
        Ok(
            seq![
                bcd((frame / 4500) as int),
                bcd((frame / 75 % 60) as int),
                bcd((frame % 75) as int),
            ],
        )
    }
}

/// Finds the frame that a time names.
pub fn msf_to_frame(msf: [u8; 3]) -> (result: Result<u32, Error>)
    ensures
        agrees(result, frame_of(msf@)),
{
    let minute: u8 = match from_bcd(msf[0]) {
        Ok(value) => value,
        Err(error) => return Err(error),
    };
    let second: u8 = match from_bcd(msf[1]) {
        Ok(value) => value,
        Err(error) => return Err(error),
    };
    let frame: u8 = match from_bcd(msf[2]) {
        Ok(value) => value,
        Err(error) => return Err(error),
    };
    if second >= 60 || frame >= 75 {
        return Err(Error::new(ErrorKind::InvalidMsf));
    }
    Ok(minute as u32 * 4500 + second as u32 * 75 + frame as u32)
}

/// Finds the time of a frame.
pub fn frame_to_msf(value: u32) -> (result: Result<[u8; 3], Error>)
    ensures
        agrees(result, msf_of(value)),
{
    let minute: u32 = value / 4500;
    if minute > 99 {
        return Err(Error::new(ErrorKind::MsfRange));
    }
    let msf: [u8; 3] = [
        to_bcd(minute as u8),
        to_bcd((value / 75 % 60) as u8),
        to_bcd((value % 75) as u8),
    ];
    assert(msf@ =~= msf_of(value)->Ok_0);
    Ok(msf)
}

/// The time of a frame names that frame.
pub proof fn frame_survives(frame: u32, msf: Seq<u8>)
    requires
        msf_of(frame) == Ok::<Seq<u8>, Failure>(msf),
    ensures
        frame_of(msf) == Ok::<u32, Failure>(frame),
{
}

/// A frame has the time that names it.
pub proof fn msf_survives(msf: Seq<u8>, frame: u32)
    requires
        msf.len() == 3,
        frame_of(msf) == Ok::<u32, Failure>(frame),
    ensures
        msf_of(frame) == Ok::<Seq<u8>, Failure>(msf),
{
    bcd_survives(msf[0]);
    bcd_survives(msf[1]);
    bcd_survives(msf[2]);
    frame_splits(bcd_value(msf[0]), bcd_value(msf[1]), bcd_value(msf[2]), frame as int);
    assert(msf_of(frame)->Ok_0 =~= msf);
}

/// A byte is that whose digits spell its number.
proof fn bcd_survives(value: u8)
    requires
        is_bcd(value),
    ensures
        bcd(bcd_value(value)) == value,
        0 <= bcd_value(value) <= 99,
{
}

/// A frame number splits into minutes, seconds and frames.
proof fn frame_splits(minute: int, second: int, rest: int, frame: int)
    requires
        0 <= minute <= 99,
        0 <= second < 60,
        0 <= rest < 75,
        frame == minute * 4500 + second * 75 + rest,
    ensures
        frame / 4500 == minute,
        frame / 75 % 60 == second,
        frame % 75 == rest,
{
    assert(frame / 75 == minute * 60 + second);
}

/// The two digits of a byte.
pub open spec fn byte_text(value: u8) -> Seq<char> {
    seq![hex_digit((value / 16) as int), hex_digit((value % 16) as int)]
}

/// A time as a text.
pub open spec fn msf_text(msf: Seq<u8>) -> Seq<char> {
    byte_text(msf[0]) + seq![':'] + byte_text(msf[1]) + seq![':'] + byte_text(msf[2])
}

pub(crate) fn push_byte(text: &mut String, value: u8)
    ensures
        final(text)@ == old(text)@ + byte_text(value),
{
    let ghost before = text@;
    let bytes: [u8; 1] = [value];
    let digits: String = encode(bytes.as_slice());
    let characters: Vec<char> = chars_of(digits.as_str());
    proof {
        assert(bytes@ =~= seq![value]);
        assert(characters@ =~= byte_text(value));
    }
    text.push(characters[0]);
    text.push(characters[1]);
    assert(text@ =~= before + byte_text(value));
}

/// Writes the time of a frame as a text.
pub fn format_msf(frame: u32) -> (result: Result<String, Error>)
    ensures
        match (result, msf_of(frame)) {
            (Ok(text), Ok(msf)) => text@ == msf_text(msf),
            (Err(error), Err(failure)) => error@ == failure,
            _ => false,
        },
{
    let value: [u8; 3] = match frame_to_msf(frame) {
        Ok(value) => value,
        Err(error) => return Err(error),
    };
    let mut text: String = String::new();
    push_byte(&mut text, value[0]);
    text.push(':');
    push_byte(&mut text, value[1]);
    text.push(':');
    push_byte(&mut text, value[2]);
    assert(text@ =~= msf_text(value@));
    Ok(text)
}

/// `read`, and then the bytes that the parts from `index` on spell.
pub open spec fn components_from(parts: Seq<Seq<char>>, index: int, read: Seq<u8>) -> Result<
    Seq<u8>,
    Failure,
>
    decreases parts.len() - index,
{
    if index < 0 || index >= parts.len() {
        Ok(read)
    } else {
        match parsed_byte(parts[index], 16) {
            None => Err(failure(ErrorKind::MsfComponent)),
            Some(value) => components_from(parts, index + 1, read.push(value)),
        }
    }
}

/// The frame that a text names.
pub open spec fn parsed_msf(text: Seq<char>) -> Result<u32, Failure> {
    match components_from(split_at(text, ':'), 0, Seq::empty()) {
        Err(failure) => Err(failure),
        Ok(msf) => if msf.len() != 3 {
            Err(failure(ErrorKind::MsfForm))
        } else {
            frame_of(msf)
        },
    }
}

/// Finds the frame that a text names.
pub fn parse_msf(value: &str) -> (result: Result<u32, Error>)
    ensures
        agrees(result, parsed_msf(value@)),
{
    let parts: Vec<String> = split(value, ':');
    let ghost model = split_at(value@, ':');
    let mut bytes: Vec<u8> = Vec::new();
    let mut i: usize = 0;
    assert(bytes@ =~= Seq::empty());
    while i < parts.len()
        invariant
            i <= parts.len(),
            model == views(parts@),
            model == split_at(value@, ':'),
            components_from(model, 0, Seq::empty()) == components_from(model, i as int, bytes@),
        decreases parts.len() - i,
    {
        assert(model[i as int] == parts@[i as int]@);
        match parse_byte(parts[i].as_str(), 16) {
            None => return Err(Error::new(ErrorKind::MsfComponent)),
            Some(byte) => bytes.push(byte),
        }
        i = i + 1;
    }
    if bytes.len() != 3 {
        return Err(Error::new(ErrorKind::MsfForm));
    }
    let msf: [u8; 3] = [bytes[0], bytes[1], bytes[2]];
    assert(msf@ =~= bytes@);
    msf_to_frame(msf)
}

/// The two digits of a byte spell it.
proof fn byte_text_parses(value: u8)
    ensures
        parsed_byte(byte_text(value), 16) == Some(value),
        forall|i: int| 0 <= i < 2 ==> byte_text(value)[i] != ':',
{
    let text = byte_text(value);
    let high = (value / 16) as int;
    let low = (value % 16) as int;
    assert(digit_value(text[0], 16) == Some(high));
    assert(digit_value(text[1], 16) == Some(low));
    assert(unsigned(text) =~= text);
    assert(all_digits(text, 16));
    let first = text.drop_last();
    assert(first =~= seq![text[0]]);
    assert(first.drop_last() =~= Seq::empty());
    assert(number_value(first.drop_last(), 16) == 0);
    assert(first.last() == text[0]);
    assert(number_value(first, 16) == high);
    assert(text.last() == text[1]);
    assert(number_value(text, 16) == high * 16 + low);
}

/// The text of a frame's time names that frame.
pub proof fn msf_text_survives(frame: u32, msf: Seq<u8>)
    requires
        msf_of(frame) == Ok::<Seq<u8>, Failure>(msf),
    ensures
        parsed_msf(msf_text(msf)) == Ok::<u32, Failure>(frame),
{
    let a = byte_text(msf[0]);
    let b = byte_text(msf[1]);
    let c = byte_text(msf[2]);
    byte_text_parses(msf[0]);
    byte_text_parses(msf[1]);
    byte_text_parses(msf[2]);
    let text = msf_text(msf);
    let head = a + seq![':'] + b;
    last_index_of_unique(text, ':', 5);
    assert(text.subrange(0, 5) =~= head);
    assert(text.subrange(6, text.len() as int) =~= c);
    assert(split_last(text, ':') == Some((head, c)));
    last_index_of_unique(head, ':', 2);
    assert(head.subrange(0, 2) =~= a);
    assert(head.subrange(3, head.len() as int) =~= b);
    assert(split_last(head, ':') == Some((a, b)));
    last_index_of_unique(a, ':', -1);
    assert(split_last(a, ':') is None);
    assert(split_at(a, ':') == seq![a]);
    assert(split_at(head, ':') =~= seq![a, b]);
    let parts = split_at(text, ':');
    assert(parts =~= seq![a, b, c]);
    let none = Seq::<u8>::empty();
    assert(components_from(parts, 3, seq![msf[0], msf[1], msf[2]]) == Ok::<Seq<u8>, Failure>(
        seq![msf[0], msf[1], msf[2]],
    ));
    assert(none.push(msf[0]).push(msf[1]).push(msf[2]) =~= seq![msf[0], msf[1], msf[2]]);
    assert(components_from(parts, 2, none.push(msf[0]).push(msf[1])) == components_from(
        parts,
        3,
        none.push(msf[0]).push(msf[1]).push(msf[2]),
    ));
    assert(components_from(parts, 1, none.push(msf[0])) == components_from(
        parts,
        2,
        none.push(msf[0]).push(msf[1]),
    ));
    assert(components_from(parts, 0, none) == components_from(parts, 1, none.push(msf[0])));
    assert(seq![msf[0], msf[1], msf[2]] =~= msf);
    frame_survives(frame, msf);
}

} // verus!
