//! Times of directory records and volume descriptors, and their readable form.
//!
//! Bytes that form no valid time are kept as hexadecimal digits, so that every
//! recorded time can be written back as it was.
use vstd::prelude::*;
use vstd::slice::slice_subrange;

use crate::bytes::{all_bytes_are, append_bytes, copy_of, field, fill, filled};
use crate::error::{failure, failure_over, Error, ErrorKind, Failure};
use crate::hexcode::{decode, encode, hex_bytes, hex_text, is_hex};
use crate::model::{accepts, agrees, opt_view};
use crate::text::{digit_char, has_prefix, padded, push_padded, strip_prefix, utf8};

verus! {

/// A moment, with its offset from Greenwich in quarters of an hour.
#[derive(Clone, Copy, Debug, PartialEq, Eq, Structural)]
pub struct VolumeTime {
    pub year: u16,
    pub month: u8,
    pub day: u8,
    pub hour: u8,
    pub minute: u8,
    pub second: u8,
    pub centisecond: u8,
    pub offset_quarters: i8,
}

/// A year of the Gregorian calendar with a twenty-ninth of February.
pub open spec fn is_leap_year(year: int) -> bool {
    year % 400 == 0 || (year % 4 == 0 && year % 100 != 0)
}

/// The number of days of a month.
pub open spec fn month_length(year: int, month: int) -> int {
    if month == 4 || month == 6 || month == 9 || month == 11 {
        30
    } else if month == 2 {
        if is_leap_year(year) {
            29
        } else {
            28
        }
    } else {
        31
    }
}

/// The number of days of a month.
pub fn days_in_month(year: u16, month: u8) -> (days: u8)
    ensures
        days == month_length(year as int, month as int),
{
    if month == 4 || month == 6 || month == 9 || month == 11 {
        30
    } else if month == 2 {
        if year % 400 == 0 || (year % 4 == 0 && year % 100 != 0) {
            29
        } else {
            28
        }
    } else {
        31
    }
}

/// The first field of a time that is out of range.
pub open spec fn time_check(time: VolumeTime) -> Result<(), Failure> {
    if !(1 <= time.month <= 12) {
        Err(failure(ErrorKind::TimeMonth))
    } else if !(1 <= time.day <= month_length(time.year as int, time.month as int)) {
        Err(failure(ErrorKind::TimeDay))
    } else if time.hour >= 24 {
        Err(failure(ErrorKind::TimeHour))
    } else if time.minute >= 60 {
        Err(failure(ErrorKind::TimeMinute))
    } else if time.second >= 60 {
        Err(failure(ErrorKind::TimeSecond))
    } else if time.centisecond >= 100 {
        Err(failure(ErrorKind::TimeCentisecond))
    } else if !(-48 <= time.offset_quarters <= 52) {
        Err(failure(ErrorKind::TimeOffset))
    } else {
        Ok(())
    }
}

/// Checks that every field of a time is in range.
pub fn validate_volume_time(time: VolumeTime) -> (result: Result<(), Error>)
    ensures
        accepts(result, time_check(time)),
{
    if time.month < 1 || time.month > 12 {
        return Err(Error::new(ErrorKind::TimeMonth));
    }
    if time.day < 1 || time.day > days_in_month(time.year, time.month) {
        return Err(Error::new(ErrorKind::TimeDay));
    }
    if time.hour >= 24 {
        return Err(Error::new(ErrorKind::TimeHour));
    }
    if time.minute >= 60 {
        return Err(Error::new(ErrorKind::TimeMinute));
    }
    if time.second >= 60 {
        return Err(Error::new(ErrorKind::TimeSecond));
    }
    if time.centisecond >= 100 {
        return Err(Error::new(ErrorKind::TimeCentisecond));
    }
    if time.offset_quarters < -48 || time.offset_quarters > 52 {
        return Err(Error::new(ErrorKind::TimeOffset));
    }
    Ok(())
}

/// The byte that stands for a signed offset.
pub open spec fn offset_byte(quarters: i8) -> u8 {
    (if quarters < 0 { quarters + 256 } else { quarters as int }) as u8
}

/// The signed offset that a byte stands for.
pub open spec fn offset_of(byte: u8) -> i8 {
    (if byte >= 128 { byte - 256 } else { byte as int }) as i8
}

fn write_offset(quarters: i8) -> (byte: u8)
    ensures
        byte == offset_byte(quarters),
{
    if quarters < 0 {
        (quarters as i16 + 256) as u8
    } else {
        quarters as u8
    }
}

fn read_offset(byte: u8) -> (quarters: i8)
    ensures
        quarters == offset_of(byte),
{
    if byte >= 128 {
        (byte as i16 - 256) as i8
    } else {
        byte as i8
    }
}

/// The distance of an offset from Greenwich in minutes.
pub open spec fn offset_minutes(quarters: i8) -> int {
    if quarters < 0 {
        -quarters * 15
    } else {
        quarters * 15
    }
}

/// The sign of an offset.
pub open spec fn offset_sign(quarters: i8) -> char {
    if quarters < 0 {
        '-'
    } else {
        '+'
    }
}

/// Digit `index` of a number, counted from the last one.
#[verifier::opaque]
pub open spec fn place(value: int, index: int) -> char {
    if index <= 0 {
        digit_char(value % 10)
    } else if index == 1 {
        digit_char(value / 10 % 10)
    } else if index == 2 {
        digit_char(value / 100 % 10)
    } else {
        digit_char(value / 1000 % 10)
    }
}

/// A directory time in readable form: `YYYY-MM-DDTHH:MM:SS+HH:MM`.
pub open spec fn recording_text(time: VolumeTime) -> Seq<char> {
    seq![
        place(time.year as int, 3),
        place(time.year as int, 2),
        place(time.year as int, 1),
        place(time.year as int, 0),
        '-',
        place(time.month as int, 1),
        place(time.month as int, 0),
        '-',
        place(time.day as int, 1),
        place(time.day as int, 0),
        'T',
        place(time.hour as int, 1),
        place(time.hour as int, 0),
        ':',
        place(time.minute as int, 1),
        place(time.minute as int, 0),
        ':',
        place(time.second as int, 1),
        place(time.second as int, 0),
        offset_sign(time.offset_quarters),
        place(offset_minutes(time.offset_quarters) / 60, 1),
        place(offset_minutes(time.offset_quarters) / 60, 0),
        ':',
        place(offset_minutes(time.offset_quarters) % 60, 1),
        place(offset_minutes(time.offset_quarters) % 60, 0),
    ]
}

/// A volume time in readable form: `YYYY-MM-DDTHH:MM:SS.cc+HH:MM`.
pub open spec fn volume_text(time: VolumeTime) -> Seq<char> {
    seq![
        place(time.year as int, 3),
        place(time.year as int, 2),
        place(time.year as int, 1),
        place(time.year as int, 0),
        '-',
        place(time.month as int, 1),
        place(time.month as int, 0),
        '-',
        place(time.day as int, 1),
        place(time.day as int, 0),
        'T',
        place(time.hour as int, 1),
        place(time.hour as int, 0),
        ':',
        place(time.minute as int, 1),
        place(time.minute as int, 0),
        ':',
        place(time.second as int, 1),
        place(time.second as int, 0),
        '.',
        place(time.centisecond as int, 1),
        place(time.centisecond as int, 0),
        offset_sign(time.offset_quarters),
        place(offset_minutes(time.offset_quarters) / 60, 1),
        place(offset_minutes(time.offset_quarters) / 60, 0),
        ':',
        place(offset_minutes(time.offset_quarters) % 60, 1),
        place(offset_minutes(time.offset_quarters) % 60, 0),
    ]
}

/// What a day and an hour are written as in readable form: `YYYY-MM-DDTHH:MM:SS`, each
/// part with as many more digits as it needs.
pub open spec fn formatted_moment(time: VolumeTime) -> Seq<char> {
    padded(time.year as nat, 4) + seq!['-'] + padded(time.month as nat, 2) + seq!['-'] + padded(
        time.day as nat,
        2,
    ) + seq!['T'] + padded(time.hour as nat, 2) + seq![':'] + padded(time.minute as nat, 2) + seq![
        ':',
    ] + padded(time.second as nat, 2)
}

/// What an offset is written as in readable form: `+HH:MM`.
pub open spec fn formatted_offset(quarters: i8) -> Seq<char> {
    seq![offset_sign(quarters)] + padded((offset_minutes(quarters) / 60) as nat, 2) + seq![':']
        + padded((offset_minutes(quarters) % 60) as nat, 2)
}

/// What any directory time is written as in readable form.
pub open spec fn formatted_recording(time: VolumeTime) -> Seq<char> {
    formatted_moment(time) + formatted_offset(time.offset_quarters)
}

/// What any volume time is written as in readable form.
pub open spec fn formatted_volume(time: VolumeTime) -> Seq<char> {
    formatted_moment(time) + seq!['.'] + padded(time.centisecond as nat, 2) + formatted_offset(
        time.offset_quarters,
    )
}

/// A number of at most two digits is written with two.
proof fn two_are_padded(value: nat)
    requires
        value < 100,
    ensures
        padded(value, 2) == seq![place(value as int, 1), place(value as int, 0)],
{
    reveal(place);
    reveal_with_fuel(padded, 3);
    assert(padded(value, 2) =~= seq![place(value as int, 1), place(value as int, 0)]);
}

/// A number of at most four digits is written with four.
proof fn four_are_padded(value: nat)
    requires
        value < 10000,
    ensures
        padded(value, 4) == seq![
            place(value as int, 3),
            place(value as int, 2),
            place(value as int, 1),
            place(value as int, 0),
        ],
{
    reveal(place);
    reveal_with_fuel(padded, 5);
    assert(value / 10 / 10 == value / 100 && value / 10 / 10 / 10 == value / 1000);
    assert(padded(value, 4) =~= seq![
        place(value as int, 3),
        place(value as int, 2),
        place(value as int, 1),
        place(value as int, 0),
    ]);
}

/// The readable forms of a time that is one.
proof fn times_are_formatted(time: VolumeTime)
    requires
        time_check(time) is Ok,
        time.year <= 9999,
    ensures
        formatted_recording(time) == recording_text(time),
        formatted_volume(time) == volume_text(time),
{
    four_are_padded(time.year as nat);
    two_are_padded(time.month as nat);
    two_are_padded(time.day as nat);
    two_are_padded(time.hour as nat);
    two_are_padded(time.minute as nat);
    two_are_padded(time.second as nat);
    two_are_padded(time.centisecond as nat);
    two_are_padded((offset_minutes(time.offset_quarters) / 60) as nat);
    two_are_padded((offset_minutes(time.offset_quarters) % 60) as nat);
    assert(formatted_recording(time) =~= recording_text(time));
    assert(formatted_volume(time) =~= volume_text(time));
}

fn push_moment(text: &mut String, time: VolumeTime)
    ensures
        final(text)@ == old(text)@ + formatted_moment(time),
{
    push_padded(text, time.year, 4);
    text.push('-');
    push_padded(text, time.month as u16, 2);
    text.push('-');
    push_padded(text, time.day as u16, 2);
    text.push('T');
    push_padded(text, time.hour as u16, 2);
    text.push(':');
    push_padded(text, time.minute as u16, 2);
    text.push(':');
    push_padded(text, time.second as u16, 2);
    assert(text@ =~= old(text)@ + formatted_moment(time));
}

fn push_offset(text: &mut String, quarters: i8)
    ensures
        final(text)@ == old(text)@ + formatted_offset(quarters),
{
    let absolute: u16 = if quarters < 0 {
        ((-(quarters as i16)) * 15) as u16
    } else {
        quarters as u16 * 15
    };
    text.push(
        if quarters < 0 {
            '-'
        } else {
            '+'
        },
    );
    push_padded(text, absolute / 60, 2);
    text.push(':');
    push_padded(text, absolute % 60, 2);
    assert(text@ =~= old(text)@ + formatted_offset(quarters));
}

/// Writes a directory time in readable form.
pub fn format_recording_time(time: VolumeTime) -> (text: String)
    ensures
        text@ == formatted_recording(time),
        time_check(time) is Ok && time.year <= 9999 ==> text@ == recording_text(time),
{
    let mut text: String = String::new();
    push_moment(&mut text, time);
    push_offset(&mut text, time.offset_quarters);
    proof {
        assert(text@ =~= formatted_recording(time));
        if time_check(time) is Ok && time.year <= 9999 {
            times_are_formatted(time);
        }
    }
    text
}

/// Writes a volume time in readable form.
pub fn format_volume_time(time: VolumeTime) -> (text: String)
    ensures
        text@ == formatted_volume(time),
        time_check(time) is Ok && time.year <= 9999 ==> text@ == volume_text(time),
{
    let mut text: String = String::new();
    push_moment(&mut text, time);
    text.push('.');
    push_padded(&mut text, time.centisecond as u16, 2);
    push_offset(&mut text, time.offset_quarters);
    proof {
        assert(text@ =~= formatted_volume(time));
        if time_check(time) is Ok && time.year <= 9999 {
            times_are_formatted(time);
        }
    }
    text
}

/// What introduces bytes that are kept as they are.
pub const RAW_TIME_PREFIX: &'static str = "hex:";

/// What introduces bytes that are kept as they are, as characters.
pub open spec fn raw_prefix() -> Seq<char> {
    seq!['h', 'e', 'x', ':']
}

/// Bytes that form no time, as text.
pub open spec fn raw_text(bytes: Seq<u8>) -> Seq<char> {
    raw_prefix() + hex_text(bytes)
}

/// Writes bytes that form no time.
pub fn raw_time(bytes: &[u8]) -> (text: String)
    ensures
        text@ == raw_text(bytes@),
{
    proof {
        reveal_strlit("hex:");
        assert("hex:"@ =~= raw_prefix());
    }
    let mut text: String = RAW_TIME_PREFIX.to_owned();
    text.append(encode(bytes).as_str());
    text
}

/// The bytes that a text keeps as they are: none if it is no such text.
pub open spec fn raw_time_bytes(text: Seq<char>, count: int, label: Seq<char>) -> Result<Option<Seq<u8>>, Failure> {
    let digits = text.subrange(raw_prefix().len() as int, text.len() as int);
    if !has_prefix(text, raw_prefix()) {
        Ok(None)
    } else if !is_hex(digits) {
        Err(
            Failure {
                kind: ErrorKind::RawTimeHex,
                subject: label,
                number: 0,
                cause: None,
            },
        )
    } else if hex_bytes(digits).len() != count {
        Err(
            Failure {
                kind: ErrorKind::RawTimeLength,
                subject: label,
                number: count,
                cause: None,
            },
        )
    } else {
        Ok(Some(hex_bytes(digits)))
    }
}

/// Reads bytes that are kept as they are.
pub fn parse_raw_time(value: &str, count: usize, label: &str) -> (result: Result<Option<Vec<u8>>, Error>)
    ensures
        match (result, raw_time_bytes(value@, count as int, label@)) {
            (Ok(bytes), Ok(expected)) => opt_view(bytes) == expected,
            (Err(error), Err(failure)) => error@ == failure,
            _ => false,
        },
{
    proof {
        reveal_strlit("hex:");
        assert("hex:"@ =~= raw_prefix());
    }
    match strip_prefix(value, RAW_TIME_PREFIX) {
        None => Ok(None),
        Some(digits) => match decode(digits.as_str(), ErrorKind::RawTimeHex, label) {
            Err(error) => Err(error),
            Ok(bytes) => if bytes.len() != count {
                Err(
                    Error {
                        kind: ErrorKind::RawTimeLength,
                        subject: label.to_owned(),
                        number: count as u64,
                        cause: None,
                    },
                )
            } else {
                Ok(Some(bytes))
            },
        },
    }
}

/// The byte is an ASCII digit.
pub open spec fn is_digit(byte: u8) -> bool {
    48 <= byte <= 57
}

/// Every byte is an ASCII digit.
pub open spec fn all_digits(bytes: Seq<u8>) -> bool {
    forall|i: int| 0 <= i < bytes.len() ==> is_digit(#[trigger] bytes[i])
}

/// The number that ASCII digits write.
pub open spec fn decimal_value(bytes: Seq<u8>) -> int
    decreases bytes.len(),
{
    if bytes.len() == 0 {
        0
    } else {
        decimal_value(bytes.drop_last()) * 10 + (bytes.last() - 48)
    }
}

/// A number of up to four digits fits sixteen bits.
proof fn decimal_value_bound(bytes: Seq<u8>)
    requires
        all_digits(bytes),
        bytes.len() <= 4,
    ensures
        0 <= decimal_value(bytes) <= 9999,
        bytes.len() <= 3 ==> decimal_value(bytes) <= 999,
        bytes.len() <= 2 ==> decimal_value(bytes) <= 99,
        bytes.len() <= 1 ==> decimal_value(bytes) <= 9,
    decreases bytes.len(),
{
    if bytes.len() > 0 {
        assert(is_digit(bytes[bytes.len() - 1]));
        assert forall|i: int| 0 <= i < bytes.drop_last().len() implies is_digit(
            #[trigger] bytes.drop_last()[i],
        ) by {
            assert(is_digit(bytes[i]));
        }
        decimal_value_bound(bytes.drop_last());
    }
}

/// No number that the first bytes write in ASCII digits is too large for sixteen bits.
pub open spec fn fits_u16(bytes: Seq<u8>) -> bool {
    forall|n: int|
        0 <= n <= bytes.len() && all_digits(bytes.take(n)) ==> #[trigger] decimal_value(
            bytes.take(n),
        ) <= u16::MAX
}

/// Four digits write no number that is too large for sixteen bits.
pub proof fn four_digits_fit(bytes: Seq<u8>)
    requires
        bytes.len() <= 4,
    ensures
        fits_u16(bytes),
{
    assert forall|n: int| 0 <= n <= bytes.len() && all_digits(bytes.take(n)) implies
        #[trigger] decimal_value(bytes.take(n)) <= u16::MAX by {
        decimal_value_bound(bytes.take(n));
    }
}

/// Reads a number that ASCII digits write.
pub fn parse_decimal(bytes: &[u8]) -> (result: Result<u16, Error>)
    requires
        fits_u16(bytes@),
    ensures
        match result {
            Ok(value) => all_digits(bytes@) && value == decimal_value(bytes@),
            Err(error) => !all_digits(bytes@) && error@ == failure(ErrorKind::DecimalDigit),
        },
{
    let mut value: u16 = 0;
    let mut i: usize = 0;
    while i < bytes.len()
        invariant
            i <= bytes.len(),
            fits_u16(bytes@),
            all_digits(bytes@.take(i as int)),
            value == decimal_value(bytes@.take(i as int)),
        decreases bytes.len() - i,
    {
        let byte: u8 = bytes[i];
        if byte < 48 || byte > 57 {
            assert(!is_digit(bytes@[i as int]));
            return Err(Error::new(ErrorKind::DecimalDigit));
        }
        proof {
            let longer = bytes@.take(i + 1);
            assert(longer.drop_last() =~= bytes@.take(i as int));
            assert forall|j: int| 0 <= j < longer.len() implies is_digit(#[trigger] longer[j]) by {
                if j < i {
                    assert(is_digit(bytes@.take(i as int)[j]));
                }
            }
            assert(decimal_value(longer) == value * 10 + (byte - 48));
            assert(decimal_value(bytes@.take(i + 1)) <= u16::MAX);
        }
        value = value * 10 + (byte - 48) as u16;
        i = i + 1;
    }
    assert(bytes@.take(bytes.len() as int) =~= bytes@);
    Ok(value)
}

/// The time that seven bytes of a directory record hold.
pub open spec fn recorded_time(bytes: Seq<u8>) -> VolumeTime {
    VolumeTime {
        year: (1900 + bytes[0]) as u16,
        month: bytes[1],
        day: bytes[2],
        hour: bytes[3],
        minute: bytes[4],
        second: bytes[5],
        centisecond: 0,
        offset_quarters: offset_of(bytes[6]),
    }
}

/// The text of seven recorded bytes.
pub open spec fn recording_time_text(bytes: Seq<u8>) -> Seq<char> {
    if time_check(recorded_time(bytes)) is Ok {
        recording_text(recorded_time(bytes))
    } else {
        raw_text(bytes)
    }
}

/// Reads the time of a directory record.
pub fn parse_recording_time(bytes: [u8; 7]) -> (text: String)
    ensures
        text@ == recording_time_text(bytes@),
{
    let time = VolumeTime {
        year: 1900 + bytes[0] as u16,
        month: bytes[1],
        day: bytes[2],
        hour: bytes[3],
        minute: bytes[4],
        second: bytes[5],
        centisecond: 0,
        offset_quarters: read_offset(bytes[6]),
    };
    assert(time == recorded_time(bytes@));
    match validate_volume_time(time) {
        Ok(_) => format_recording_time(time),
        Err(_) => raw_time(bytes.as_slice()),
    }
}

/// The marks of a readable volume time stand where they belong.
pub open spec fn has_time_marks(bytes: Seq<u8>) -> bool {
    &&& bytes.len() == 28
    &&& bytes[4] == 45
    &&& bytes[7] == 45
    &&& bytes[10] == 84
    &&& bytes[13] == 58
    &&& bytes[16] == 58
    &&& bytes[19] == 46
    &&& (bytes[22] == 43 || bytes[22] == 45)
    &&& bytes[25] == 58
}

/// The digits of a readable volume time are digits.
pub open spec fn has_time_digits(bytes: Seq<u8>) -> bool {
    &&& all_digits(field(bytes, 0, 4))
    &&& all_digits(field(bytes, 5, 2))
    &&& all_digits(field(bytes, 8, 2))
    &&& all_digits(field(bytes, 11, 2))
    &&& all_digits(field(bytes, 14, 2))
    &&& all_digits(field(bytes, 17, 2))
    &&& all_digits(field(bytes, 20, 2))
    &&& all_digits(field(bytes, 23, 2))
    &&& all_digits(field(bytes, 26, 2))
}

/// The time that the bytes of `YYYY-MM-DDTHH:MM:SS.cc+HH:MM` write.
pub open spec fn human_time(bytes: Seq<u8>) -> Result<VolumeTime, Failure> {
    let hours = decimal_value(field(bytes, 23, 2));
    let minutes = decimal_value(field(bytes, 26, 2));
    let absolute = hours * 60 + minutes;
    let quarters = if bytes[22] == 45 {
        -(absolute / 15)
    } else {
        absolute / 15
    };
    let time = VolumeTime {
        year: decimal_value(field(bytes, 0, 4)) as u16,
        month: decimal_value(field(bytes, 5, 2)) as u8,
        day: decimal_value(field(bytes, 8, 2)) as u8,
        hour: decimal_value(field(bytes, 11, 2)) as u8,
        minute: decimal_value(field(bytes, 14, 2)) as u8,
        second: decimal_value(field(bytes, 17, 2)) as u8,
        centisecond: decimal_value(field(bytes, 20, 2)) as u8,
        offset_quarters: quarters as i8,
    };
    if !has_time_marks(bytes) {
        Err(failure(ErrorKind::TimeFormat))
    } else if !has_time_digits(bytes) {
        Err(failure(ErrorKind::TimeDigits))
    } else if minutes >= 60 {
        Err(failure(ErrorKind::TimeOffsetMinutes))
    } else if absolute % 15 != 0 {
        Err(failure(ErrorKind::TimeOffsetStep))
    } else if bytes[22] == 45 && absolute == 0 {
        Err(failure(ErrorKind::TimeNegativeZero))
    } else if !(-128 <= quarters <= 127) {
        Err(failure(ErrorKind::IntegerConversion))
    } else {
        match time_check(time) {
            Ok(_) => Ok(time),
            Err(failure) => Err(failure),
        }
    }
}

fn digits_value(bytes: &[u8], offset: usize, count: usize) -> (result: Option<u16>)
    requires
        offset + count <= bytes.len(),
        count <= 4,
    ensures
        match result {
            Some(value) => all_digits(field(bytes@, offset as int, count as int)) && value
                == decimal_value(field(bytes@, offset as int, count as int)) && (count <= 2 ==> value
                <= 99),
            None => !all_digits(field(bytes@, offset as int, count as int)),
        },
{
    let part: &[u8] = slice_subrange(bytes, offset, offset + count);
    assert(part@ =~= field(bytes@, offset as int, count as int));
    proof {
        four_digits_fit(part@);
    }
    match parse_decimal(part) {
        Ok(value) => {
            proof {
                decimal_value_bound(part@);
            }
            Some(value)
        },
        Err(_) => None,
    }
}

/// Reads a readable volume time from its bytes.
fn human_time_of_bytes(bytes: &[u8]) -> (result: Result<VolumeTime, Error>)
    ensures
        match (result, human_time(bytes@)) {
            (Ok(time), Ok(expected)) => time == expected,
            (Err(error), Err(failure)) => error@ == failure,
            _ => false,
        },
{
    if !(bytes.len() == 28 && bytes[4] == 45 && bytes[7] == 45 && bytes[10] == 84 && bytes[13] == 58
        && bytes[16] == 58 && bytes[19] == 46 && (bytes[22] == 43 || bytes[22] == 45) && bytes[25]
        == 58) {
        return Err(Error::new(ErrorKind::TimeFormat));
    }
    let year: Option<u16> = digits_value(bytes, 0, 4);
    let month: Option<u16> = digits_value(bytes, 5, 2);
    let day: Option<u16> = digits_value(bytes, 8, 2);
    let hour: Option<u16> = digits_value(bytes, 11, 2);
    let minute: Option<u16> = digits_value(bytes, 14, 2);
    let second: Option<u16> = digits_value(bytes, 17, 2);
    let centisecond: Option<u16> = digits_value(bytes, 20, 2);
    let offset_hours: Option<u16> = digits_value(bytes, 23, 2);
    let offset_part: Option<u16> = digits_value(bytes, 26, 2);
    match (year, month, day, hour, minute, second, centisecond, offset_hours, offset_part) {
        (
            Some(year),
            Some(month),
            Some(day),
            Some(hour),
            Some(minute),
            Some(second),
            Some(centisecond),
            Some(offset_hours),
            Some(offset_part),
        ) => {
            if offset_part >= 60 {
                return Err(Error::new(ErrorKind::TimeOffsetMinutes));
            }
            let absolute: u16 = offset_hours * 60 + offset_part;
            if absolute % 15 != 0 {
                return Err(Error::new(ErrorKind::TimeOffsetStep));
            }
            if bytes[22] == 45 && absolute == 0 {
                return Err(Error::new(ErrorKind::TimeNegativeZero));
            }
            let steps: i16 = (absolute / 15) as i16;
            let signed: i16 = if bytes[22] == 45 {
                -steps
            } else {
                steps
            };
            if signed < -128 || signed > 127 {
                return Err(Error::new(ErrorKind::IntegerConversion));
            }
            let time = VolumeTime {
                year,
                month: month as u8,
                day: day as u8,
                hour: hour as u8,
                minute: minute as u8,
                second: second as u8,
                centisecond: centisecond as u8,
                offset_quarters: signed as i8,
            };
            match validate_volume_time(time) {
                Ok(_) => Ok(time),
                Err(error) => Err(error),
            }
        },
        _ => Err(Error::new(ErrorKind::TimeDigits)),
    }
}

/// Reads a volume time of the form `YYYY-MM-DDTHH:MM:SS.cc+HH:MM`.
pub fn parse_human_volume_time(value: &str) -> (result: Result<VolumeTime, Error>)
    ensures
        match (result, human_time(utf8(value@))) {
            (Ok(time), Ok(expected)) => time == expected,
            (Err(error), Err(failure)) => error@ == failure,
            _ => false,
        },
{
    human_time_of_bytes(value.as_bytes())
}

/// The bytes of a readable directory time with hundredths put in.
pub open spec fn with_hundredths(bytes: Seq<u8>) -> Seq<u8> {
    bytes.subrange(0, 19) + seq![46u8, 48u8, 48u8] + bytes.subrange(19, 25)
}

/// The seven bytes that record a time.
pub open spec fn recorded_bytes(time: VolumeTime) -> Seq<u8> {
    seq![
        (time.year - 1900) as u8,
        time.month,
        time.day,
        time.hour,
        time.minute,
        time.second,
        offset_byte(time.offset_quarters),
    ]
}

/// The seven bytes that a text of a directory time stands for.
#[verifier::opaque]
pub open spec fn recording_time_bytes(text: Seq<char>) -> Result<Seq<u8>, Failure> {
    let bytes = utf8(text);
    match raw_time_bytes(text, 7, "directory recording"@) {
        Err(failure) => Err(failure),
        Ok(Some(raw)) => Ok(raw),
        Ok(None) => if !(vstd::utf8::is_ascii_chars(text) && bytes.len() == 25 && (bytes[19] == 43
            || bytes[19] == 45)) {
            Err(failure(ErrorKind::RecordingTimeFormat))
        } else {
            match human_time(with_hundredths(bytes)) {
                Err(under) => Err(
                    failure_over(ErrorKind::RecordingTime, Seq::empty(), 0, under),
                ),
                Ok(time) => if !(1900 <= time.year <= 2155) {
                    Err(failure(ErrorKind::RecordingTimeYear))
                } else {
                    Ok(recorded_bytes(time))
                },
            }
        },
    }
}

/// Writes the time of a directory record.
pub fn serialize_recording_time(value: &str) -> (result: Result<[u8; 7], Error>)
    ensures
        agrees(result, recording_time_bytes(value@)),
{
    reveal(recording_time_bytes);
    let label: &str = "directory recording";
    match parse_raw_time(value, 7, label) {
        Err(error) => return Err(error),
        Ok(Some(raw)) => {
            let bytes: [u8; 7] = [raw[0], raw[1], raw[2], raw[3], raw[4], raw[5], raw[6]];
            assert(bytes@ =~= raw@);
            return Ok(bytes);
        },
        Ok(None) => {},
    }
    let bytes: &[u8] = value.as_bytes();
    if !(value.is_ascii() && bytes.len() == 25 && (bytes[19] == 43 || bytes[19] == 45)) {
        return Err(Error::new(ErrorKind::RecordingTimeFormat));
    }
    let mut expanded: Vec<u8> = copy_of(bytes, 0, 19);
    expanded.push(46);
    expanded.push(48);
    expanded.push(48);
    append_bytes(&mut expanded, slice_subrange(bytes, 19, 25));
    assert(expanded@ =~= with_hundredths(bytes@));
    match human_time_of_bytes(expanded.as_slice()) {
        Err(under) => {
            let nothing: &str = "";
            proof {
                reveal_strlit("");
                assert(nothing@ =~= Seq::empty());
            }
            Err(Error::over(ErrorKind::RecordingTime, nothing, 0, under))
        },
        Ok(time) => {
            if time.year < 1900 || time.year > 2155 {
                return Err(Error::new(ErrorKind::RecordingTimeYear));
            }
            let recorded: [u8; 7] = [
                (time.year - 1900) as u8,
                time.month,
                time.day,
                time.hour,
                time.minute,
                time.second,
                write_offset(time.offset_quarters),
            ];
            assert(recorded@ =~= recorded_bytes(time));
            Ok(recorded)
        },
    }
}

/// The bytes of a volume time that is not specified.
pub open spec fn no_time() -> Seq<u8> {
    fill(16, 48).push(0)
}

/// The time that seventeen descriptor bytes hold, if their digits are digits.
pub open spec fn described_time(bytes: Seq<u8>) -> VolumeTime {
    VolumeTime {
        year: decimal_value(field(bytes, 0, 4)) as u16,
        month: decimal_value(field(bytes, 4, 2)) as u8,
        day: decimal_value(field(bytes, 6, 2)) as u8,
        hour: decimal_value(field(bytes, 8, 2)) as u8,
        minute: decimal_value(field(bytes, 10, 2)) as u8,
        second: decimal_value(field(bytes, 12, 2)) as u8,
        centisecond: decimal_value(field(bytes, 14, 2)) as u8,
        offset_quarters: offset_of(bytes[16]),
    }
}

/// The text of the bytes of a volume time; an unspecified time has none.
#[verifier::opaque]
pub open spec fn volume_time_text(bytes: Seq<u8>) -> Option<Seq<char>> {
    if bytes == no_time() {
        None
    } else if all_digits(bytes.subrange(0, 16)) && time_check(described_time(bytes)) is Ok {
        Some(volume_text(described_time(bytes)))
    } else {
        Some(raw_text(bytes))
    }
}

/// Reads a volume time of seventeen bytes.
pub fn parse_volume_time(bytes: &[u8]) -> (result: Result<Option<String>, Error>)
    ensures
        match result {
            Ok(text) => bytes.len() == 17 && opt_view(text) == volume_time_text(bytes@),
            Err(error) => bytes.len() != 17 && error@ == failure(ErrorKind::VolumeTimeLength),
        },
{
    reveal(volume_time_text);
    if bytes.len() != 17 {
        return Err(Error::new(ErrorKind::VolumeTimeLength));
    }
    let digits: &[u8] = slice_subrange(bytes, 0, 16);
    if all_bytes_are(digits, 48) && bytes[16] == 0 {
        assert forall|i: int| 0 <= i < 17 implies bytes@[i] == no_time()[i] by {
            if i < 16 {
                assert(digits@[i] == bytes@[i]);
            }
        }
        assert(bytes@ =~= no_time());
        return Ok(None);
    }
    proof {
        if bytes@ == no_time() {
            assert forall|i: int| 0 <= i < 16 implies digits@[i] == 48 by {
                assert(digits@[i] == no_time()[i]);
            }
            assert(bytes@[16] == 0);
        }
    }
    let year: Option<u16> = digits_value(bytes, 0, 4);
    let month: Option<u16> = digits_value(bytes, 4, 2);
    let day: Option<u16> = digits_value(bytes, 6, 2);
    let hour: Option<u16> = digits_value(bytes, 8, 2);
    let minute: Option<u16> = digits_value(bytes, 10, 2);
    let second: Option<u16> = digits_value(bytes, 12, 2);
    let centisecond: Option<u16> = digits_value(bytes, 14, 2);
    proof {
        digits_in_fields(bytes@);
    }
    match (year, month, day, hour, minute, second, centisecond) {
        (
            Some(year),
            Some(month),
            Some(day),
            Some(hour),
            Some(minute),
            Some(second),
            Some(centisecond),
        ) => {
            let time = VolumeTime {
                year,
                month: month as u8,
                day: day as u8,
                hour: hour as u8,
                minute: minute as u8,
                second: second as u8,
                centisecond: centisecond as u8,
                offset_quarters: read_offset(bytes[16]),
            };
            proof {
                decimal_value_bound(field(bytes@, 0, 4));
                assert(time == described_time(bytes@));
            }
            match validate_volume_time(time) {
                Ok(_) => Ok(Some(format_volume_time(time))),
                Err(_) => Ok(Some(raw_time(bytes))),
            }
        },
        _ => Ok(Some(raw_time(bytes))),
    }
}

/// Sixteen digits are the digits of the fields of a volume time.
proof fn digits_in_fields(bytes: Seq<u8>)
    requires
        bytes.len() == 17,
    ensures
        all_digits(bytes.subrange(0, 16)) <==> all_digits(field(bytes, 0, 4)) && all_digits(
            field(bytes, 4, 2),
        ) && all_digits(field(bytes, 6, 2)) && all_digits(field(bytes, 8, 2)) && all_digits(
            field(bytes, 10, 2),
        ) && all_digits(field(bytes, 12, 2)) && all_digits(field(bytes, 14, 2)),
{
    let digits = bytes.subrange(0, 16);
    if all_digits(digits) {
        assert forall|i: int| 0 <= i < 16 implies is_digit(bytes[i]) by {
            assert(is_digit(digits[i]));
        }
    } else if all_digits(field(bytes, 0, 4)) && all_digits(field(bytes, 4, 2)) && all_digits(
        field(bytes, 6, 2),
    ) && all_digits(field(bytes, 8, 2)) && all_digits(field(bytes, 10, 2)) && all_digits(
        field(bytes, 12, 2),
    ) && all_digits(field(bytes, 14, 2)) {
        assert forall|i: int| 0 <= i < digits.len() implies is_digit(#[trigger] digits[i]) by {
            if i < 4 {
                assert(is_digit(field(bytes, 0, 4)[i]));
            } else if i < 6 {
                assert(is_digit(field(bytes, 4, 2)[i - 4]));
            } else if i < 8 {
                assert(is_digit(field(bytes, 6, 2)[i - 6]));
            } else if i < 10 {
                assert(is_digit(field(bytes, 8, 2)[i - 8]));
            } else if i < 12 {
                assert(is_digit(field(bytes, 10, 2)[i - 10]));
            } else if i < 14 {
                assert(is_digit(field(bytes, 12, 2)[i - 12]));
            } else {
                assert(is_digit(field(bytes, 14, 2)[i - 14]));
            }
        }
        assert(false);
    }
}

/// Digit `index` of a number as a byte, counted from the last one.
pub open spec fn place_byte(value: int, index: int) -> u8 {
    place(value, index) as u8
}

/// The seventeen bytes that describe a time.
pub open spec fn described_bytes(time: VolumeTime) -> Seq<u8> {
    seq![
        place_byte(time.year as int, 3),
        place_byte(time.year as int, 2),
        place_byte(time.year as int, 1),
        place_byte(time.year as int, 0),
        place_byte(time.month as int, 1),
        place_byte(time.month as int, 0),
        place_byte(time.day as int, 1),
        place_byte(time.day as int, 0),
        place_byte(time.hour as int, 1),
        place_byte(time.hour as int, 0),
        place_byte(time.minute as int, 1),
        place_byte(time.minute as int, 0),
        place_byte(time.second as int, 1),
        place_byte(time.second as int, 0),
        place_byte(time.centisecond as int, 1),
        place_byte(time.centisecond as int, 0),
        offset_byte(time.offset_quarters),
    ]
}

/// The seventeen bytes that a text of a volume time, or its absence, stands for.
#[verifier::opaque]
pub open spec fn volume_time_bytes(text: Option<Seq<char>>) -> Result<Seq<u8>, Failure> {
    match text {
        None => Ok(no_time()),
        Some(text) => match raw_time_bytes(text, 17, "volume"@) {
            Err(failure) => Err(failure),
            Ok(Some(raw)) => Ok(raw),
            Ok(None) => match human_time(utf8(text)) {
                Err(failure) => Err(failure),
                Ok(time) => Ok(described_bytes(time)),
            },
        },
    }
}

/// Writes a volume time.
pub fn serialize_volume_time(value: Option<&str>) -> (result: Result<Vec<u8>, Error>)
    ensures
        agrees(
            result,
            volume_time_bytes(
                match value {
                    Some(text) => Some(text@),
                    None => None,
                },
            ),
        ),
        result matches Ok(bytes) ==> bytes@.len() == 17,
{
    reveal(volume_time_bytes);
    let text: &str = match value {
        None => {
            let mut bytes: Vec<u8> = filled(16, 48);
            bytes.push(0);
            return Ok(bytes);
        },
        Some(text) => text,
    };
    let label: &str = "volume";
    match parse_raw_time(text, 17, label) {
        Err(error) => return Err(error),
        Ok(Some(raw)) => return Ok(raw),
        Ok(None) => {},
    }
    match parse_human_volume_time(text) {
        Err(error) => Err(error),
        Ok(time) => {
            proof {
                human_time_fits(utf8(text@));
            }
            let bytes: [u8; 17] = described(time);
            assert(field(bytes@, 0, 17) =~= bytes@);
            Ok(copy_of(bytes.as_slice(), 0, 17))
        },
    }
}

fn put_digit_byte(value: u16, index: u8) -> (byte: u8)
    requires
        value <= 9999,
    ensures
        byte == place_byte(value as int, index as int),
{
    reveal(place);
    if index == 0 {
        48 + (value % 10) as u8
    } else if index == 1 {
        48 + (value / 10 % 10) as u8
    } else if index == 2 {
        48 + (value / 100 % 10) as u8
    } else {
        48 + (value / 1000 % 10) as u8
    }
}

fn described(time: VolumeTime) -> (bytes: [u8; 17])
    requires
        time_check(time) is Ok,
        time.year <= 9999,
    ensures
        bytes@ == described_bytes(time),
{
    let bytes: [u8; 17] = [
        put_digit_byte(time.year, 3),
        put_digit_byte(time.year, 2),
        put_digit_byte(time.year, 1),
        put_digit_byte(time.year, 0),
        put_digit_byte(time.month as u16, 1),
        put_digit_byte(time.month as u16, 0),
        put_digit_byte(time.day as u16, 1),
        put_digit_byte(time.day as u16, 0),
        put_digit_byte(time.hour as u16, 1),
        put_digit_byte(time.hour as u16, 0),
        put_digit_byte(time.minute as u16, 1),
        put_digit_byte(time.minute as u16, 0),
        put_digit_byte(time.second as u16, 1),
        put_digit_byte(time.second as u16, 0),
        put_digit_byte(time.centisecond as u16, 1),
        put_digit_byte(time.centisecond as u16, 0),
        write_offset(time.offset_quarters),
    ];
    assert(bytes@ =~= described_bytes(time));
    bytes
}

/// A readable time has a year of four digits.
proof fn human_time_fits(bytes: Seq<u8>)
    ensures
        human_time(bytes) matches Ok(time) ==> time.year <= 9999 && time_check(time) is Ok,
{
    if human_time(bytes) is Ok {
        decimal_value_bound(field(bytes, 0, 4));
    }
}

} // verus!
