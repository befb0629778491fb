//! The fields that descriptors and directory records are made of.
use vstd::prelude::*;

use crate::bytes::{
    append_bytes, be16, be16_bytes, be32, be32_bytes, be32_round_trip, bytes_of_u16, bytes_of_u32,
    copy_of, field, fill, filled, from_be16, from_be32, from_le16, from_le32, le16, le16_bytes,
    le32, le32_bytes, le32_round_trip, put, put_bytes, read_be16, read_be32, read_le16, read_le32,
};
use crate::error::{failure, failure_at, Error, ErrorKind, Failure};
use crate::manifest::PvdU16Encoding;
use crate::model::agrees;
use crate::raw_cd::Block;
use crate::text::{from_utf8, trim_fixed, trimmed, utf8};

verus! {

/// A 16-bit integer in both byte orders, one after the other.
pub open spec fn both16(value: u16) -> Seq<u8> {
    le16(value) + be16(value)
}

/// A 32-bit integer in both byte orders, one after the other.
pub open spec fn both32(value: u32) -> Seq<u8> {
    le32(value) + be32(value)
}

/// The 16-bit integer that stands at an offset in both byte orders.
pub open spec fn read_both16(bytes: Seq<u8>, offset: int) -> Result<u16, Failure> {
    let little = from_le16(field(bytes, offset, 2));
    if little == from_be16(field(bytes, offset + 2, 2)) {
        Ok(little)
    } else {
        Err(failure_at(ErrorKind::MismatchedU16, offset))
    }
}

/// The 32-bit integer that stands at an offset in both byte orders.
pub open spec fn read_both32(bytes: Seq<u8>, offset: int) -> Result<u32, Failure> {
    let little = from_le32(field(bytes, offset, 4));
    if little == from_be32(field(bytes, offset + 4, 4)) {
        Ok(little)
    } else {
        Err(failure_at(ErrorKind::MismatchedU32, offset))
    }
}

/// Reads a 16-bit integer that stands at `offset` in both byte orders.
pub fn read_both_u16(bytes: &[u8], offset: usize) -> (result: Result<u16, Error>)
    requires
        offset + 4 <= bytes.len(),
    ensures
        agrees(result, read_both16(bytes@, offset as int)),
{
    let little: u16 = read_le16(bytes, offset);
    let big: u16 = read_be16(bytes, offset + 2);
    if little != big {
        return Err(Error::at(ErrorKind::MismatchedU16, offset as u64));
    }
    Ok(little)
}

/// Reads a 32-bit integer that stands at `offset` in both byte orders.
pub fn read_both_u32(bytes: &[u8], offset: usize) -> (result: Result<u32, Error>)
    requires
        offset + 8 <= bytes.len(),
    ensures
        agrees(result, read_both32(bytes@, offset as int)),
{
    let little: u32 = read_le32(bytes, offset);
    let big: u32 = read_be32(bytes, offset + 4);
    if little != big {
        return Err(Error::at(ErrorKind::MismatchedU32, offset as u64));
    }
    Ok(little)
}

pub fn both16_bytes(value: u16) -> (bytes: Vec<u8>)
    ensures
        bytes@ == both16(value),
{
    let mut bytes: Vec<u8> = Vec::new();
    append_bytes(&mut bytes, le16_bytes(value).as_slice());
    append_bytes(&mut bytes, be16_bytes(value).as_slice());
    assert(bytes@ =~= both16(value));
    bytes
}

pub fn both32_bytes(value: u32) -> (bytes: Vec<u8>)
    ensures
        bytes@ == both32(value),
{
    let mut bytes: Vec<u8> = Vec::new();
    append_bytes(&mut bytes, le32_bytes(value).as_slice());
    append_bytes(&mut bytes, be32_bytes(value).as_slice());
    assert(bytes@ =~= both32(value));
    bytes
}

/// Writes a 16-bit integer in both byte orders.
pub fn write_both_u16(bytes: &mut Vec<u8>, offset: usize, value: u16)
    requires
        offset + 4 <= old(bytes).len(),
    ensures
        final(bytes)@ == put(old(bytes)@, offset as int, both16(value)),
{
    put_bytes(bytes, offset, both16_bytes(value).as_slice());
}

/// Writes a 32-bit integer in both byte orders.
pub fn write_both_u32(bytes: &mut Vec<u8>, offset: usize, value: u32)
    requires
        offset + 8 <= old(bytes).len(),
    ensures
        final(bytes)@ == put(old(bytes)@, offset as int, both32(value)),
{
    put_bytes(bytes, offset, both32_bytes(value).as_slice());
}

/// An integer written in both byte orders is read as that integer.
pub proof fn both16_round_trip(bytes: Seq<u8>, offset: int, value: u16)
    requires
        0 <= offset,
        offset + 4 <= bytes.len(),
        field(bytes, offset, 4) == both16(value),
    ensures
        read_both16(bytes, offset) == Ok::<u16, Failure>(value),
{
    let whole = field(bytes, offset, 4);
    assert(field(bytes, offset, 2) =~= le16(value)) by {
        assert forall|i: int| 0 <= i < 2 implies field(bytes, offset, 2)[i] == le16(value)[i] by {
            assert(whole[i] == bytes[offset + i]);
        }
    }
    assert(field(bytes, offset + 2, 2) =~= be16(value)) by {
        assert forall|i: int| 0 <= i < 2 implies field(bytes, offset + 2, 2)[i] == be16(value)[i] by {
            assert(whole[i + 2] == bytes[offset + 2 + i]);
        }
    }
}

/// An integer written in both byte orders is read as that integer.
pub proof fn both32_round_trip(bytes: Seq<u8>, offset: int, value: u32)
    requires
        0 <= offset,
        offset + 8 <= bytes.len(),
        field(bytes, offset, 8) == both32(value),
    ensures
        read_both32(bytes, offset) == Ok::<u32, Failure>(value),
{
    let whole = field(bytes, offset, 8);
    assert(field(bytes, offset, 4) =~= le32(value)) by {
        assert forall|i: int| 0 <= i < 4 implies field(bytes, offset, 4)[i] == le32(value)[i] by {
            assert(whole[i] == bytes[offset + i]);
        }
    }
    assert(field(bytes, offset + 4, 4) =~= be32(value)) by {
        assert forall|i: int| 0 <= i < 4 implies field(bytes, offset + 4, 4)[i] == be32(value)[i] by {
            assert(whole[i + 4] == bytes[offset + 4 + i]);
        }
    }
    le32_round_trip(value);
    be32_round_trip(value);
}

/// What is read from both byte orders is what both byte orders hold.
pub proof fn both32_of_bytes(bytes: Seq<u8>, offset: int, value: u32)
    requires
        0 <= offset,
        offset + 8 <= bytes.len(),
        read_both32(bytes, offset) == Ok::<u32, Failure>(value),
    ensures
        field(bytes, offset, 8) == both32(value),
{
    bytes_of_u32(field(bytes, offset, 4));
    bytes_of_u32(field(bytes, offset + 4, 4));
    assert(field(bytes, offset, 8) =~= field(bytes, offset, 4) + field(bytes, offset + 4, 4));
}

/// What is read from both byte orders is what both byte orders hold.
pub proof fn both16_of_bytes(bytes: Seq<u8>, offset: int, value: u16)
    requires
        0 <= offset,
        offset + 4 <= bytes.len(),
        read_both16(bytes, offset) == Ok::<u16, Failure>(value),
    ensures
        field(bytes, offset, 4) == both16(value),
{
    bytes_of_u16(field(bytes, offset, 2));
    bytes_of_u16(field(bytes, offset + 2, 2));
    assert(field(bytes, offset, 4) =~= field(bytes, offset, 2) + field(bytes, offset + 2, 2));
}

/// The three 16-bit fields of a descriptor agree in both byte orders.
pub open spec fn u16_fields_agree(block: Seq<u8>) -> bool {
    &&& from_le16(field(block, 120, 2)) == from_be16(field(block, 122, 2))
    &&& from_le16(field(block, 124, 2)) == from_be16(field(block, 126, 2))
    &&& from_le16(field(block, 128, 2)) == from_be16(field(block, 130, 2))
}

/// The three 16-bit fields of a descriptor are written in one byte order only.
pub open spec fn u16_fields_little_only(block: Seq<u8>) -> bool {
    &&& block[122] == 0 && block[123] == 0
    &&& block[126] == 0 && block[127] == 0
    &&& block[130] == 0 && block[131] == 0
}

/// How a descriptor writes its 16-bit fields.
pub open spec fn u16_encoding_of(block: Seq<u8>) -> Result<PvdU16Encoding, Failure> {
    if u16_fields_agree(block) {
        Ok(PvdU16Encoding::BothEndian)
    } else if u16_fields_little_only(block) {
        Ok(PvdU16Encoding::LittleEndianOnly)
    } else {
        Err(failure(ErrorKind::PvdU16Fields))
    }
}

/// Finds how a descriptor writes its 16-bit fields.
pub fn pvd_u16_encoding(block: &[u8]) -> (result: Result<PvdU16Encoding, Error>)
    requires
        block.len() == 2048,
    ensures
        match (result, u16_encoding_of(block@)) {
            (Ok(encoding), Ok(expected)) => encoding == expected,
            (Err(error), Err(failure)) => error@ == failure,
            _ => false,
        },
{
    if read_le16(block, 120) == read_be16(block, 122) && read_le16(block, 124) == read_be16(
        block,
        126,
    ) && read_le16(block, 128) == read_be16(block, 130) {
        return Ok(PvdU16Encoding::BothEndian);
    }
    if block[122] == 0 && block[123] == 0 && block[126] == 0 && block[127] == 0 && block[130] == 0
        && block[131] == 0 {
        Ok(PvdU16Encoding::LittleEndianOnly)
    } else {
        Err(Error::new(ErrorKind::PvdU16Fields))
    }
}

/// A 16-bit descriptor field.
pub open spec fn pvd_u16(value: u16, encoding: PvdU16Encoding) -> Seq<u8> {
    if encoding == PvdU16Encoding::BothEndian {
        both16(value)
    } else {
        le16(value)
    }
}

/// Writes a 16-bit descriptor field.
pub fn write_pvd_u16(bytes: &mut Vec<u8>, offset: usize, value: u16, encoding: PvdU16Encoding)
    requires
        offset + 4 <= old(bytes).len(),
    ensures
        final(bytes)@ == put(old(bytes)@, offset as int, pvd_u16(value, encoding)),
{
    if encoding == PvdU16Encoding::BothEndian {
        write_both_u16(bytes, offset, value);
    } else {
        put_bytes(bytes, offset, le16_bytes(value).as_slice());
    }
}

/// The text of a fixed field, without its padding.
pub open spec fn fixed_text(bytes: Seq<u8>, offset: int, length: int) -> Result<Seq<char>, Failure> {
    let part = field(bytes, offset, length);
    if vstd::utf8::valid_utf8(part) {
        Ok(trimmed(vstd::utf8::decode_utf8(part)))
    } else {
        Err(failure(ErrorKind::FixedStringUtf8))
    }
}

/// Reads the text of a fixed field, without its padding.
pub fn read_fixed(bytes: &[u8], offset: usize, length: usize) -> (result: Result<String, Error>)
    requires
        offset + length <= bytes.len(),
    ensures
        agrees(result, fixed_text(bytes@, offset as int, length as int)),
{
    match from_utf8(copy_of(bytes, offset, length)) {
        Some(text) => Ok(trim_fixed(text.as_str())),
        None => Err(Error::new(ErrorKind::FixedStringUtf8)),
    }
}

/// A fixed field: the text, then spaces.
#[verifier::opaque]
pub open spec fn fixed_field(text: Seq<char>, length: int) -> Result<Seq<u8>, Failure> {
    if vstd::utf8::is_ascii_chars(text) && utf8(text).len() <= length {
        Ok(utf8(text) + fill((length - utf8(text).len()) as nat, 32))
    } else {
        Err(failure(ErrorKind::FixedString))
    }
}

/// Makes a fixed field of a text.
pub fn fixed_bytes(length: usize, value: &str) -> (result: Result<Vec<u8>, Error>)
    ensures
        agrees(result, fixed_field(value@, length as int)),
        result matches Ok(bytes) ==> bytes.len() == length,
{
    reveal(fixed_field);
    let text: &[u8] = value.as_bytes();
    if !value.is_ascii() || text.len() > length {
        return Err(Error::new(ErrorKind::FixedString));
    }
    let mut bytes: Vec<u8> = copy_of(text, 0, text.len());
    assert(bytes@ =~= utf8(value@));
    append_bytes(&mut bytes, filled(length - text.len(), 32).as_slice());
    Ok(bytes)
}

/// Writes a text into a fixed field and fills it up with spaces.
pub fn write_fixed(bytes: &mut Vec<u8>, offset: usize, length: usize, value: &str) -> (result: Result<(), Error>)
    requires
        offset + length <= old(bytes).len(),
    ensures
        match (result, fixed_field(value@, length as int)) {
            (Ok(_), Ok(data)) => final(bytes)@ == put(old(bytes)@, offset as int, data),
            (Err(error), Err(failure)) => error@ == failure && final(bytes)@ == old(bytes)@,
            _ => false,
        },
        final(bytes).len() == old(bytes).len(),
{
    match fixed_bytes(length, value) {
        Ok(data) => {
            put_bytes(bytes, offset, data.as_slice());
            Ok(())
        },
        Err(error) => Err(error),
    }
}

/// Makes a block of its bytes.
pub fn to_block(bytes: &[u8]) -> (block: Block)
    requires
        bytes.len() == 2048,
    ensures
        block@ == bytes@,
{
    let mut block: Block = [0u8; 2048];
    let mut i: usize = 0;
    while i < 2048
        invariant
            i <= 2048,
            bytes.len() == 2048,
            block@.len() == 2048,
            forall|j: int| 0 <= j < i ==> block@[j] == bytes@[j],
        decreases 2048 - i,
    {
        block[i] = bytes[i];
        i = i + 1;
    }
    assert(block@ =~= bytes@);
    block
}

} // verus!
