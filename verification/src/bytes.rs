//! Integers as bytes in either order, and writing bytes into a buffer.
use vstd::prelude::*;

verus! {


/// A 16-bit integer, least significant byte first.
pub open spec fn le16(value: u16) -> Seq<u8> {
    seq![(value % 256) as u8, (value / 256) as u8]
}

/// A 16-bit integer, most significant byte first.
pub open spec fn be16(value: u16) -> Seq<u8> {
    seq![(value / 256) as u8, (value % 256) as u8]
}

/// A 32-bit integer, least significant byte first.
pub open spec fn le32(value: u32) -> Seq<u8> {
    seq![
        (value % 0x100) as u8,
        (value / 0x100 % 0x100) as u8,
        (value / 0x1_0000 % 0x100) as u8,
        (value / 0x100_0000) as u8,
    ]
}

/// A 32-bit integer, most significant byte first.
pub open spec fn be32(value: u32) -> Seq<u8> {
    seq![
        (value / 0x100_0000) as u8,
        (value / 0x1_0000 % 0x100) as u8,
        (value / 0x100 % 0x100) as u8,
        (value % 0x100) as u8,
    ]
}

/// The 16-bit integer that two bytes hold, least significant byte first.
pub open spec fn from_le16(bytes: Seq<u8>) -> u16 {
    (bytes[0] + bytes[1] * 0x100) as u16
}

/// The 16-bit integer that two bytes hold, most significant byte first.
pub open spec fn from_be16(bytes: Seq<u8>) -> u16 {
    (bytes[1] + bytes[0] * 0x100) as u16
}

/// The 32-bit integer that four bytes hold, least significant byte first.
pub open spec fn from_le32(bytes: Seq<u8>) -> u32 {
    (bytes[0] + bytes[1] * 0x100 + bytes[2] * 0x1_0000 + bytes[3] * 0x100_0000) as u32
}

/// The 32-bit integer that four bytes hold, most significant byte first.
pub open spec fn from_be32(bytes: Seq<u8>) -> u32 {
    (bytes[3] + bytes[2] * 0x100 + bytes[1] * 0x1_0000 + bytes[0] * 0x100_0000) as u32
}

/// The `count` bytes at `offset`.
pub open spec fn field(bytes: Seq<u8>, offset: int, count: int) -> Seq<u8> {
    bytes.subrange(offset, offset + count)
}

/// `bytes` with `data` written over it at `offset`.
pub open spec fn put(bytes: Seq<u8>, offset: int, data: Seq<u8>) -> Seq<u8> {
    Seq::new(
        bytes.len(),
        |i: int| if offset <= i < offset + data.len() { data[i - offset] } else { bytes[i] },
    )
}

/// `count` bytes of one value.
pub open spec fn fill(count: nat, value: u8) -> Seq<u8> {
    Seq::new(count, |i: int| value)
}

/// No byte differs from `value`.
pub open spec fn all_are(bytes: Seq<u8>, value: u8) -> bool {
    forall|i: int| 0 <= i < bytes.len() ==> bytes[i] == value
}

/// A 16-bit integer survives being written and read, in either byte order.
pub broadcast proof fn u16_round_trip(value: u16)
    ensures
        from_le16(#[trigger] le16(value)) == value,
        from_be16(be16(value)) == value,
        le16(value).len() == 2,
        be16(value).len() == 2,
{
}

/// A 16-bit integer survives being written and read, most significant byte first.
pub broadcast proof fn be16_round_trip(value: u16)
    ensures
        from_be16(#[trigger] be16(value)) == value,
        be16(value).len() == 2,
{
}

/// A number below 2 to the power of 32 is the sum of its four digits in base 256.
proof fn digits_add_up(value: int)
    requires
        0 <= value <= 0xffff_ffff,
    ensures
        value == value % 0x100 + value / 0x100 % 0x100 * 0x100 + value / 0x1_0000 % 0x100 * 0x1_0000
            + value / 0x100_0000 * 0x100_0000,
        0 <= value % 0x100 < 0x100,
        0 <= value / 0x100 % 0x100 < 0x100,
        0 <= value / 0x1_0000 % 0x100 < 0x100,
        0 <= value / 0x100_0000 < 0x100,
{
    let first = value / 0x100;
    let second = first / 0x100;
    let third = second / 0x100;
    assert(value / 0x1_0000 == second);
    assert(value / 0x100_0000 == third);
    assert(value == first * 0x100 + value % 0x100);
    assert(first == second * 0x100 + first % 0x100);
    assert(second == third * 0x100 + second % 0x100);
}

/// A 32-bit integer survives being written and read, least significant byte first.
pub broadcast proof fn le32_round_trip(value: u32)
    ensures
        from_le32(#[trigger] le32(value)) == value,
        le32(value).len() == 4,
{
    digits_add_up(value as int);
}

/// A 32-bit integer survives being written and read, most significant byte first.
pub broadcast proof fn be32_round_trip(value: u32)
    ensures
        from_be32(#[trigger] be32(value)) == value,
        be32(value).len() == 4,
{
    digits_add_up(value as int);
}

/// Two bytes are the encoding of the integer they hold.
pub proof fn bytes_of_u16(bytes: Seq<u8>)
    requires
        bytes.len() == 2,
    ensures
        le16(from_le16(bytes)) == bytes,
        be16(from_be16(bytes)) == bytes,
{
    assert(le16(from_le16(bytes)) =~= bytes);
    assert(be16(from_be16(bytes)) =~= bytes);
}

/// Four bytes are the encoding of the integer they hold.
pub proof fn bytes_of_u32(bytes: Seq<u8>)
    requires
        bytes.len() == 4,
    ensures
        le32(from_le32(bytes)) == bytes,
        be32(from_be32(bytes)) == bytes,
{
    digits_of(bytes[0] as int, bytes[1] as int, bytes[2] as int, bytes[3] as int);
    digits_of(bytes[3] as int, bytes[2] as int, bytes[1] as int, bytes[0] as int);
    assert(le32(from_le32(bytes)) =~= bytes);
    assert(be32(from_be32(bytes)) =~= bytes);
}

/// The bytes of an integer, least significant byte first, spell it in base 256 from the last
/// one on.
pub proof fn le32_spells(value: u32)
    ensures
        le32(value).len() == 4,
        le32(value)[3] * 16777216 + le32(value)[2] * 65536 + le32(value)[1] * 256 + le32(value)[0]
            == value,
{
    digits_add_up(value as int);
}

/// The bytes of an integer, most significant byte first, spell it in base 256 from the first
/// one on.
pub proof fn be32_spells(value: u32)
    ensures
        be32(value).len() == 4,
        be32(value)[0] * 16777216 + be32(value)[1] * 65536 + be32(value)[2] * 256 + be32(value)[3]
            == value,
{
    digits_add_up(value as int);
}

/// The two bytes of an integer spell it in base 256, from the last one on where the least
/// significant one comes first, and from the first one on where the most significant does.
pub proof fn u16_spells(value: u16)
    ensures
        le16(value).len() == 2,
        be16(value).len() == 2,
        le16(value)[1] * 256 + le16(value)[0] == value,
        be16(value)[0] * 256 + be16(value)[1] == value,
{
}

/// The base-256 digits of a number made of four digits.
proof fn digits_of(a: int, b: int, c: int, d: int)
    requires
        0 <= a < 256,
        0 <= b < 256,
        0 <= c < 256,
        0 <= d < 256,
    ensures
        ({
            let value = a + b * 0x100 + c * 0x1_0000 + d * 0x100_0000;
            &&& 0 <= value <= u32::MAX
            &&& value % 0x100 == a
            &&& value / 0x100 % 0x100 == b
            &&& value / 0x1_0000 % 0x100 == c
            &&& value / 0x100_0000 == d
        }),
{
    let value = a + b * 0x100 + c * 0x1_0000 + d * 0x100_0000;
    assert(value / 0x100 == b + c * 0x100 + d * 0x1_0000);
    assert(value / 0x1_0000 == c + d * 0x100);
}

pub fn le16_bytes(value: u16) -> (bytes: [u8; 2])
    ensures
        bytes@ == le16(value),
{
    let bytes: [u8; 2] = [(value % 256) as u8, (value / 256) as u8];
    assert(bytes@ =~= le16(value));
    bytes
}

pub fn be16_bytes(value: u16) -> (bytes: [u8; 2])
    ensures
        bytes@ == be16(value),
{
    let bytes: [u8; 2] = [(value / 256) as u8, (value % 256) as u8];
    assert(bytes@ =~= be16(value));
    bytes
}

pub fn le32_bytes(value: u32) -> (bytes: [u8; 4])
    ensures
        bytes@ == le32(value),
{
    let bytes: [u8; 4] = [
        (value % 0x100) as u8,
        (value / 0x100 % 0x100) as u8,
        (value / 0x1_0000 % 0x100) as u8,
        (value / 0x100_0000) as u8,
    ];
    assert(bytes@ =~= le32(value));
    bytes
}

pub fn be32_bytes(value: u32) -> (bytes: [u8; 4])
    ensures
        bytes@ == be32(value),
{
    let bytes: [u8; 4] = [
        (value / 0x100_0000) as u8,
        (value / 0x1_0000 % 0x100) as u8,
        (value / 0x100 % 0x100) as u8,
        (value % 0x100) as u8,
    ];
    assert(bytes@ =~= be32(value));
    bytes
}

pub fn read_le16(bytes: &[u8], offset: usize) -> (value: u16)
    requires
        offset + 2 <= bytes.len(),
    ensures
        value == from_le16(field(bytes@, offset as int, 2)),
{
    bytes[offset] as u16 + bytes[offset + 1] as u16 * 0x100
}

pub fn read_be16(bytes: &[u8], offset: usize) -> (value: u16)
    requires
        offset + 2 <= bytes.len(),
    ensures
        value == from_be16(field(bytes@, offset as int, 2)),
{
    bytes[offset + 1] as u16 + bytes[offset] as u16 * 0x100
}

pub fn read_le32(bytes: &[u8], offset: usize) -> (value: u32)
    requires
        offset + 4 <= bytes.len(),
    ensures
        value == from_le32(field(bytes@, offset as int, 4)),
{
    bytes[offset] as u32 + bytes[offset + 1] as u32 * 0x100 + bytes[offset + 2] as u32 * 0x1_0000
        + bytes[offset + 3] as u32 * 0x100_0000
}

pub fn read_be32(bytes: &[u8], offset: usize) -> (value: u32)
    requires
        offset + 4 <= bytes.len(),
    ensures
        value == from_be32(field(bytes@, offset as int, 4)),
{
    bytes[offset + 3] as u32 + bytes[offset + 2] as u32 * 0x100 + bytes[offset + 1] as u32 * 0x1_0000
        + bytes[offset] as u32 * 0x100_0000
}

/// Writes `data` over `bytes` at `offset`.
pub fn put_bytes(bytes: &mut Vec<u8>, offset: usize, data: &[u8])
    requires
        offset + data.len() <= old(bytes).len(),
    ensures
        final(bytes)@ == put(old(bytes)@, offset as int, data@),
{
    let mut i: usize = 0;
    while i < data.len()
        invariant
            i <= data.len(),
            offset + data.len() <= old(bytes).len(),
            bytes@ == put(old(bytes)@, offset as int, data@.take(i as int)),
        decreases data.len() - i,
    {
        bytes.set(offset + i, data[i]);
        i = i + 1;
        assert(bytes@ =~= put(old(bytes)@, offset as int, data@.take(i as int)));
    }
    assert(data@.take(data.len() as int) =~= data@);
}

/// Appends `data` to `bytes`.
pub fn append_bytes(bytes: &mut Vec<u8>, data: &[u8])
    ensures
        final(bytes)@ == old(bytes)@ + data@,
{
    let mut i: usize = 0;
    while i < data.len()
        invariant
            i <= data.len(),
            bytes@ == old(bytes)@ + data@.take(i as int),
        decreases data.len() - i,
    {
        bytes.push(data[i]);
        i = i + 1;
        assert(bytes@ =~= old(bytes)@ + data@.take(i as int));
    }
    assert(data@.take(data.len() as int) =~= data@);
}

/// `count` bytes of one value.
pub fn filled(count: usize, value: u8) -> (bytes: Vec<u8>)
    ensures
        bytes@ == fill(count as nat, value),
{
    let mut bytes: Vec<u8> = Vec::with_capacity(count);
    let mut i: usize = 0;
    while i < count
        invariant
            i <= count,
            bytes@ == fill(i as nat, value),
        decreases count - i,
    {
        bytes.push(value);
        i = i + 1;
        assert(bytes@ =~= fill(i as nat, value));
    }
    bytes
}

/// A copy of the `count` bytes at `offset`.
pub fn copy_of(bytes: &[u8], offset: usize, count: usize) -> (result: Vec<u8>)
    requires
        offset + count <= bytes.len(),
    ensures
        result@ == field(bytes@, offset as int, count as int),
{
    let mut result: Vec<u8> = Vec::with_capacity(count);
    let mut i: usize = 0;
    while i < count
        invariant
            i <= count,
            offset + count <= bytes.len(),
            result@ == field(bytes@, offset as int, i as int),
        decreases count - i,
    {
        result.push(bytes[offset + i]);
        i = i + 1;
        assert(result@ =~= field(bytes@, offset as int, i as int));
    }
    result
}

/// Whether two runs of bytes are the same.
pub fn same_bytes(left: &[u8], right: &[u8]) -> (same: bool)
    ensures
        same <==> left@ == right@,
{
    if left.len() != right.len() {
        return false;
    }
    let mut i: usize = 0;
    while i < left.len()
        invariant
            i <= left.len(),
            left.len() == right.len(),
            left@.take(i as int) == right@.take(i as int),
        decreases left.len() - i,
    {
        if left[i] != right[i] {
            assert(left@[i as int] != right@[i as int]);
            return false;
        }
        i = i + 1;
        assert(left@.take(i as int) =~= right@.take(i as int)) by {
            assert(left@.take(i as int) =~= left@.take(i - 1).push(left@[i - 1]));
            assert(right@.take(i as int) =~= right@.take(i - 1).push(right@[i - 1]));
        }
    }
    assert(left@.take(left.len() as int) =~= left@);
    assert(right@.take(right.len() as int) =~= right@);
    true
}

/// Whether no byte differs from `value`.
pub fn all_bytes_are(bytes: &[u8], value: u8) -> (all: bool)
    ensures
        all == all_are(bytes@, value),
{
    let mut i: usize = 0;
    while i < bytes.len()
        invariant
            i <= bytes.len(),
            forall|j: int| 0 <= j < i ==> bytes@[j] == value,
        decreases bytes.len() - i,
    {
        if bytes[i] != value {
            return false;
        }
        i = i + 1;
    }
    true
}

/// The index past the last byte that differs from `value`, or zero.
pub open spec fn used_length(bytes: Seq<u8>, value: u8) -> nat
    decreases bytes.len(),
{
    if bytes.len() == 0 {
        0
    } else if bytes.last() != value {
        bytes.len()
    } else {
        used_length(bytes.drop_last(), value)
    }
}

/// Only `value` stands past the used length, and something else just before it.
pub proof fn used_length_is_last(bytes: Seq<u8>, value: u8)
    ensures
        used_length(bytes, value) <= bytes.len(),
        forall|i: int| used_length(bytes, value) <= i < bytes.len() ==> bytes[i] == value,
        used_length(bytes, value) > 0 ==> bytes[used_length(bytes, value) - 1] != value,
    decreases bytes.len(),
{
    if bytes.len() > 0 && bytes.last() == value {
        used_length_is_last(bytes.drop_last(), value);
        let shorter = bytes.drop_last();
        assert forall|i: int| used_length(bytes, value) <= i < bytes.len() implies bytes[i] == value by {
            if i < shorter.len() {
                assert(shorter[i] == bytes[i]);
            }
        }
    }
}

pub fn measure_used(bytes: &[u8], value: u8) -> (length: usize)
    ensures
        length == used_length(bytes@, value),
{
    let mut length: usize = bytes.len();
    assert(bytes@.take(length as int) =~= bytes@);
    while length > 0 && bytes[length - 1] == value
        invariant
            length <= bytes.len(),
            used_length(bytes@.take(length as int), value) == used_length(bytes@, value),
        decreases length,
    {
        assert(bytes@.take(length as int).drop_last() =~= bytes@.take(length - 1));
        length = length - 1;
    }
    length
}

} // verus!
