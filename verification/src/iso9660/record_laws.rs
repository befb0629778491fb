//! Directory records and their XA data survive being read and written.
use vstd::prelude::*;

use crate::bytes::{be16, be16_round_trip, bytes_of_u16, field, from_be16};
use crate::error::Failure;
use crate::iso9660::description::EntryXaModel;
use crate::iso9660::fields::{
    both16, both16_of_bytes, both16_round_trip, both32, both32_of_bytes, both32_round_trip,
};
use crate::iso9660::record::{
    attributes_of, default_attributes, is_xa, name_length_of, pads_at_end, parsed_record, parsed_xa,
    permissions_of, record_bytes, record_layout, recorded_xa, size_of_record, xa_bytes, RecordModel,
    XA_PERMISSION_MASK,
};
use crate::manifest::DEFAULT_XA_PERMISSIONS;

verus! {

/// Where the parts of a written record lie.
pub proof fn record_parts(record: RecordModel)
    requires
        record.recording_time.len() == 7,
        size_of_record(record.name.len() as int, record.system_use.len() as int) <= 255,
    ensures
        ({
            let bytes = record_layout(record);
            let size = size_of_record(record.name.len() as int, record.system_use.len() as int);
            let start = 33 + record.name.len() as int;
            let even = record.name.len() % 2 == 0;
            &&& bytes.len() == size
            &&& bytes[0] == size
            &&& bytes[1] == 0
            &&& field(bytes, 2, 8) == both32(record.extent)
            &&& field(bytes, 10, 8) == both32(record.length)
            &&& bytes.subrange(18, 25) == record.recording_time
            &&& bytes[25] == record.flags
            &&& bytes[26] == record.file_unit_size
            &&& bytes[27] == record.interleave_gap_size
            &&& field(bytes, 28, 4) == both16(record.volume_sequence_number)
            &&& bytes[32] == record.name.len()
            &&& bytes.subrange(33, start) == record.name
            &&& even && !record.trailing_system_use_padding ==> bytes[start] == 0
                && bytes.subrange(start + 1, size) == record.system_use
            &&& even && record.trailing_system_use_padding ==> bytes[size - 1] == 0
                && bytes.subrange(start, size - 1) == record.system_use
            &&& !even ==> bytes.subrange(start, size) == record.system_use
        }),
{
    let bytes = record_layout(record);
    let size = size_of_record(record.name.len() as int, record.system_use.len() as int);
    let start = 33 + record.name.len() as int;
    assert(both32(record.extent).len() == 8 && both32(record.length).len() == 8 && both16(
        record.volume_sequence_number,
    ).len() == 4);
    assert(field(bytes, 2, 8) =~= both32(record.extent));
    assert(field(bytes, 10, 8) =~= both32(record.length));
    assert(bytes.subrange(18, 25) =~= record.recording_time);
    assert(field(bytes, 28, 4) =~= both16(record.volume_sequence_number));
    assert(bytes.subrange(33, start) =~= record.name);
    let even = record.name.len() % 2 == 0;
    if even && !record.trailing_system_use_padding {
        assert(bytes.subrange(start + 1, size) =~= record.system_use);
    } else if even {
        assert(bytes.subrange(start, size - 1) =~= record.system_use);
    } else {
        assert(bytes.subrange(start, size) =~= record.system_use);
    }
}

/// A record that is written is read as it was, if its system-use data is empty
/// or XA data, and its padding is put at the end only where XA data shows it.
pub proof fn record_survives(record: RecordModel)
    requires
        record.recording_time.len() == 7,
        size_of_record(record.name.len() as int, record.system_use.len() as int) <= 255,
        record.system_use.len() == 0 || is_xa(record.system_use),
        record.trailing_system_use_padding ==> record.name.len() % 2 == 0 && is_xa(record.system_use),
    ensures
        record_bytes(record) == Ok::<Seq<u8>, Failure>(record_layout(record)),
        parsed_record(record_layout(record)) == Ok::<RecordModel, Failure>(record),
{
    record_parts(record);
    let bytes = record_layout(record);
    let size = bytes[0] as int;
    let start = 33 + record.name.len() as int;
    both32_round_trip(bytes, 2, record.extent);
    both32_round_trip(bytes, 10, record.length);
    both16_round_trip(bytes, 28, record.volume_sequence_number);
    assert(pads_at_end(bytes) == record.trailing_system_use_padding) by {
        if record.name.len() % 2 == 0 {
            if record.trailing_system_use_padding {
                let shifted = bytes.subrange(start + 1, size);
                let data = bytes.subrange(start, size - 1);
                assert(data == record.system_use);
                assert(shifted.len() == 14);
                assert(shifted[6] == data[7]);
                assert(!is_xa(shifted));
            } else if record.system_use.len() == 0 {
                assert(bytes.subrange(start, size - 1).len() == 0);
            }
        }
    }
}

/// A record that is read is written as it was, if its unused byte and its
/// padding byte are zero.
pub proof fn record_bytes_survive(bytes: Seq<u8>, record: RecordModel)
    requires
        parsed_record(bytes) == Ok::<RecordModel, Failure>(record),
        bytes[1] == 0,
        record.name.len() % 2 == 0 && !record.trailing_system_use_padding ==> bytes[33
            + name_length_of(bytes)] == 0,
    ensures
        record_bytes(record) == Ok::<Seq<u8>, Failure>(bytes.take(bytes[0] as int)),
{
    let size = bytes[0] as int;
    let start = 33 + name_length_of(bytes);
    both32_of_bytes(bytes, 2, record.extent);
    both32_of_bytes(bytes, 10, record.length);
    both16_of_bytes(bytes, 28, record.volume_sequence_number);
    let expected = bytes.take(size);
    assert(size_of_record(record.name.len() as int, record.system_use.len() as int) == size);
    record_parts(record);
    let written = record_layout(record);
    assert forall|i: int| 0 <= i < size implies written[i] == bytes[i] by {
        if 2 <= i < 10 {
            assert(field(written, 2, 8)[i - 2] == field(bytes, 2, 8)[i - 2]);
        } else if 10 <= i < 18 {
            assert(field(written, 10, 8)[i - 10] == field(bytes, 10, 8)[i - 10]);
        } else if 18 <= i < 25 {
            assert(written.subrange(18, 25)[i - 18] == bytes.subrange(18, 25)[i - 18]);
        } else if 28 <= i < 32 {
            assert(field(written, 28, 4)[i - 28] == field(bytes, 28, 4)[i - 28]);
        } else if 33 <= i < start {
            assert(written.subrange(33, start)[i - 33] == bytes.subrange(33, start)[i - 33]);
        } else if i >= start {
            if record.name.len() % 2 != 0 {
                assert(written.subrange(start, size)[i - start] == bytes.subrange(start, size)[i
                    - start]);
            } else if record.trailing_system_use_padding {
                if i < size - 1 {
                    assert(written.subrange(start, size - 1)[i - start] == bytes.subrange(
                        start,
                        size - 1,
                    )[i - start]);
                }
            } else if i > start {
                assert(written.subrange(start + 1, size)[i - start - 1] == bytes.subrange(
                    start + 1,
                    size,
                )[i - start - 1]);
            }
        }
    }
    assert(written =~= expected);
}

/// XA system-use data that is read is written as it was.
pub proof fn xa_bytes_survive(
    path: Seq<char>,
    system_use: Seq<u8>,
    directory: bool,
    xa: Option<EntryXaModel>,
)
    requires
        parsed_xa(system_use, directory, true) == Ok::<Option<EntryXaModel>, Failure>(xa),
    ensures
        xa_bytes(path, xa, directory) == Ok::<Seq<u8>, Failure>(system_use),
{
    let raw = from_be16(field(system_use, 4, 2));
    bytes_of_u16(field(system_use, 0, 2));
    bytes_of_u16(field(system_use, 2, 2));
    bytes_of_u16(field(system_use, 4, 2));
    assert((raw & 0x07ff) | (raw & 0xf800) == raw) by (bit_vector);
    assert((raw & 0x07ff) & 0xf800 == 0) by (bit_vector);
    assert(0x0555u16 & 0xf800 == 0) by (bit_vector);
    assert(0x0800u16 & 0x8000 == 0) by (bit_vector);
    let written = be16(from_be16(field(system_use, 0, 2))) + be16(
        from_be16(field(system_use, 2, 2)),
    ) + be16(raw) + seq![88u8, 65u8, system_use[8], 0u8, 0u8, 0u8, 0u8, 0u8];
    assert(written =~= system_use) by {
        assert forall|i: int| 0 <= i < 14 implies written[i] == system_use[i] by {
            if i < 2 {
                assert(field(system_use, 0, 2)[i] == system_use[i]);
            } else if i < 4 {
                assert(field(system_use, 2, 2)[i - 2] == system_use[i]);
            } else if i < 6 {
                assert(field(system_use, 4, 2)[i - 4] == system_use[i]);
            }
        }
    }
    if xa is None {
        assert(be16(0) == field(system_use, 0, 2));
        assert(raw == 0x0555 | default_attributes(directory).0);
    }
}

/// The XA data of an entry is read as it was written: the fields that a record
/// carries, or nothing when they are what is assumed anyway.
pub proof fn xa_survives(path: Seq<char>, xa: Option<EntryXaModel>, directory: bool, system_use: Seq<u8>)
    requires
        xa_bytes(path, xa, directory) == Ok::<Seq<u8>, Failure>(system_use),
        attributes_of(xa, directory).0 & XA_PERMISSION_MASK == 0,
    ensures
        ({
            let attributes = attributes_of(xa, directory);
            let permissions = permissions_of(xa);
            let (group_id, user_id, file_number) = match xa {
                Some(xa) => (xa.group_id, xa.user_id, xa.file_number),
                None => (0u16, 0u16, 0u8),
            };
            parsed_xa(system_use, directory, true) == Ok::<Option<EntryXaModel>, Failure>(
                if group_id == 0 && user_id == 0 && permissions == DEFAULT_XA_PERMISSIONS
                    && attributes == default_attributes(directory) && file_number == 0 {
                    None
                } else {
                    Some(
                        recorded_xa(
                            group_id,
                            user_id,
                            permissions,
                            attributes,
                            file_number,
                        ),
                    )
                },
            )
        }),
{
    let attributes = attributes_of(xa, directory).0;
    let permissions = permissions_of(xa);
    let (group_id, user_id, file_number) = match xa {
        Some(xa) => (xa.group_id, xa.user_id, xa.file_number),
        None => (0u16, 0u16, 0u8),
    };
    let raw = permissions | attributes;
    assert(attributes & 0x07ff == 0 && permissions & 0xf800 == 0 ==> (permissions | attributes) & 0x07ff
        == permissions && (permissions | attributes) & 0xf800 == attributes) by (bit_vector);
    assert(be16(group_id).len() == 2 && be16(user_id).len() == 2 && be16(raw).len() == 2);
    assert(field(system_use, 0, 2) =~= be16(group_id));
    assert(field(system_use, 2, 2) =~= be16(user_id));
    assert(field(system_use, 4, 2) =~= be16(raw));
    be16_round_trip(group_id);
    be16_round_trip(user_id);
    be16_round_trip(raw);
    assert(is_xa(system_use));
}

} // verus!
