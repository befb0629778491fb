//! What patches are stored as, byte by byte, and what they say of their target.
use vstd::prelude::*;

use crate::bytes::{bytes_of_u32, field, from_le32, le32, le32_spells};
use crate::error::Failure;
use crate::ppf::{
    check_of, header_stored, made_patch, parsed_patch, patch_stored, record_stored, records_from,
    records_stored, stored_keeps, target_check, touches, PatchModel, PpfModel,
};

verus! {

/// A patch is stored with the letters `PPF20`, the byte 1 and a description of fifty bytes
/// before the size of its target, the least significant byte first, and 1024 bytes of it.
pub proof fn header_is_spelled(patch: PpfModel)
    requires
        patch.block_check.len() == 1024,
    ensures
        ({
            let bytes = patch_stored(patch);
            &&& bytes.len() >= 1084
            &&& bytes[0] as char == 'P' && bytes[1] as char == 'P' && bytes[2] as char == 'F'
                && bytes[3] as char == '2' && bytes[4] as char == '0'
            &&& bytes[5] == 1
            &&& bytes[56] + bytes[57] * 256 + bytes[58] * 65536 + bytes[59] * 16777216
                == patch.target_size
            &&& forall|i: int| 0 <= i < 1024 ==> bytes[60 + i] == #[trigger] patch.block_check[i]
            &&& patch.records.len() == 0 ==> bytes.len() == 1084
        }),
{
    let header = header_stored(patch);
    let bytes = patch_stored(patch);
    stored_keeps(patch.records, 0, header);
    le32_spells(patch.target_size);
    assert(header.len() == 1084);
    assert forall|i: int| 0 <= i < 1084 implies #[trigger] bytes[i] == header[i] by {
        assert(bytes.take(1084)[i] == header[i]);
    }
    assert(header[56] == le32(patch.target_size)[0] && header[57] == le32(patch.target_size)[1]
        && header[58] == le32(patch.target_size)[2] && header[59] == le32(patch.target_size)[3]);
    assert forall|i: int| 0 <= i < 1024 implies bytes[60 + i] == #[trigger] patch.block_check[i] by {
        assert(header[60 + i] == patch.block_check[i]);
    }
}

/// The records of a patch are stored one behind the other, each as its offset, the least
/// significant byte first, the number of its bytes, and the bytes.
pub proof fn records_are_spelled(patch: PpfModel, record: PatchModel)
    requires
        record.data.len() <= 255,
    ensures
        ({
            let before = patch_stored(patch);
            let after = patch_stored(PpfModel { records: patch.records.push(record), ..patch });
            let at = before.len() as int;
            &&& after.len() == at + 5 + record.data.len()
            &&& after.take(at) == before
            &&& after[at] + after[at + 1] * 256 + after[at + 2] * 65536 + after[at + 3] * 16777216
                == record.offset
            &&& after[at + 4] == record.data.len()
            &&& forall|i: int|
                0 <= i < record.data.len() ==> after[at + 5 + i] == #[trigger] record.data[i]
        }),
{
    let longer = PpfModel { records: patch.records.push(record), ..patch };
    assert(header_stored(longer) == header_stored(patch));
    record_follows(patch.records, record, 0, header_stored(patch));
    le32_spells(record.offset);
    let before = patch_stored(patch);
    let after = patch_stored(longer);
    let at = before.len() as int;
    assert(after == before + record_stored(record));
    assert(after.take(at) =~= before);
    assert(after[at] == le32(record.offset)[0] && after[at + 1] == le32(record.offset)[1]
        && after[at + 2] == le32(record.offset)[2] && after[at + 3] == le32(record.offset)[3]);
}

proof fn record_follows(
    records: Seq<PatchModel>,
    record: PatchModel,
    index: int,
    written: Seq<u8>,
)
    requires
        0 <= index <= records.len(),
    ensures
        records_stored(records.push(record), index, written) == records_stored(
            records,
            index,
            written,
        ) + record_stored(record),
    decreases records.len() - index,
{
    let all = records.push(record);
    if index < records.len() {
        assert(all[index] == records[index]);
        record_follows(records, record, index + 1, written + record_stored(records[index]));
    } else {
        assert(all[index] == record);
        assert(records_stored(all, index + 1, written + record_stored(record)) == written
            + record_stored(record));
    }
}

/// A patch is made for a target of 38688 bytes or more, in which its records lie, and repeats
/// the 1024 bytes of the target from byte 37664 on.
pub proof fn patch_repeats_its_target(target: Seq<u8>, records: Seq<PatchModel>)
    ensures
        made_patch(target, records) is Ok <==> 38688 <= target.len() <= 0xffff_ffff && forall|
            i: int,
        |
            0 <= i < records.len() ==> (#[trigger] records[i]).offset + records[i].data.len()
                <= target.len(),
        made_patch(target, records) matches Ok(patch) ==> {
            &&& patch.target_size == target.len()
            &&& patch.records == records
            &&& patch.block_check.len() == 1024
            &&& forall|i: int|
                0 <= i < 1024 ==> #[trigger] patch.block_check[i] == target[37664 + i]
        },
{
    let small = target.len() <= u32::MAX;
    assert forall|i: int| 0 <= i < records.len() implies (#[trigger] records[i]).end()
        == records[i].offset + records[i].data.len() by {}
}

/// A target is the one that a patch was made for exactly when it has its size, and the 1024
/// bytes from byte 37664 on that the patch repeats.
pub proof fn target_is_known_by_its_bytes(patch: PpfModel, target: Seq<u8>)
    requires
        patch.block_check.len() == 1024,
        patch.target_size >= 38688,
    ensures
        target_check(patch, target) is Ok <==> target.len() == patch.target_size && forall|i: int|
            0 <= i < 1024 ==> #[trigger] patch.block_check[i] == target[37664 + i],
{
    if target.len() == patch.target_size {
        let part = check_of(target);
        if target_check(patch, target) is Ok {
            assert forall|i: int| 0 <= i < 1024 implies #[trigger] patch.block_check[i]
                == target[37664 + i] by {
                assert(part[i] == target[37664 + i]);
            }
        }
        if forall|i: int| 0 <= i < 1024 ==> #[trigger] patch.block_check[i] == target[37664 + i] {
            assert(part =~= patch.block_check);
        }
    }
}

/// A record touches the sectors in which its bytes lie.
pub proof fn record_touches_the_sectors_of_its_bytes(record: PatchModel, size: usize, sector: usize)
    requires
        size > 0,
        record.data.len() > 0,
    ensures
        touches(record, size, sector) <==> exists|i: int|
            record.offset <= i < record.offset + record.data.len() && sector == #[trigger] (i
                / size as int),
{
    let first = record.offset as int;
    let last = first + record.data.len() - 1;
    let width = size as int;
    if touches(record, size, sector) {
        let start = sector * width;
        let i = if start < first {
            first
        } else {
            start
        };
        assert(first <= i <= last && i / width == sector) by (nonlinear_arith)
            requires
                width > 0,
                first <= last,
                start == sector * width,
                i == (if start < first {
                    first
                } else {
                    start
                }),
                first / width <= sector <= last / width,
                first >= 0,
        ;
        assert(sector == i / size as int);
    }
    if exists|i: int| first <= i < first + record.data.len() && sector == #[trigger] (i
        / size as int) {
        let i = choose|i: int|
            first <= i < first + record.data.len() && sector == #[trigger] (i / size as int);
        assert(first / width <= i / width <= last / width) by (nonlinear_arith)
            requires
                width > 0,
                first <= i <= last,
        ;
    }
}

/// What is read as a patch is what is stored for it, but for the description: the letters
/// `PPF20`, the byte 1, the size and the bytes of the target, and the records.
pub proof fn read_patch_is_stored(bytes: Seq<u8>, patch: PpfModel)
    requires
        parsed_patch(bytes) == Ok::<PpfModel, Failure>(patch),
    ensures
        bytes.len() == patch_stored(patch).len(),
        forall|i: int|
            0 <= i < bytes.len() && !(6 <= i < 56) ==> #[trigger] bytes[i] == patch_stored(
                patch,
            )[i],
        patch.target_size >= 38688,
        patch.block_check.len() == 1024,
{
    let header = header_stored(patch);
    let given = bytes.take(1084);
    let stored = patch_stored(patch);
    read_records_are_stored(bytes, 1084, Seq::empty(), given);
    assert(records_stored(patch.records, 0, given) == bytes);
    start_is_free(patch.records, 0, given, header);
    stored_keeps(patch.records, 0, header);
    bytes_of_u32(field(bytes, 56, 4));
    assert(header.len() == 1084 && given.len() == 1084);
    assert forall|i: int| 0 <= i < bytes.len() && !(6 <= i < 56) implies #[trigger] bytes[i]
        == stored[i] by {
        if i < 1084 {
            assert(stored.take(1084)[i] == header[i]);
            if i < 5 {
                assert(bytes.subrange(0, 5)[i] == bytes[i]);
            } else if i >= 60 {
                assert(header[i] == patch.block_check[i - 60]);
                assert(bytes.subrange(60, 1084)[i - 60] == bytes[i]);
            } else if i >= 56 {
                assert(header[i] == le32(patch.target_size)[i - 56]);
                assert(field(bytes, 56, 4)[i - 56] == bytes[i]);
            }
        } else {
            assert(bytes.skip(1084)[i - 1084] == stored.skip(1084)[i - 1084]);
        }
    }
}

proof fn start_is_free(records: Seq<PatchModel>, index: int, left: Seq<u8>, right: Seq<u8>)
    requires
        left.len() == right.len(),
    ensures
        records_stored(records, index, left).len() == records_stored(records, index, right).len(),
        records_stored(records, index, left).len() >= left.len(),
        records_stored(records, index, left).skip(left.len() as int) == records_stored(
            records,
            index,
            right,
        ).skip(left.len() as int),
    decreases records.len() - index,
{
    if 0 <= index < records.len() {
        let more = record_stored(records[index]);
        start_is_free(records, index + 1, left + more, right + more);
        let all = records_stored(records, index, left);
        let other = records_stored(records, index, right);
        stored_keeps(records, index + 1, left + more);
        stored_keeps(records, index + 1, right + more);
        let n = left.len() as int;
        let m = n + more.len();
        assert forall|i: int| n <= i < all.len() implies all[i] == other[i] by {
            if i < m {
                assert(all.take(m)[i] == (left + more)[i]);
                assert(other.take(m)[i] == (right + more)[i]);
            } else {
                assert(all.skip(m)[i - m] == other.skip(m)[i - m]);
            }
        }
        assert(all.skip(n) =~= other.skip(n));
    } else {
        assert(left.skip(left.len() as int) =~= right.skip(left.len() as int));
    }
}

proof fn read_records_are_stored(
    bytes: Seq<u8>,
    position: int,
    read: Seq<PatchModel>,
    written: Seq<u8>,
)
    requires
        0 <= position <= bytes.len(),
        written == bytes.take(position),
        records_from(bytes, position, read) is Ok,
    ensures
        ({
            let records = records_from(bytes, position, read)->Ok_0;
            &&& records.len() >= read.len()
            &&& records.take(read.len() as int) == read
            &&& records_stored(records, read.len() as int, written) == bytes
        }),
    decreases bytes.len() - position,
{
    let records = records_from(bytes, position, read)->Ok_0;
    if position >= bytes.len() {
        assert(records.take(read.len() as int) =~= read);
        assert(bytes.take(position) =~= bytes);
    } else {
        let length = bytes[position + 4] as int;
        let record = PatchModel {
            offset: from_le32(field(bytes, position, 4)),
            data: bytes.subrange(position + 5, position + 5 + length),
        };
        let next = position + 5 + length;
        bytes_of_u32(field(bytes, position, 4));
        assert(written + record_stored(record) =~= bytes.take(next)) by {
            let stored = record_stored(record);
            assert(stored.len() == 5 + length);
            assert forall|i: int| 0 <= i < stored.len() implies stored[i] == bytes[position + i] by {
                if i < 4 {
                    assert(field(bytes, position, 4)[i] == bytes[position + i]);
                }
            }
        }
        read_records_are_stored(bytes, next, read.push(record), bytes.take(next));
        let n = read.len() as int;
        assert(records.take(n + 1)[n] == record);
        assert(records.take(n) =~= records.take(n + 1).take(n));
        assert(read.push(record).take(n) =~= read);
        assert(records[n] == record);
    }
}

} // verus!
