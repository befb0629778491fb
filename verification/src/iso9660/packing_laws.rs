//! How records are packed into directories, in which order directories are listed, and how
//! much they take.
use vstd::prelude::*;

use crate::bytes::u16_spells;
use crate::error::{ErrorKind, Failure};
use crate::iso9660::description::{EntryModel, PathTableCopies};
use crate::iso9660::descriptor_write::record_flags;
use crate::iso9660::directory::{
    child_record, child_records_from, directory_records, node_record, parent_record,
    recorded_length, FileModel, SpotModel, TreeOptions,
};
use crate::iso9660::directory_laws::recording_time_length;
use crate::iso9660::joliet::{joliet_identifier, ucs2_bytes};
use crate::iso9660::layout::{
    directory_size, table_extents, table_plan, table_size_from, table_size_grows,
};
use crate::iso9660::path_table::PlacementModel;
use crate::iso9660::record::{record_bytes, system_use_bytes, RecordModel};
use crate::iso9660::spelling_laws::{record_is_spelled, spells_down, spells_up};
use crate::iso9660::time::recording_time_bytes;
use crate::iso9660::tree::{
    is_child, joliet_node_identifier, packed, packed_from, primary_identifier, record_start,
    NodeModel,
};
use crate::manifest::{
    DirectoryLengthPolicy, DirectoryParentRecordingTime, DirectoryRecordPacking,
    PathTableOrder, XaLengthEncoding,
};
use crate::text::{last_index_of_unique, name_of};

verus! {

/// A record starts where the one before it ends, or at the next block where it would cross
/// into it, or would end with it and may not.
pub proof fn records_do_not_cross_blocks(
    offset: int,
    length: int,
    packing: DirectoryRecordPacking,
)
    requires
        0 <= offset,
        0 < length < 2048,
    ensures
        ({
            let start = record_start(offset, length, packing);
            &&& start / 2048 == (start + length - 1) / 2048
            &&& packing == DirectoryRecordPacking::AvoidExactFit ==> start / 2048 == (start + length)
                / 2048
            &&& start != offset ==> offset < start < offset + 2048 && start % 2048 == 0
            &&& start != offset && packing == DirectoryRecordPacking::Fill ==> offset + length
                > start
            &&& start != offset && packing == DirectoryRecordPacking::AvoidExactFit ==> offset
                + length >= start
        }),
{
    let start = record_start(offset, length, packing);
    let block = offset / 2048;
    assert(offset == block * 2048 + offset % 2048);
}

/// The length of a directory is where its last record ends: nothing takes nothing, and one
/// more record starts where it may behind those before it.
pub proof fn directory_ends_with_its_last_record(
    lengths: Seq<int>,
    length: int,
    packing: DirectoryRecordPacking,
)
    requires
        forall|i: int| 0 <= i < lengths.len() ==> 0 < #[trigger] lengths[i] < 2048,
        0 < length < 2048,
    ensures
        packed(Seq::empty(), packing) == 0,
        ({
            let before = packed(lengths, packing);
            let after = packed(lengths.push(length), packing);
            let room = (before / 2048 + 1) * 2048 - before;
            let fits = length < room || (length == room && packing
                == DirectoryRecordPacking::Fill);
            &&& before >= 0
            &&& fits ==> after == before + length
            &&& !fits ==> after == (before / 2048 + 1) * 2048 + length
        }),
{
    last_is_packed(lengths, length, 0, 0, packing);
    let before = packed(lengths, packing);
    assert(before == before / 2048 * 2048 + before % 2048);
    if before % 2048 == 0 {
        assert(record_start(before, length, packing) == before);
    }
}

proof fn last_is_packed(
    lengths: Seq<int>,
    length: int,
    index: int,
    offset: int,
    packing: DirectoryRecordPacking,
)
    requires
        0 <= index <= lengths.len(),
        0 <= offset,
        forall|i: int| 0 <= i < lengths.len() ==> 0 < #[trigger] lengths[i] < 2048,
    ensures
        packed_from(lengths, index, offset, packing) >= 0,
        packed_from(lengths.push(length), index, offset, packing) == record_start(
            packed_from(lengths, index, offset, packing),
            length,
            packing,
        ) + length,
    decreases lengths.len() - index,
{
    let all = lengths.push(length);
    if index < lengths.len() {
        assert(all[index] == lengths[index]);
        last_is_packed(
            lengths,
            length,
            index + 1,
            record_start(offset, lengths[index], packing) + lengths[index],
            packing,
        );
    } else {
        assert(all[index] == length);
        assert(packed_from(
            all,
            index + 1,
            record_start(offset, length, packing) + length,
            packing,
        ) == record_start(offset, length, packing) + length);
    }
}

/// A node has a record in a directory where it lies in it and is not the root.
pub open spec fn lies_in(node: NodeModel, path: Seq<char>) -> bool {
    node.path != seq!['.'] && node.parent == path
}

/// How many of the first nodes lie in a directory.
#[verifier::opaque]
pub open spec fn count_in(nodes: Seq<NodeModel>, path: Seq<char>, count: int) -> int
    decreases count,
{
    if count <= 0 {
        0
    } else {
        count_in(nodes, path, count - 1) + (if lies_in(nodes[count - 1], path) {
            1int
        } else {
            0
        })
    }
}

proof fn one_more_lies_in(nodes: Seq<NodeModel>, path: Seq<char>, index: int)
    requires
        0 <= index,
    ensures
        count_in(nodes, path, 0) == 0,
        count_in(nodes, path, index + 1) == count_in(nodes, path, index) + (if lies_in(
            nodes[index],
            path,
        ) {
            1int
        } else {
            0
        }),
{
    reveal(count_in);
}

/// A record is that of a node: where it points, its flags, and its name.
#[verifier::opaque]
pub open spec fn record_is_of(
    record: Seq<u8>,
    extent: u32,
    length: u32,
    name: Seq<u8>,
    directory: bool,
    hidden: bool,
    associated: bool,
) -> bool {
    &&& record.len() >= 34
    &&& record[0] == record.len()
    &&& record[1] == 0
    &&& spells_up(record, 2, extent)
    &&& spells_down(record, 6, extent)
    &&& spells_up(record, 10, length)
    &&& spells_down(record, 14, length)
    &&& record[25] == (if directory {
        2int
    } else {
        0
    }) + (if hidden {
        1int
    } else {
        0
    }) + (if associated {
        4int
    } else {
        0
    })
    &&& record[26] == 0 && record[27] == 0
    &&& record[28] == 1 && record[29] == 0 && record[30] == 0 && record[31] == 1
    &&& record[32] == name.len()
    &&& forall|i: int| 0 <= i < name.len() ==> record[33 + i] == #[trigger] name[i]
}

proof fn node_has_record(
    node: NodeModel,
    extent: u32,
    length: u32,
    name: Seq<u8>,
    directory: bool,
    trailing: bool,
    system_use: bool,
)
    requires
        name.len() > 0,
        node_record(node, extent, length, name, directory, trailing, system_use) is Ok,
    ensures
        ({
            let record = node_record(
                node,
                extent,
                length,
                name,
                directory,
                trailing,
                system_use,
            )->Ok_0;
            let time = recording_time_bytes(node.recording_time)->Ok_0;
            &&& record_is_of(
                record,
                extent,
                length,
                name,
                directory,
                node.hidden,
                node.associated,
            )
            &&& time.len() == 7
            &&& forall|i: int| 0 <= i < 7 ==> record[18 + i] == #[trigger] time[i]
        }),
{
    reveal(record_is_of);
    recording_time_length(node.recording_time);
    let time = recording_time_bytes(node.recording_time)->Ok_0;
    let data = system_use_bytes(node.path, node.xa, directory, system_use)->Ok_0;
    let model = RecordModel {
        extent,
        length,
        recording_time: time,
        flags: record_flags(directory, node.hidden, node.associated),
        file_unit_size: 0,
        interleave_gap_size: 0,
        volume_sequence_number: 1,
        name,
        system_use: data,
        trailing_system_use_padding: trailing,
    };
    record_is_spelled(model);
    let record = record_bytes(model)->Ok_0;
    assert(record[28] + record[29] * 256 == 1);
    assert(record[30] * 256 + record[31] == 1);
    assert forall|i: int| 0 <= i < 7 implies record[18 + i] == #[trigger] time[i] by {
        assert(record[18 + i] == model.recording_time[i]);
    }
}

/// The record of the directory above, with the time that the options say.
proof fn parent_has_record(
    nodes: Seq<NodeModel>,
    directory: PlacementModel,
    parent: PlacementModel,
    options: TreeOptions,
)
    requires
        parent_record(nodes, directory, parent, options) is Ok,
    ensures
        ({
            let above = parent_record(nodes, directory, parent, options)->Ok_0;
            &&& record_is_of(
                above,
                parent.extent,
                parent.length,
                seq![1u8],
                true,
                nodes[parent.entry].hidden,
                nodes[parent.entry].associated,
            )
            &&& recording_time_bytes(
                nodes[if options.parent_time == DirectoryParentRecordingTime::Current {
                    directory.entry
                } else {
                    parent.entry
                }].recording_time,
            ) == Ok::<Seq<u8>, Failure>(above.subrange(18, 25))
        }),
{
    let trailing = options.trailing_system_use_padding;
    let above = parent_record(nodes, directory, parent, options)->Ok_0;
    node_has_record(
        nodes[parent.entry],
        parent.extent,
        parent.length,
        seq![1u8],
        true,
        trailing,
        options.xa_system_use,
    );
    reveal(record_is_of);
    recording_time_length(nodes[directory.entry].recording_time);
    let plain = node_record(
        nodes[parent.entry],
        parent.extent,
        parent.length,
        seq![1u8],
        true,
        trailing,
        options.xa_system_use,
    )->Ok_0;
    let time = recording_time_bytes(
        nodes[if options.parent_time == DirectoryParentRecordingTime::Current {
            directory.entry
        } else {
            parent.entry
        }].recording_time,
    )->Ok_0;
    assert(above.len() == plain.len());
    assert forall|i: int| 0 <= i < above.len() && !(18 <= i < 25) implies #[trigger] above[i]
        == plain[i] by {}
    assert(above[2] == plain[2] && above[3] == plain[3] && above[4] == plain[4] && above[5]
        == plain[5] && above[6] == plain[6] && above[7] == plain[7] && above[8] == plain[8]
        && above[9] == plain[9] && above[10] == plain[10] && above[11] == plain[11] && above[12]
        == plain[12] && above[13] == plain[13] && above[14] == plain[14] && above[15] == plain[15]
        && above[16] == plain[16] && above[17] == plain[17]);
    let one = seq![1u8];
    assert forall|i: int| 0 <= i < one.len() implies above[33 + i] == #[trigger] one[i] by {
        assert(plain[33 + i] == one[i]);
    }
    assert(above.subrange(18, 25) =~= time) by {
        assert forall|i: int| 0 <= i < 7 implies above.subrange(18, 25)[i] == time[i] by {
            assert(above[18 + i] == time[i]);
        }
    }
}

/// The records of a directory: first its own, under the name 0, then that of the directory
/// above, under the name 1, and then those of all that lies in it, in the order of the
/// entries.
pub proof fn directory_lists_what_lies_in_it(
    nodes: Seq<NodeModel>,
    spots: Seq<SpotModel>,
    directory: PlacementModel,
    parent: PlacementModel,
    options: TreeOptions,
    records: Seq<Seq<u8>>,
)
    requires
        directory_records(nodes, spots, directory, parent, options) == Ok::<
            Seq<Seq<u8>>,
            Failure,
        >(records),
        forall|i: int| 0 <= i < nodes.len() ==> (#[trigger] nodes[i]).identifier.len() > 0,
    ensures
        records.len() == 2 + count_in(nodes, directory.path, nodes.len() as int),
        record_is_of(
            records[0],
            directory.extent,
            directory.length,
            seq![0u8],
            true,
            nodes[directory.entry].hidden,
            nodes[directory.entry].associated,
        ),
        record_is_of(
            records[1],
            parent.extent,
            parent.length,
            seq![1u8],
            true,
            nodes[parent.entry].hidden,
            nodes[parent.entry].associated,
        ),
        recording_time_bytes(
            nodes[if options.parent_time == DirectoryParentRecordingTime::Current {
                directory.entry
            } else {
                parent.entry
            }].recording_time,
        ) == Ok::<Seq<u8>, Failure>(records[1].subrange(18, 25)),
        forall|i: int|
            0 <= i < nodes.len() && lies_in(#[trigger] nodes[i], directory.path) ==> spots[i].length
                is Ok && record_is_of(
                records[2 + count_in(nodes, directory.path, i)],
                spots[i].extent,
                spots[i].length->Ok_0,
                nodes[i].identifier,
                nodes[i].directory,
                nodes[i].hidden,
                nodes[i].associated,
            ),
{
    let trailing = options.trailing_system_use_padding;
    let own = node_record(
        nodes[directory.entry],
        directory.extent,
        directory.length,
        seq![0u8],
        true,
        trailing,
        options.xa_system_use,
    )->Ok_0;
    let above = parent_record(nodes, directory, parent, options)->Ok_0;
    node_has_record(
        nodes[directory.entry],
        directory.extent,
        directory.length,
        seq![0u8],
        true,
        trailing,
        options.xa_system_use,
    );
    parent_has_record(nodes, directory, parent, options);
    one_more_lies_in(nodes, directory.path, 0);
    children_are_listed(nodes, spots, directory.path, trailing, 0, seq![own, above]);
    assert(records.take(2)[0] == own && records.take(2)[1] == above);
}

/// The records of the nodes from a place on that lie in a directory follow what was made
/// before.
#[verifier::rlimit(40)]
proof fn children_are_listed(
    nodes: Seq<NodeModel>,
    spots: Seq<SpotModel>,
    path: Seq<char>,
    trailing: bool,
    index: int,
    made: Seq<Seq<u8>>,
)
    requires
        0 <= index <= nodes.len(),
        made.len() >= 2,
        child_records_from(nodes, spots, path, trailing, index, made) is Ok,
        forall|i: int| 0 <= i < nodes.len() ==> (#[trigger] nodes[i]).identifier.len() > 0,
    ensures
        ({
            let records = child_records_from(nodes, spots, path, trailing, index, made)->Ok_0;
            let base = made.len() - count_in(nodes, path, index);
            &&& records.len() == base + count_in(nodes, path, nodes.len() as int)
            &&& records.len() >= made.len()
            &&& records.take(made.len() as int) == made
            &&& forall|i: int|
                index <= i < nodes.len() && lies_in(#[trigger] nodes[i], path) ==> spots[i].length
                    is Ok && record_is_of(
                    records[base + count_in(nodes, path, i)],
                    spots[i].extent,
                    spots[i].length->Ok_0,
                    nodes[i].identifier,
                    nodes[i].directory,
                    nodes[i].hidden,
                    nodes[i].associated,
                )
        }),
    decreases nodes.len() - index,
{
    let records = child_records_from(nodes, spots, path, trailing, index, made)->Ok_0;
    if index < nodes.len() {
        let node = nodes[index];
        assert(is_child(node, path) == lies_in(node, path));
        one_more_lies_in(nodes, path, index);
        if is_child(node, path) {
            let record = child_record(node, spots[index], trailing)->Ok_0;
            let more = made.push(record);
            children_are_listed(nodes, spots, path, trailing, index + 1, more);
            node_has_record(
                node,
                spots[index].extent,
                spots[index].length->Ok_0,
                node.identifier,
                node.directory,
                trailing,
                node.system_use,
            );
            let at = made.len() as int;
            assert(records.take(at + 1)[at] == more[at]);
            assert(records[at] == record);
            assert(records.take(at) =~= records.take(at + 1).take(at));
            assert(more.take(at) =~= made);
        } else {
            children_are_listed(nodes, spots, path, trailing, index + 1, made);
        }
    } else {
        assert(records.take(made.len() as int) =~= made);
    }
}

/// A file of the primary tree is listed under its name and `;1`, a directory under its name.
pub proof fn identifier_is_name_and_version(directory: Seq<char>, name: Seq<char>)
    requires
        forall|i: int| 0 <= i < name.len() ==> #[trigger] name[i] != '/',
    ensures
        primary_identifier(directory + seq!['/'] + name, true) == name + seq![';', '1'],
        primary_identifier(directory + seq!['/'] + name, false) == name,
        primary_identifier(name, true) == name + seq![';', '1'],
        primary_identifier(name, false) == name,
{
    name_is_behind_slash(directory, name);
}

proof fn name_is_behind_slash(directory: Seq<char>, name: Seq<char>)
    requires
        forall|i: int| 0 <= i < name.len() ==> #[trigger] name[i] != '/',
    ensures
        name_of(directory + seq!['/'] + name) == name,
        name_of(name) == name,
{
    let path = directory + seq!['/'] + name;
    let at = directory.len() as int;
    assert forall|i: int| at < i < path.len() implies path[i] != '/' by {
        assert(path[i] == name[i - at - 1]);
    }
    last_index_of_unique(path, '/', at);
    last_index_of_unique(name, '/', -1);
    assert(path.subrange(at + 1, path.len() as int) =~= name);
    assert(name.subrange(0, name.len() as int) =~= name);
}

/// The two bytes at a place among characters of two bytes are a character, the most
/// significant one first.
pub open spec fn stands_wide(bytes: Seq<u8>, place: int, character: char) -> bool {
    bytes[2 * place] * 256 + bytes[2 * place + 1] == character as int
}

/// An entry of the Joliet tree is listed under its name, two bytes to a character and the
/// most significant one first, and where it has a version under `;1` behind it; a name has
/// one to sixty-four characters, none of which takes more than two bytes.
pub proof fn joliet_identifier_is_wide(path: Seq<char>, versioned: bool)
    requires
        forall|i: int| 0 <= i < path.len() ==> #[trigger] path[i] != '/',
    ensures
        joliet_node_identifier(path, versioned) is Ok <==> 1 <= path.len() <= 64 && forall|i: int|
            0 <= i < path.len() ==> (#[trigger] path[i] as int) < 65536,
        joliet_node_identifier(path, versioned) matches Ok(bytes) ==> {
            &&& bytes.len() == 2 * path.len() + (if versioned {
                4int
            } else {
                0
            })
            &&& forall|i: int| 0 <= i < path.len() ==> #[trigger] stands_wide(bytes, i, path[i])
            &&& versioned ==> bytes[bytes.len() - 4] == 0 && bytes[bytes.len() - 3] as char == ';'
                && bytes[bytes.len() - 2] == 0 && bytes[bytes.len() - 1] as char == '1'
        },
{
    name_is_behind_slash(Seq::empty(), path);
    wide_characters(path);
    let name = joliet_identifier(path)->Ok_0;
    if let Ok(bytes) = joliet_node_identifier(path, versioned) {
        assert forall|i: int| 0 <= i < path.len() implies #[trigger] stands_wide(
            bytes,
            i,
            path[i],
        ) by {
            assert(stands_wide(name, i, path[i]));
            assert(bytes[2 * i] == name[2 * i] && bytes[2 * i + 1] == name[2 * i + 1]);
        }
        if versioned {
            let mark = ucs2_bytes(seq![';', '1']);
            let n = name.len() as int;
            version_is_wide();
            assert(bytes == name + mark);
            assert(bytes[n] == mark[0] && bytes[n + 1] == mark[1] && bytes[n + 2] == mark[2]
                && bytes[n + 3] == mark[3]);
        }
    }
}

proof fn version_is_wide()
    ensures
        ({
            let mark = ucs2_bytes(seq![';', '1']);
            &&& mark.len() == 4
            &&& mark[0] == 0 && mark[1] == 59 && mark[2] == 0 && mark[3] == 49
        }),
{
    let text = seq![';', '1'];
    assert(text[0] == ';' && text[1] == '1');
}

pub proof fn wide_characters(text: Seq<char>)
    ensures
        joliet_identifier(text) is Ok <==> 1 <= text.len() <= 64 && forall|i: int|
            0 <= i < text.len() ==> (#[trigger] text[i] as int) < 65536,
        joliet_identifier(text) matches Ok(bytes) ==> bytes.len() == 2 * text.len() && forall|
            i: int,
        |
            0 <= i < text.len() ==> #[trigger] stands_wide(bytes, i, text[i]),
{
    assert forall|i: int| 0 <= i < text.len() implies 0 <= (#[trigger] text[i]) as int && text[i] as u32
        == text[i] as int by {
        is_word(text[i]);
    }
    if let Ok(bytes) = joliet_identifier(text) {
        assert forall|i: int| 0 <= i < text.len() implies #[trigger] stands_wide(
            bytes,
            i,
            text[i],
        ) by {
            let unit = (text[i] as u32) as u16;
            is_word(text[i]);
            u16_spells(unit);
            assert((2 * i) / 2 == i && (2 * i) % 2 == 0);
            assert((2 * i + 1) / 2 == i && (2 * i + 1) % 2 == 1);
        }
    }
}

pub proof fn is_word(character: char)
    ensures
        0 <= character as int,
        character as u32 == character as int,
        (character as int) < 65536 ==> (character as u32) as u16 == character as int,
{
}

/// The length that the record of a file gives: its own, unless the entry gives another, or
/// counts 2336 bytes to a sector; then the file has to fill its sectors.
pub proof fn file_length_is_recorded(entry: EntryModel, file: FileModel)
    ensures
        entry.xa is None ==> (recorded_length(entry, file) is Ok <==> file.length <= 0xffff_ffff),
        entry.xa is None ==> (recorded_length(entry, file) matches Ok(length) ==> length
            == file.length),
        entry.xa matches Some(xa) ==> {
            &&& xa.logical_length matches Some(given) ==> recorded_length(entry, file) == Ok::<
                u32,
                Failure,
            >(given)
            &&& xa.logical_length is None && xa.length_encoding == XaLengthEncoding::Logical2048
                ==> (recorded_length(entry, file) is Ok <==> file.length <= 0xffff_ffff) && (
            recorded_length(entry, file) matches Ok(length) ==> length == file.length)
            &&& xa.logical_length is None && xa.length_encoding == XaLengthEncoding::Mode2_2336
                ==> (recorded_length(entry, file) is Ok <==> file.length == 2048 * file.blocks
                && 2336 * file.blocks <= 0xffff_ffff) && (recorded_length(entry, file) matches Ok(
                length,
            ) ==> length == 2336 * file.blocks)
        },
{
}

/// A directory takes the least number of blocks that hold its records, and one at least; it
/// records the length of its blocks, or of its records.
pub proof fn directory_takes_few_blocks(
    records: int,
    allocated: int,
    policy: DirectoryLengthPolicy,
)
    requires
        0 <= records <= allocated,
    ensures
        directory_size(records, allocated, policy) matches Ok(size) ==> {
            &&& allocated <= size.0 * 2048
            &&& size.0 == 1 || (size.0 > 0 && (size.0 - 1) * 2048 < allocated)
            &&& policy == DirectoryLengthPolicy::Allocated ==> size.1 == size.0 * 2048
            &&& policy == DirectoryLengthPolicy::Records ==> size.1 == records
        },
        allocated < 0xffff_f000 ==> directory_size(records, allocated, policy) is Ok,
{
}

/// A path table takes the least number of blocks that hold its records, and records the size
/// of its records unless another that takes as many blocks is given.
pub proof fn table_takes_few_blocks(
    directories: Seq<PlacementModel>,
    recorded: Option<u32>,
    zero: ErrorKind,
    allocation: ErrorKind,
)
    ensures
        table_plan(directories, recorded, zero, allocation) matches Ok(plan) ==> {
            &&& table_size_from(directories, 0) <= plan.blocks * 2048
            &&& plan.blocks == 1 || (plan.blocks - 1) * 2048 < table_size_from(directories, 0)
            &&& plan.blocks > 0
            &&& plan.size == (match recorded {
                Some(size) => size as int,
                None => table_size_from(directories, 0),
            })
            &&& plan.size <= plan.blocks * 2048
            &&& (plan.blocks - 1) * 2048 < plan.size
        },
{
    table_size_grows(directories, 0);
}

/// Where the path tables of an image without a Joliet tree lie: those with the least
/// significant byte first before the others, or behind them, each in its turn behind the one
/// before; where there is one of each, there is no second.
pub proof fn tables_lie_in_turn(
    start: int,
    stride: int,
    copies: PathTableCopies,
    order: PathTableOrder,
)
    requires
        0 < start,
        0 < stride,
        start + 4 * stride <= 0xffff_ffff,
    ensures
        ({
            let tables = table_extents(start, stride, copies, order);
            &&& tables.len() == 4
            &&& copies == PathTableCopies::Duplicate ==> tables[1] == tables[0] + stride && tables[3]
                == tables[2] + stride
            &&& copies == PathTableCopies::Duplicate && order == PathTableOrder::LittleEndianFirst
                ==> tables[0] == start && tables[2] == start + 2 * stride
            &&& copies == PathTableCopies::Duplicate && order == PathTableOrder::BigEndianFirst
                ==> tables[2] == start && tables[0] == start + 2 * stride
            &&& copies == PathTableCopies::Single ==> tables[1] == 0 && tables[3] == 0
            &&& copies == PathTableCopies::Single && order == PathTableOrder::LittleEndianFirst
                ==> tables[0] == start && tables[2] == start + stride
            &&& copies == PathTableCopies::Single && order == PathTableOrder::BigEndianFirst
                ==> tables[2] == start && tables[0] == start + stride
        }),
{
    assert(stride * 0 == 0 && stride * 1 == stride && stride * 2 == 2 * stride && stride * 3 == 3
        * stride);
}

} // verus!
