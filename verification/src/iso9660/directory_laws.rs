//! The records of a directory that was written are read back.
use vstd::prelude::*;

use crate::bytes::{all_are, fill, put, used_length, used_length_is_last};
use crate::error::{ErrorKind, Failure};
use crate::hexcode::{decoded, hex_bytes, hex_text};
use crate::iso9660::description::{EntryXaModel, SlackModel};
use crate::iso9660::descriptor_write::record_flags;
use crate::iso9660::directory::{
    child_records_from, directory_bytes, directory_records, node_record, pack_records_from,
    pack_records_grow, parent_record, with_slack, SpotModel, TreeOptions,
};
use crate::iso9660::path_table::PlacementModel;
use crate::iso9660::read::{
    leading_zeros, next_block, nothing_observed, record_run, record_run_from, skips_exact_fit,
    slack_after, DirectoryPackingObservation, RecordRun,
};
use crate::iso9660::record::{
    is_xa, parsed_record, record_layout, size_of_record, system_use_bytes, RecordModel,
};
use crate::iso9660::record_laws::{record_parts, record_survives};
use crate::iso9660::time::recording_time_bytes;
use crate::iso9660::tree::{is_child, record_start, NodeModel};
use crate::manifest::{DirectoryParentRecordingTime, DirectoryRecordPacking};

verus! {

/// A record whose bytes tell all of it.
pub open spec fn is_telling(record: RecordModel) -> bool {
    &&& record.recording_time.len() == 7
    &&& size_of_record(record.name.len() as int, record.system_use.len() as int) <= 255
    &&& record.system_use.len() == 0 || is_xa(record.system_use)
    &&& record.trailing_system_use_padding ==> record.name.len() % 2 == 0 && is_xa(
        record.system_use,
    )
}

/// The bytes of records.
pub open spec fn layouts(records: Seq<RecordModel>) -> Seq<Seq<u8>> {
    Seq::new(records.len(), |i: int| record_layout(records[i]))
}

/// No record begins where a reader looks for one past the last: neither right
/// behind it nor at the start of a later block.
pub open spec fn is_quiet_after(bytes: Seq<u8>, end: int) -> bool {
    &&& end < bytes.len() ==> bytes[end] == 0
    &&& forall|i: int| end < i < bytes.len() && i % 2048 == 0 ==> bytes[i] == 0
}

/// Bytes that are read as a record, and as no more than it.
pub open spec fn read_as(bytes: Seq<u8>, record: RecordModel) -> bool {
    &&& 34 <= bytes.len() <= 255
    &&& bytes[0] == bytes.len()
    &&& parsed_record(bytes) == Ok::<RecordModel, Failure>(record)
}

/// Records are put where the ones before them end, and touch nothing else.
pub proof fn packing_is_local(
    records: Seq<Seq<u8>>,
    index: int,
    offset: int,
    written: Seq<u8>,
    packing: DirectoryRecordPacking,
)
    requires
        offset >= 0,
    ensures
        ({
            let (whole, end) = pack_records_from(records, index, offset, written, packing);
            &&& whole.len() == written.len()
            &&& forall|i: int| 0 <= i < offset && i < whole.len() ==> whole[i] == written[i]
            &&& forall|i: int| end <= i < whole.len() ==> whole[i] == written[i]
        }),
    decreases records.len() - index,
{
    if 0 <= index < records.len() {
        let record = records[index];
        let start = record_start(offset, record.len() as int, packing);
        let next = put(written, start, record);
        packing_is_local(records, index + 1, start + record.len(), next, packing);
        pack_records_grow(records, index + 1, start + record.len(), next, packing);
    }
}

/// Nothing is read from a quiet end.
proof fn quiet_end_is_skipped(bytes: Seq<u8>, offset: int, run: RecordRun)
    requires
        offset >= 0,
        is_quiet_after(bytes, offset),
    ensures
        record_run_from(bytes, offset, run) == Ok::<RecordRun, Failure>(run),
    decreases
            if offset < bytes.len() {
                bytes.len() - offset
            } else {
                0
            },
{
    if offset < bytes.len() {
        let next = next_block(offset);
        assert(next % 2048 == 0 && next > offset);
        assert(!skips_exact_fit(bytes, offset));
        quiet_end_is_skipped(bytes, next, run);
    }
}

/// What is seen of how records are packed agrees with how they were packed.
pub open spec fn shows(observation: DirectoryPackingObservation, packing: DirectoryRecordPacking) -> bool {
    &&& observation.packed_exact_fit ==> packing != DirectoryRecordPacking::AvoidExactFit
    &&& observation.skipped_exact_fit ==> packing == DirectoryRecordPacking::AvoidExactFit
}

/// The records from `index` on are read where they were packed.
#[verifier::rlimit(80)]
#[verifier::spinoff_prover]
proof fn run_is_read(
    raw: Seq<Seq<u8>>,
    records: Seq<RecordModel>,
    index: int,
    offset: int,
    written: Seq<u8>,
    packing: DirectoryRecordPacking,
    bytes: Seq<u8>,
    run: RecordRun,
)
    requires
        0 <= index <= records.len(),
        raw.len() == records.len(),
        forall|i: int| 0 <= i < raw.len() ==> read_as(#[trigger] raw[i], records[i]),
        offset >= 0,
        forall|i: int| offset <= i < written.len() ==> written[i] == 0,
        ({
            let (whole, end) = pack_records_from(raw, index, offset, written, packing);
            &&& end <= written.len()
            &&& end <= bytes.len()
            &&& forall|i: int| offset <= i < end ==> bytes[i] == whole[i]
            &&& is_quiet_after(bytes, end)
        }),
        run.records == records.take(index),
        run.end == offset,
        shows(run.observation, packing),
    ensures
        record_run_from(bytes, offset, run) is Ok,
        ({
            let read = record_run_from(bytes, offset, run)->Ok_0;
            &&& read.records == records
            &&& read.end == pack_records_from(raw, index, offset, written, packing).1
            &&& shows(read.observation, packing)
            &&& !read.observation.skipped_exact_fit ==> {
                &&& !run.observation.skipped_exact_fit
                &&& pack_records_from(raw, index, offset, written, packing) == pack_records_from(
                    raw,
                    index,
                    offset,
                    written,
                    DirectoryRecordPacking::Fill,
                )
            }
        }),
    decreases records.len() - index,
{
    if index == records.len() {
        quiet_end_is_skipped(bytes, offset, run);
        assert(records.take(index) =~= records);
    } else {
        let record = raw[index];
        assert(read_as(record, records[index]));
        let start = record_start(offset, record.len() as int, packing);
        let next = put(written, start, record);
        let (whole, end) = pack_records_from(raw, index, offset, written, packing);
        let stop = start + record.len();
        packing_is_local(raw, index + 1, stop, next, packing);
        pack_records_grow(raw, index + 1, stop, next, packing);
        assert(bytes.subrange(start, stop) =~= record) by {
            assert forall|i: int| 0 <= i < record.len() implies bytes[start + i] == record[i] by {
                assert(bytes[start + i] == whole[start + i]);
                assert(whole[start + i] == next[start + i]);
            }
        }
        assert(bytes[start] == bytes.subrange(start, stop)[0]);
        assert(bytes[start] == record.len());
        let seen = if start == offset {
            run.observation
        } else {
            DirectoryPackingObservation {
                skipped_exact_fit: run.observation.skipped_exact_fit || skips_exact_fit(
                    bytes,
                    offset,
                ),
                ..run.observation
            }
        };
        if start != offset {
            assert(start == next_block(offset));
            assert forall|i: int| offset <= i < start implies bytes[i] == 0 by {
                assert(bytes[i] == whole[i]);
                assert(whole[i] == next[i]);
                assert(next[i] == written[i]);
            }
            assert(record_run_from(bytes, offset, run) == record_run_from(
                bytes,
                start,
                RecordRun { observation: seen, ..run },
            ));
        }
        let after = RecordRun {
            records: run.records.push(records[index]),
            observation: DirectoryPackingObservation {
                packed_exact_fit: seen.packed_exact_fit || stop % 2048 == 0,
                ..seen
            },
            end: stop,
        };
        assert(record_run_from(bytes, start, RecordRun { observation: seen, ..run })
            == record_run_from(bytes, stop, after));
        assert(after.records =~= records.take(index + 1));
        assert(shows(seen, packing));
        assert(shows(after.observation, packing));
        run_is_read(raw, records, index + 1, stop, next, packing, bytes, after);
        if start != offset && offset % 2048 + record.len() == 2048 {
            assert(all_are(bytes.subrange(offset, start), 0));
            assert(skips_exact_fit(bytes, offset));
        }
        assert(!seen.skipped_exact_fit ==> start == record_start(
            offset,
            record.len() as int,
            DirectoryRecordPacking::Fill,
        ));
    }
}

/// The bytes of a record are as many as its size, which is the first of them.
pub proof fn layout_length(record: RecordModel)
    requires
        is_telling(record),
    ensures
        record_layout(record).len() == size_of_record(
            record.name.len() as int,
            record.system_use.len() as int,
        ),
        34 <= record_layout(record).len() <= 255,
        record_layout(record)[0] == record_layout(record).len(),
{
    record_parts(record);
}

/// Records that were packed into blocks are read back from them, and nothing else
/// is, whatever part of the rest of the blocks is read with them.
pub proof fn packed_records_are_read(
    records: Seq<RecordModel>,
    count: nat,
    packing: DirectoryRecordPacking,
    bytes: Seq<u8>,
)
    requires
        forall|i: int| 0 <= i < records.len() ==> is_telling(#[trigger] records[i]),
        ({
            let (whole, end) = pack_records_from(layouts(records), 0, 0, fill(count, 0), packing);
            &&& end <= count
            &&& end <= bytes.len()
            &&& bytes.take(end) == whole.take(end)
            &&& is_quiet_after(bytes, end)
        }),
    ensures
        record_run(bytes) is Ok,
        record_run(bytes)->Ok_0.records == records,
        record_run(bytes)->Ok_0.end == pack_records_from(
            layouts(records),
            0,
            0,
            fill(count, 0),
            packing,
        ).1,
        shows(record_run(bytes)->Ok_0.observation, packing),
        !record_run(bytes)->Ok_0.observation.skipped_exact_fit ==> pack_records_from(
            layouts(records),
            0,
            0,
            fill(count, 0),
            packing,
        ) == pack_records_from(
            layouts(records),
            0,
            0,
            fill(count, 0),
            DirectoryRecordPacking::Fill,
        ),
{
    let (whole, end) = pack_records_from(layouts(records), 0, 0, fill(count, 0), packing);
    pack_records_grow(layouts(records), 0, 0, fill(count, 0), packing);
    packing_is_local(layouts(records), 0, 0, fill(count, 0), packing);
    assert forall|i: int| 0 <= i < end implies bytes[i] == whole[i] by {
        assert(bytes.take(end)[i] == whole.take(end)[i]);
    }
    let run = RecordRun { records: Seq::empty(), observation: nothing_observed(), end: 0 };
    assert(run.records =~= records.take(0));
    let raw = layouts(records);
    assert forall|i: int| 0 <= i < raw.len() implies read_as(#[trigger] raw[i], records[i]) by {
        assert(is_telling(records[i]));
        layout_length(records[i]);
        record_survives(records[i]);
    }
    run_is_read(raw, records, 0, 0, fill(count, 0), packing, bytes, run);
}

/// The record of a node, as it is read: where the padding byte of an even
/// identifier stands shows only beside system-use data.
pub open spec fn node_model(
    node: NodeModel,
    extent: u32,
    length: u32,
    name: Seq<u8>,
    directory: bool,
    trailing: bool,
    system_use: bool,
) -> RecordModel {
    let data = system_use_bytes(node.path, node.xa, directory, system_use)->Ok_0;
    RecordModel {
        extent,
        length,
        recording_time: recording_time_bytes(node.recording_time)->Ok_0,
        flags: record_flags(directory, node.hidden, node.associated),
        file_unit_size: 0,
        interleave_gap_size: 0,
        volume_sequence_number: 1,
        name,
        system_use: data,
        trailing_system_use_padding: trailing && name.len() % 2 == 0 && data.len() > 0,
    }
}

/// The time of a record has seven bytes.
pub proof fn recording_time_length(text: Seq<char>)
    ensures
        recording_time_bytes(text) matches Ok(time) ==> time.len() == 7,
{
    reveal(recording_time_bytes);
}

/// System-use data is XA data, or there is none.
proof fn system_use_is_xa(path: Seq<char>, xa: Option<EntryXaModel>, directory: bool, present: bool)
    ensures
        system_use_bytes(path, xa, directory, present) matches Ok(data) ==> data.len() == 0 || is_xa(
            data,
        ),
{
}

/// The record of a node is written from what is read of it.
pub proof fn node_record_tells(
    node: NodeModel,
    extent: u32,
    length: u32,
    name: Seq<u8>,
    directory: bool,
    trailing: bool,
    system_use: bool,
)
    requires
        node_record(node, extent, length, name, directory, trailing, system_use) is Ok,
    ensures
        ({
            let model = node_model(node, extent, length, name, directory, trailing, system_use);
            &&& is_telling(model)
            &&& node_record(node, extent, length, name, directory, trailing, system_use) == Ok::<
                Seq<u8>,
                Failure,
            >(record_layout(model))
        }),
{
    recording_time_length(node.recording_time);
    system_use_is_xa(node.path, node.xa, directory, system_use);
    let model = node_model(node, extent, length, name, directory, trailing, system_use);
    let written = node_record(node, extent, length, name, directory, trailing, system_use)->Ok_0;
    assert(written =~= record_layout(model));
}

/// `made`, and then what is read of the nodes from `index` on that lie in the
/// directory.
pub open spec fn child_models_from(
    nodes: Seq<NodeModel>,
    spots: Seq<SpotModel>,
    path: Seq<char>,
    trailing: bool,
    index: int,
    made: Seq<RecordModel>,
) -> Seq<RecordModel>
    decreases nodes.len() - index,
{
    if index < 0 || index >= nodes.len() {
        made
    } else if is_child(nodes[index], path) {
        let node = nodes[index];
        child_models_from(
            nodes,
            spots,
            path,
            trailing,
            index + 1,
            made.push(
                node_model(
                    node,
                    spots[index].extent,
                    spots[index].length->Ok_0,
                    node.identifier,
                    node.directory,
                    trailing,
                    node.system_use,
                ),
            ),
        )
    } else {
        child_models_from(nodes, spots, path, trailing, index + 1, made)
    }
}

/// What is read of the record of the directory above.
pub open spec fn parent_model(
    nodes: Seq<NodeModel>,
    directory: PlacementModel,
    parent: PlacementModel,
    options: TreeOptions,
) -> RecordModel {
    let model = node_model(
        nodes[parent.entry],
        parent.extent,
        parent.length,
        seq![1u8],
        true,
        options.trailing_system_use_padding,
        options.xa_system_use,
    );
    if options.parent_time == DirectoryParentRecordingTime::Current {
        RecordModel {
            recording_time: recording_time_bytes(nodes[directory.entry].recording_time)->Ok_0,
            ..model
        }
    } else {
        model
    }
}

/// What is read of a directory: itself, the one above, and what lies in it.
pub open spec fn directory_models(
    nodes: Seq<NodeModel>,
    spots: Seq<SpotModel>,
    directory: PlacementModel,
    parent: PlacementModel,
    options: TreeOptions,
) -> Seq<RecordModel> {
    let own = node_model(
        nodes[directory.entry],
        directory.extent,
        directory.length,
        seq![0u8],
        true,
        options.trailing_system_use_padding,
        options.xa_system_use,
    );
    child_models_from(
        nodes,
        spots,
        directory.path,
        options.trailing_system_use_padding,
        0,
        seq![own, parent_model(nodes, directory, parent, options)],
    )
}

proof fn children_tell(
    nodes: Seq<NodeModel>,
    spots: Seq<SpotModel>,
    path: Seq<char>,
    trailing: bool,
    index: int,
    made: Seq<RecordModel>,
)
    requires
        0 <= index <= nodes.len(),
        forall|i: int| 0 <= i < made.len() ==> is_telling(#[trigger] made[i]),
        child_records_from(nodes, spots, path, trailing, index, layouts(made)) is Ok,
    ensures
        ({
            let models = child_models_from(nodes, spots, path, trailing, index, made);
            &&& child_records_from(nodes, spots, path, trailing, index, layouts(made)) == Ok::<
                Seq<Seq<u8>>,
                Failure,
            >(layouts(models))
            &&& forall|i: int| 0 <= i < models.len() ==> is_telling(#[trigger] models[i])
        }),
    decreases nodes.len() - index,
{
    if index < nodes.len() {
        if is_child(nodes[index], path) {
            let node = nodes[index];
            let spot = spots[index];
            node_record_tells(
                node,
                spot.extent,
                spot.length->Ok_0,
                node.identifier,
                node.directory,
                trailing,
                node.system_use,
            );
            let model = node_model(
                node,
                spot.extent,
                spot.length->Ok_0,
                node.identifier,
                node.directory,
                trailing,
                node.system_use,
            );
            assert(layouts(made).push(record_layout(model)) =~= layouts(made.push(model)));
            children_tell(nodes, spots, path, trailing, index + 1, made.push(model));
        } else {
            children_tell(nodes, spots, path, trailing, index + 1, made);
        }
    }
}

/// The record of the directory above is written from what is read of it.
pub proof fn parent_tells(
    nodes: Seq<NodeModel>,
    directory: PlacementModel,
    parent: PlacementModel,
    options: TreeOptions,
)
    requires
        parent_record(nodes, directory, parent, options) is Ok,
    ensures
        is_telling(parent_model(nodes, directory, parent, options)),
        parent_record(nodes, directory, parent, options) == Ok::<Seq<u8>, Failure>(
            record_layout(parent_model(nodes, directory, parent, options)),
        ),
{
    node_record_tells(
        nodes[parent.entry],
        parent.extent,
        parent.length,
        seq![1u8],
        true,
        options.trailing_system_use_padding,
        options.xa_system_use,
    );
    let model = node_model(
        nodes[parent.entry],
        parent.extent,
        parent.length,
        seq![1u8],
        true,
        options.trailing_system_use_padding,
        options.xa_system_use,
    );
    recording_time_length(nodes[directory.entry].recording_time);
    if options.parent_time == DirectoryParentRecordingTime::Current {
        let time = recording_time_bytes(nodes[directory.entry].recording_time)->Ok_0;
        let changed = RecordModel { recording_time: time, ..model };
        assert(put(record_layout(model), 18, time) =~= record_layout(changed));
    }
}

/// The records of a directory are written from what is read of them.
proof fn records_tell(
    nodes: Seq<NodeModel>,
    spots: Seq<SpotModel>,
    directory: PlacementModel,
    parent: PlacementModel,
    options: TreeOptions,
)
    requires
        directory_records(nodes, spots, directory, parent, options) is Ok,
    ensures
        ({
            let models = directory_models(nodes, spots, directory, parent, options);
            &&& directory_records(nodes, spots, directory, parent, options) == Ok::<
                Seq<Seq<u8>>,
                Failure,
            >(layouts(models))
            &&& forall|i: int| 0 <= i < models.len() ==> is_telling(#[trigger] models[i])
        }),
{
    node_record_tells(
        nodes[directory.entry],
        directory.extent,
        directory.length,
        seq![0u8],
        true,
        options.trailing_system_use_padding,
        options.xa_system_use,
    );
    parent_tells(nodes, directory, parent, options);
    let own = node_model(
        nodes[directory.entry],
        directory.extent,
        directory.length,
        seq![0u8],
        true,
        options.trailing_system_use_padding,
        options.xa_system_use,
    );
    let above = parent_model(nodes, directory, parent, options);
    assert(seq![record_layout(own), record_layout(above)] =~= layouts(seq![own, above]));
    let first = seq![own, above];
    assert forall|i: int| 0 <= i < first.len() implies is_telling(#[trigger] first[i]) by {}
    children_tell(
        nodes,
        spots,
        directory.path,
        options.trailing_system_use_padding,
        0,
        seq![own, above],
    );
}

/// Where the records of a directory end.
pub open spec fn records_end(
    nodes: Seq<NodeModel>,
    spots: Seq<SpotModel>,
    directory: PlacementModel,
    parent: PlacementModel,
    options: TreeOptions,
) -> int {
    pack_records_from(
        directory_records(nodes, spots, directory, parent, options)->Ok_0,
        0,
        0,
        fill((directory.blocks * 2048) as nat, 0),
        options.packing,
    ).1
}

/// The records of a directory are packed as they would be if they filled blocks to
/// their ends.
pub open spec fn packs_plainly(
    nodes: Seq<NodeModel>,
    spots: Seq<SpotModel>,
    directory: PlacementModel,
    parent: PlacementModel,
    options: TreeOptions,
) -> bool {
    let records = directory_records(nodes, spots, directory, parent, options)->Ok_0;
    let empty = fill((directory.blocks * 2048) as nat, 0);
    pack_records_from(records, 0, 0, empty, options.packing) == pack_records_from(
        records,
        0,
        0,
        empty,
        DirectoryRecordPacking::Fill,
    )
}

/// A directory that was written is read as the records that were written to it: it
/// itself, the directory above and what lies in it, in order. That holds of any
/// length that covers them, and with any bytes behind them among which no record
/// could begin.
pub proof fn directory_is_read(
    nodes: Seq<NodeModel>,
    spots: Seq<SpotModel>,
    directory: PlacementModel,
    parent: PlacementModel,
    slack: Option<SlackModel>,
    options: TreeOptions,
    bytes: Seq<u8>,
    length: int,
)
    requires
        directory_bytes(nodes, spots, directory, parent, slack, options) == Ok::<Seq<u8>, Failure>(
            bytes,
        ),
        records_end(nodes, spots, directory, parent, options) <= length <= bytes.len(),
        slack is Some ==> is_quiet_after(
            bytes.take(length),
            records_end(nodes, spots, directory, parent, options),
        ),
    ensures
        record_run(bytes.take(length)) is Ok,
        ({
            let run = record_run(bytes.take(length))->Ok_0;
            &&& run.records == directory_models(nodes, spots, directory, parent, options)
            &&& run.end == records_end(nodes, spots, directory, parent, options)
            &&& shows(run.observation, options.packing)
            &&& !run.observation.skipped_exact_fit ==> packs_plainly(
                nodes,
                spots,
                directory,
                parent,
                options,
            )
        }),
{
    records_tell(nodes, spots, directory, parent, options);
    let models = directory_models(nodes, spots, directory, parent, options);
    let count = (directory.blocks * 2048) as nat;
    let empty = fill(count, 0);
    let (whole, end) = pack_records_from(layouts(models), 0, 0, empty, options.packing);
    pack_records_grow(layouts(models), 0, 0, empty, options.packing);
    packing_is_local(layouts(models), 0, 0, empty, options.packing);
    let part = bytes.take(length);
    assert(part.take(end) =~= whole.take(end));
    assert(is_quiet_after(part, end)) by {
        if slack is None {
            assert forall|i: int| end <= i < part.len() implies part[i] == 0 by {
                assert(whole[i] == empty[i]);
            }
        }
    }
    packed_records_are_read(models, count, options.packing, part);
}

/// What is told of the bytes behind the records of a directory: where the first of
/// them that is not zero stands, and all up to the last that is not.
pub open spec fn told_slack(slack: Option<SlackModel>) -> Option<SlackModel> {
    match slack {
        None => None,
        Some(slack) => {
            let data = hex_bytes(slack.hex);
            let used = used_length(data, 0) as int;
            let first = leading_zeros(data, 0);
            if used == 0 {
                None
            } else {
                Some(
                    SlackModel {
                        offset: (slack.offset + first) as u32,
                        hex: hex_text(data.subrange(first, used)),
                    },
                )
            }
        },
    }
}

/// Bytes end where those in them that are not zero end.
proof fn used_length_is(bytes: Seq<u8>, length: int)
    requires
        0 <= length <= bytes.len(),
        length > 0 ==> bytes[length - 1] != 0,
        forall|i: int| length <= i < bytes.len() ==> bytes[i] == 0,
    ensures
        used_length(bytes, 0) == length,
{
    used_length_is_last(bytes, 0);
    let used = used_length(bytes, 0) as int;
    if used > length {
        assert(bytes[used - 1] == 0);
    }
}

/// Zeros before bytes add to those that they begin with.
proof fn leading_zeros_add(bytes: Seq<u8>, data: Seq<u8>, start: int, index: int)
    requires
        0 <= index <= start,
        start + data.len() <= bytes.len(),
        forall|i: int| 0 <= i < start ==> bytes[i] == 0,
        forall|i: int| 0 <= i < data.len() ==> bytes[start + i] == data[i],
        used_length(data, 0) > 0,
    ensures
        leading_zeros(bytes, index) == start - index + leading_zeros(data, 0),
        0 <= leading_zeros(data, 0) < used_length(data, 0),
    decreases start - index,
{
    if index < start {
        leading_zeros_add(bytes, data, start, index + 1);
    } else {
        used_length_is_last(data, 0);
        assert(data[used_length(data, 0) - 1] != 0);
        same_leading_zeros(bytes, data, start, 0);
    }
}

proof fn same_leading_zeros(bytes: Seq<u8>, data: Seq<u8>, start: int, index: int)
    requires
        0 <= start,
        0 <= index <= data.len(),
        start + data.len() <= bytes.len(),
        forall|i: int| 0 <= i < data.len() ==> bytes[start + i] == data[i],
        exists|i: int| index <= i < data.len() && data[i] != 0,
    ensures
        leading_zeros(bytes, start + index) == leading_zeros(data, index),
        index + leading_zeros(data, index) < data.len(),
        leading_zeros(data, index) >= 0,
        exists|i: int| index + leading_zeros(data, index) <= i < data.len() && data[i] != 0,
    decreases data.len() - index,
{
    assert(bytes[start + index] == data[index]);
    if data[index] == 0 {
        same_leading_zeros(bytes, data, start, index + 1);
    }
}

/// What stands behind the records of a directory is told as it was described.
pub proof fn slack_is_told(
    bytes: Seq<u8>,
    written: Seq<u8>,
    end: int,
    slack: Option<SlackModel>,
    path: Seq<char>,
    length: u32,
)
    requires
        with_slack(written, end, slack, path, length) == Ok::<Seq<u8>, Failure>(bytes),
        0 <= end <= length <= written.len(),
        forall|i: int| end <= i < written.len() ==> written[i] == 0,
    ensures
        slack_after(bytes.take(length as int), end) == told_slack(slack),
{
    let part = bytes.take(length as int);
    let rest = part.skip(end);
    used_length_is_last(rest, 0);
    match slack {
        None => {
            used_length_is(rest, 0);
        },
        Some(slack) => {
            let data = decoded(slack.hex, ErrorKind::SlackHex, path)->Ok_0;
            let start = slack.offset - end;
            let used = used_length(data, 0) as int;
            used_length_is_last(data, 0);
            assert forall|i: int| 0 <= i < data.len() implies rest[start + i] == data[i] by {}
            assert forall|i: int| 0 <= i < rest.len() && !(start <= i < start + data.len()) implies
                rest[i] == 0 by {
                assert(written[end + i] == 0);
            }
            if used == 0 {
                assert forall|i: int| 0 <= i < rest.len() implies rest[i] == 0 by {
                    if start <= i < start + data.len() {
                        assert(rest[start + (i - start)] == data[i - start]);
                    }
                }
                used_length_is(rest, 0);
            } else {
                assert(rest[start + (used - 1)] == data[used - 1]);
                assert forall|i: int| start + used <= i < rest.len() implies rest[i] == 0 by {
                    if i < start + data.len() {
                        assert(rest[start + (i - start)] == data[i - start]);
                    }
                }
                used_length_is(rest, start + used);
                leading_zeros_add(rest, data, start, 0);
                let first = leading_zeros(data, 0);
                assert(rest.subrange(start + first, start + used) =~= data.subrange(first, used));
            }
        },
    }
}

} // verus!
