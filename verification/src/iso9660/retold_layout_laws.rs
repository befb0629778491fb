//! A description that tells the entries of another in another order is laid out as it
//! is.
use vstd::prelude::*;

use crate::bytes::{fill, put, used_length, used_length_is_last};
use crate::error::{ErrorKind, Failure};
use crate::hexcode::{hex_bytes, hex_round_trip, is_hex};
use crate::iso9660::description::{IsoModel, SlackModel};
use crate::iso9660::descriptor_write::record_flags;
use crate::iso9660::directory::{
    child_record, child_records_from, directory_bytes, directory_records, node_record,
    pack_records_from, pack_records_grow, parent_record, with_slack, SpotModel, TreeOptions,
};
use crate::iso9660::directory_laws::{
    packing_is_local, parent_model, parent_tells, recording_time_length, told_slack,
};
use crate::iso9660::layout::{
    blocks_for, directory_size, file_spot, joliet_plan, nothing_placed, place_joliet_metadata,
    place_plain_metadata, placed_filesystem, primary_options, primary_spots, reference_marks,
    sized_directories_from, sized_directory, table_count, table_extents, table_gaps, table_plan,
    table_size_from, with_directories_from, with_extent, JolietPlan, Placed, TablePlan,
};
use crate::iso9660::layout_laws::{has_plain_packing, records_are_some};
use crate::iso9660::order_laws::is_held;
use crate::iso9660::path_table::PlacementModel;
use crate::iso9660::placing::{
    holds_reference, is_ancestor, parent_is_shorter, FileLengthModel, PlacingModel,
};
use crate::iso9660::placing_laws::{
    are_sized, found_directory_is_there, parts_are_apart, primary_order, same_directory,
};
use crate::iso9660::read::{leading_zeros, leading_zeros_bound};
use crate::iso9660::record::{record_layout, size_of_record, system_use_bytes, RecordModel};
use crate::iso9660::relabel_laws::{
    contents_are_relabelled, found_alike, metadata_is_relabelled, relabelled, root_is_relabelled,
    with_entries,
};
use crate::iso9660::selection_laws::{
    are_retold, is_retold, lengths_are_retold, order_is_retold, records_are_retold, same_node,
};
use crate::iso9660::time::recording_time_bytes;
use crate::iso9660::time_laws::recording_time_survives;
use crate::iso9660::tree::{
    count_directories, directories_of, is_child, is_file, primary_nodes, record_lengths,
    records_length, system_use_size, unplaced, NodeModel,
};
use crate::iso9660::tree_walk_laws::{
    directories_follow_order, has_time_of_parent, have_plain_packing, have_times_of_parents,
    is_reference, read_time, records_are_accepted,
};
use crate::iso9660::validate::{entry_check, is_known};
use crate::iso9660::walk_laws::is_tree;
use crate::manifest::{DirectoryLengthPolicy, DirectoryParentRecordingTime, DirectoryRecordPacking};
use crate::text::{parent_of, root_path};

verus! {

/// An entry is told of another: its record is the same.
pub open spec fn retells_entry(iso: IsoModel, told: IsoModel, index: int, position: int) -> bool {
    let entry = iso.entries[index];
    let again = told.entries[position];
    let node = primary_nodes(iso)[index];
    &&& again.path == entry.path
    &&& again.directory_reference == entry.directory_reference
    &&& (again.extent is Some) == (entry.extent is Some)
    &&& again.directory_slack == told_slack(entry.directory_slack)
    &&& recording_time_bytes(again.recording_time) == recording_time_bytes(entry.recording_time)
    &&& again.hidden == entry.hidden
    &&& again.associated == entry.associated
    &&& system_use_bytes(again.path, again.xa, node.directory, node.system_use)
        == system_use_bytes(entry.path, entry.xa, node.directory, node.system_use)
}

/// A description tells the entries of another, in another order, and the same of
/// everything that places depend on.
pub open spec fn retells(iso: IsoModel, told: IsoModel, origins: Seq<int>) -> bool {
    &&& is_retold(primary_nodes(iso), primary_nodes(told), origins)
    &&& told.files == iso.files
    &&& told.xa_system_use == iso.xa_system_use
    &&& told.primary_volume_copies == iso.primary_volume_copies
    &&& told.path_table_padding == iso.path_table_padding
    &&& told.path_table_copies == iso.path_table_copies
    &&& told.supplementary_volumes.len() == iso.supplementary_volumes.len()
    &&& told.metadata_layout == iso.metadata_layout
    &&& iso.supplementary_volumes.len() == 0 ==> told.path_table_order == iso.path_table_order
    &&& forall|e: int|
        0 <= e < origins.len() ==> retells_entry(iso, told, #[trigger] origins[e], e)
}

/// Where the bytes behind the records of a directory end.
pub open spec fn slack_end(slack: Option<SlackModel>) -> int {
    match slack {
        None => 0,
        Some(slack) => slack.offset + hex_bytes(slack.hex).len(),
    }
}

/// How far a directory reaches whose records and slack have the given ends.
pub open spec fn reach(records: int, end: int) -> int {
    if records > end {
        records
    } else {
        end
    }
}

/// The blocks of a directory whose records and slack have the given ends.
pub open spec fn blocks_to(records: int, end: int) -> int {
    blocks_for(reach(records, end))
}

/// What is told of a directory gives it the size that it has.
pub open spec fn size_is_told(
    iso: IsoModel,
    packing: DirectoryRecordPacking,
    policy: DirectoryLengthPolicy,
    directory: PlacementModel,
) -> bool {
    let nodes = primary_nodes(iso);
    let slack = iso.entries[directory.entry].directory_slack;
    let records = records_length(
        nodes,
        directory.path,
        iso.xa_system_use,
        iso.directory_record_packing,
    );
    &&& records_length(nodes, directory.path, iso.xa_system_use, packing) == records
    &&& slack_end(slack) <= u32::MAX
    &&& directory_size(records, reach(records, slack_end(told_slack(slack))), policy)
        == directory_size(records, reach(records, slack_end(slack)), iso.directory_length_policy)
}

/// What is told of the directories gives them the sizes that they have.
pub open spec fn sizes_are_told(
    iso: IsoModel,
    packing: DirectoryRecordPacking,
    policy: DirectoryLengthPolicy,
) -> bool {
    forall|i: int|
        0 <= i < primary_order(iso).len() && !is_reference(iso, #[trigger] primary_order(iso)[i])
            ==> size_is_told(iso, packing, policy, primary_order(iso)[i])
}

/// The bytes that are told end no later than those that they are told of.
pub proof fn slack_is_shorter(slack: Option<SlackModel>)
    requires
        slack_end(slack) <= u32::MAX,
    ensures
        slack_end(told_slack(slack)) <= slack_end(slack),
        told_slack(slack) matches Some(again) ==> {
            let data = hex_bytes(slack->Some_0.hex);
            let first = leading_zeros(data, 0);
            let used = used_length(data, 0) as int;
            &&& 0 <= first < used <= data.len()
            &&& again.offset == slack->Some_0.offset + first
            &&& is_hex(again.hex)
            &&& hex_bytes(again.hex) == data.subrange(first, used)
        },
{
    if slack is Some {
        let data = hex_bytes(slack->Some_0.hex);
        let first = leading_zeros(data, 0);
        let used = used_length(data, 0) as int;
        leading_zeros_bound(data, 0);
        used_length_is_last(data, 0);
        if used > 0 {
            assert(data[used - 1] != 0);
            hex_round_trip(data.subrange(first, used));
        }
    }
}

proof fn size_is_retold(
    iso: IsoModel,
    told: IsoModel,
    origins: Seq<int>,
    directory: PlacementModel,
    entry: int,
)
    requires
        retells(iso, told, origins),
        0 <= entry < origins.len(),
        origins[entry] == directory.entry,
        is_reference(iso, directory) || size_is_told(
            iso,
            told.directory_record_packing,
            told.directory_length_policy,
            directory,
        ),
        sized_directory(iso, primary_nodes(iso), directory) is Ok,
    ensures
        sized_directory(
            told,
            primary_nodes(told),
            PlacementModel { entry, ..directory },
        ) == Ok::<PlacementModel, Failure>(
            PlacementModel {
                entry,
                ..sized_directory(iso, primary_nodes(iso), directory)->Ok_0
            },
        ),
{
    let nodes = primary_nodes(iso);
    let again = primary_nodes(told);
    assert(retells_entry(iso, told, origins[entry], entry));
    if !is_reference(iso, directory) {
        let dot = size_of_record(
            1,
            system_use_size(iso.xa_system_use),
        );
        lengths_are_retold(nodes, again, origins, directory.path, seq![dot, dot]);
        assert(record_lengths(again, directory.path, iso.xa_system_use) == record_lengths(
            nodes,
            directory.path,
            iso.xa_system_use,
        ));
        records_are_some(
            nodes,
            directory.path,
            iso.xa_system_use,
            iso.directory_record_packing,
        );
        let slack = iso.entries[directory.entry].directory_slack;
        slack_is_shorter(slack);
    }
}

proof fn sizes_are_retold(
    iso: IsoModel,
    told: IsoModel,
    origins: Seq<int>,
    order: Seq<PlacementModel>,
    again: Seq<PlacementModel>,
    index: int,
    sized: Seq<PlacementModel>,
    sized_again: Seq<PlacementModel>,
)
    requires
        retells(iso, told, origins),
        are_retold(order, again, origins),
        forall|i: int|
            0 <= i < order.len() && !is_reference(iso, #[trigger] order[i]) ==> size_is_told(
                iso,
                told.directory_record_packing,
                told.directory_length_policy,
                order[i],
            ),
        0 <= index <= order.len(),
        sized.len() == index,
        sized_again.len() == index,
        forall|i: int|
            0 <= i < index ==> (#[trigger] sized_again[i]) == (PlacementModel {
                entry: again[i].entry,
                ..sized[i]
            }),
        forall|i: int| 0 <= i < index ==> (#[trigger] sized[i]).entry == order[i].entry,
        sized_directories_from(iso, primary_nodes(iso), order, index, sized) is Ok,
    ensures
        ({
            let all = sized_directories_from(iso, primary_nodes(iso), order, index, sized)->Ok_0;
            let all_again = sized_directories_from(
                told,
                primary_nodes(told),
                again,
                index,
                sized_again,
            );
            &&& all_again is Ok
            &&& all_again->Ok_0.len() == all.len() == order.len()
            &&& forall|i: int|
                0 <= i < all.len() ==> (#[trigger] all_again->Ok_0[i]) == (PlacementModel {
                    entry: again[i].entry,
                    ..all[i]
                })
            &&& forall|i: int| 0 <= i < all.len() ==> (#[trigger] all[i]).entry == order[i].entry
        }),
    decreases order.len() - index,
{
    if index < order.len() {
        assert(again[index] == (PlacementModel { entry: again[index].entry, ..order[index] }));
        size_is_retold(iso, told, origins, order[index], again[index].entry);
        let one = sized_directory(iso, primary_nodes(iso), order[index])->Ok_0;
        let one_again = sized_directory(told, primary_nodes(told), again[index])->Ok_0;
        let more = sized.push(one);
        let more_again = sized_again.push(one_again);
        assert forall|i: int| 0 <= i < index + 1 implies (#[trigger] more_again[i]) == (
        PlacementModel { entry: again[i].entry, ..more[i] }) by {
            if i < index {
                assert(more_again[i] == sized_again[i]);
            }
        }
        assert forall|i: int| 0 <= i < index + 1 implies (#[trigger] more[i]).entry
            == order[i].entry by {
            if i < index {
                assert(more[i] == sized[i]);
            }
        }
        sizes_are_retold(iso, told, origins, order, again, index + 1, more, more_again);
    }
}

pub proof fn table_size_is_retold(order: Seq<PlacementModel>, again: Seq<PlacementModel>, origins: Seq<int>, index: int)
    requires
        are_retold(order, again, origins),
        0 <= index,
    ensures
        table_size_from(again, index) == table_size_from(order, index),
    decreases order.len() - index,
{
    if index < order.len() {
        assert(again[index] == (PlacementModel { entry: again[index].entry, ..order[index] }));
        table_size_is_retold(order, again, origins, index + 1);
    }
}

proof fn references_are_retold(iso: IsoModel, told: IsoModel, origins: Seq<int>, path: Seq<char>)
    requires
        retells(iso, told, origins),
    ensures
        holds_reference(told.entries, path) == holds_reference(iso.entries, path),
{
    if holds_reference(told.entries, path) {
        let e = choose|e: int|
            0 <= e < told.entries.len() && (#[trigger] told.entries[e]).extent is Some
                && is_ancestor(path, told.entries[e].path);
        assert(primary_nodes(told).len() == told.entries.len());
        assert(retells_entry(iso, told, origins[e], e));
        assert(0 <= origins[e] < primary_nodes(iso).len());
        assert(iso.entries[origins[e]].extent is Some);
    }
    if holds_reference(iso.entries, path) {
        let k = choose|k: int|
            0 <= k < iso.entries.len() && (#[trigger] iso.entries[k]).extent is Some
                && is_ancestor(path, iso.entries[k].path);
        assert(origins.contains(k));
        let e = choose|e: int| 0 <= e < origins.len() && origins[e] == k;
        assert(retells_entry(iso, told, origins[e], e));
        assert(told.entries[e].extent is Some);
    }
}

/// Entries of directories that are told of the entries that directories have.
pub open spec fn are_entries_of(
    directories: Seq<PlacementModel>,
    entries: Seq<int>,
    origins: Seq<int>,
) -> bool {
    &&& entries.len() == directories.len()
    &&& forall|i: int|
        0 <= i < entries.len() ==> 0 <= #[trigger] entries[i] < origins.len()
            && origins[entries[i]] == directories[i].entry
}

/// The directories of a tree that was told have the order of the tree.
pub proof fn directories_are_retold(iso: IsoModel, told: IsoModel, origins: Seq<int>)
    requires
        retells(iso, told, origins),
        directories_of(primary_nodes(iso), ErrorKind::UnreachableDirectory) is Ok,
    ensures
        directories_of(primary_nodes(told), ErrorKind::UnreachableDirectory) is Ok,
        are_retold(primary_order(iso), primary_order(told), origins),
{
    let first = seq![unplaced(root_path(), seq![0u8], 0, 0)];
    assert(are_retold(first, first, origins));
    order_is_retold(
        primary_nodes(iso),
        primary_nodes(told),
        origins,
        0,
        first,
        first,
        ErrorKind::UnreachableDirectory,
    );
}

/// What is told of a Joliet volume has the same directories and path tables, though other
/// entries describe the directories.
pub open spec fn replans(plan: JolietPlan, again: JolietPlan, labels: Seq<int>) -> bool {
    &&& again.directories == relabelled(plan.directories, labels)
    &&& again.table == plan.table
}

/// What is told of a description is placed as the description is.
pub open spec fn placed_again(
    told: IsoModel,
    placed: Placed,
    entries: Seq<int>,
    labels: Seq<int>,
) -> Placed {
    Placed {
        state: with_entries(placed.state, entries, labels),
        table: placed.table,
        joliet: match placed.joliet {
            None => None,
            Some(_) => Some(joliet_plan(told)->Ok_0),
        },
    }
}

/// The Joliet volume that is told, if there is one, has the same directories and path
/// tables.
pub open spec fn joliet_is_replanned(told: IsoModel, placed: Placed, labels: Seq<int>) -> bool {
    placed.joliet matches Some(plan) ==> {
        &&& joliet_plan(told) is Ok
        &&& replans(plan, joliet_plan(told)->Ok_0, labels)
    }
}

/// The metadata area of what is told is placed where the description has it.
proof fn metadata_is_retold(
    iso: IsoModel,
    told: IsoModel,
    lengths: Seq<FileLengthModel>,
    placed: Placed,
    sized: Seq<PlacementModel>,
    sized_again: Seq<PlacementModel>,
    entries: Seq<int>,
    labels: Seq<int>,
) -> (metadata: PlacingModel)
    requires
        placed_filesystem(iso, lengths) == Ok::<Placed, Failure>(placed),
        told.supplementary_volumes.len() == iso.supplementary_volumes.len(),
        told.metadata_layout == iso.metadata_layout,
        told.primary_volume_copies == iso.primary_volume_copies,
        told.path_table_padding == iso.path_table_padding,
        told.path_table_copies == iso.path_table_copies,
        iso.supplementary_volumes.len() == 0 ==> told.path_table_order == iso.path_table_order,
        joliet_is_replanned(told, placed, labels),
        sized_directories_from(iso, primary_nodes(iso), primary_order(iso), 0, Seq::empty())
            == Ok::<Seq<PlacementModel>, Failure>(sized),
        sized.len() > 0,
        sized_again == relabelled(sized, entries),
        reference_marks(told, sized_again) == reference_marks(iso, sized),
    ensures
        ({
            let plan = joliet_plan(iso)->Ok_0;
            let again = joliet_plan(told)->Ok_0;
            if iso.supplementary_volumes.len() > 0 {
                &&& place_joliet_metadata(
                    iso,
                    sized,
                    plan.directories,
                    placed.table.blocks,
                    plan.table.blocks,
                ) == Ok::<PlacingModel, Failure>(metadata)
                &&& place_joliet_metadata(
                    told,
                    sized_again,
                    again.directories,
                    placed.table.blocks,
                    again.table.blocks,
                ) == Ok::<PlacingModel, Failure>(with_entries(metadata, entries, labels))
            } else {
                &&& place_plain_metadata(iso, sized, placed.table.blocks) == Ok::<
                    PlacingModel,
                    Failure,
                >(metadata)
                &&& place_plain_metadata(told, sized_again, placed.table.blocks) == Ok::<
                    PlacingModel,
                    Failure,
                >(with_entries(metadata, entries, labels))
            }
        }),
{
    if iso.supplementary_volumes.len() > 0 {
        let plan = joliet_plan(iso)->Ok_0;
        let again = joliet_plan(told)->Ok_0;
        let next = (17 + iso.primary_volume_copies + iso.supplementary_volumes.len()) as u32;
        let empty = nothing_placed(iso, sized, plan.directories, next);
        assert(nothing_placed(told, sized_again, again.directories, next) =~= with_entries(
            empty,
            entries,
            labels,
        ));
        metadata_is_relabelled(
            iso.metadata_layout,
            empty,
            placed.table.blocks,
            plan.table.blocks,
            0,
            entries,
            labels,
        );
        place_joliet_metadata(
            iso,
            sized,
            plan.directories,
            placed.table.blocks,
            plan.table.blocks,
        )->Ok_0
    } else {
        let start = 17 + iso.primary_volume_copies;
        let stride = placed.table.blocks + iso.path_table_padding;
        let count = table_count(iso.path_table_copies);
        let empty = nothing_placed(iso, sized, Seq::empty(), (start + stride * count) as u32);
        let empty_again = nothing_placed(
            told,
            sized_again,
            Seq::empty(),
            (start + stride * count) as u32,
        );
        let with_tables = PlacingModel {
            tables: table_extents(start, stride, iso.path_table_copies, iso.path_table_order),
            gaps: table_gaps(start, stride, placed.table.blocks, iso.path_table_padding, count),
            ..empty
        };
        let with_tables_again = PlacingModel {
            tables: table_extents(start, stride, iso.path_table_copies, iso.path_table_order),
            gaps: table_gaps(start, stride, placed.table.blocks, iso.path_table_padding, count),
            ..empty_again
        };
        assert(with_tables_again =~= with_entries(with_tables, entries, labels));
        root_is_relabelled(with_tables, ErrorKind::PlacementOverflow, entries, labels);
        place_plain_metadata(iso, sized, placed.table.blocks)->Ok_0
    }
}

/// What is told of a description is placed where the description has it.
pub proof fn places_are_retold(
    iso: IsoModel,
    told: IsoModel,
    origins: Seq<int>,
    lengths: Seq<FileLengthModel>,
    placed: Placed,
    labels: Seq<int>,
) -> (entries: Seq<int>)
    requires
        retells(iso, told, origins),
        sizes_are_told(iso, told.directory_record_packing, told.directory_length_policy),
        iso.supplementary_volumes.len() <= 1,
        joliet_is_replanned(told, placed, labels),
        placed_filesystem(iso, lengths) == Ok::<Placed, Failure>(placed),
        told.path_table_size == Some(placed.table.size) || (told.path_table_size is None
            && placed.table.size == table_size_from(primary_order(iso), 0)),
    ensures
        are_entries_of(placed.state.primary.placements, entries, origins),
        placed_filesystem(told, lengths) == Ok::<Placed, Failure>(
            placed_again(told, placed, entries, labels),
        ),
{
    let nodes = primary_nodes(iso);
    let nodes_again = primary_nodes(told);
    directories_are_retold(iso, told, origins);
    let order = primary_order(iso);
    let again = primary_order(told);
    table_size_is_retold(order, again, origins, 0);
    assert(table_plan(
        again,
        told.path_table_size,
        ErrorKind::TableSizeZero,
        ErrorKind::TableAllocation,
    ) == Ok::<TablePlan, Failure>(placed.table));
    sizes_are_retold(iso, told, origins, order, again, 0, Seq::empty(), Seq::empty());
    let sized = sized_directories_from(iso, nodes, order, 0, Seq::empty())->Ok_0;
    let sized_again = sized_directories_from(told, nodes_again, again, 0, Seq::empty())->Ok_0;
    let entries = Seq::new(again.len(), |i: int| again[i].entry);
    assert(sized_again =~= relabelled(sized, entries)) by {
        assert forall|i: int| 0 <= i < sized.len() implies #[trigger] sized_again[i]
            == relabelled(sized, entries)[i] by {}
    }
    parts_are_apart(iso, lengths, placed);
    assert(are_sized(iso, placed.state.primary.placements));
    assert(reference_marks(told, sized_again) =~= reference_marks(iso, sized)) by {
        assert forall|i: int| 0 <= i < sized.len() implies #[trigger] reference_marks(
            told,
            sized_again,
        )[i] == reference_marks(iso, sized)[i] by {
            assert(again[i] == (PlacementModel { entry: again[i].entry, ..order[i] }));
            assert(sized_again[i].entry == again[i].entry);
            assert(sized[i].entry == order[i].entry);
            assert(retells_entry(iso, told, origins[again[i].entry], again[i].entry));
        }
    }
    let metadata = metadata_is_retold(iso, told, lengths, placed, sized, sized_again, entries, labels);
    assert forall|path: Seq<char>| #[trigger]
        holds_reference(told.entries, path) == holds_reference(iso.entries, path) by {
        references_are_retold(iso, told, origins, path);
    }
    contents_are_relabelled(iso, told, lengths, metadata, entries, labels);
    assert forall|i: int| 0 <= i < entries.len() implies 0 <= #[trigger] entries[i] < origins.len()
        && origins[entries[i]] == placed.state.primary.placements[i].entry by {
        assert(again[i] == (PlacementModel { entry: again[i].entry, ..order[i] }));
        let one = sized_directory(iso, nodes, order[i])->Ok_0;
        assert(same_directory(
            placed.state.primary.placements[i],
            one,
        ));
    }
    entries
}

/// Bytes behind the records of a directory are written as they are told.
proof fn slack_is_rewritten(
    written: Seq<u8>,
    end: int,
    slack: Option<SlackModel>,
    path: Seq<char>,
    length: u32,
)
    requires
        with_slack(written, end, slack, path, length) is Ok,
        0 <= end,
        forall|i: int| end <= i < written.len() ==> written[i] == 0,
    ensures
        with_slack(written, end, told_slack(slack), path, length) == with_slack(
            written,
            end,
            slack,
            path,
            length,
        ),
{
    if slack is Some {
        let data = hex_bytes(slack->Some_0.hex);
        let offset = slack->Some_0.offset as int;
        let first = leading_zeros(data, 0);
        let used = used_length(data, 0) as int;
        slack_is_shorter(slack);
        leading_zeros_bound(data, 0);
        used_length_is_last(data, 0);
        let all = put(written, offset, data);
        if used == 0 {
            assert(all =~= written);
        } else {
            assert(put(written, offset + first, data.subrange(first, used)) =~= all);
        }
    }
}

/// Everything that records depend on is told as it is.
pub open spec fn records_are_told(iso: IsoModel, told: IsoModel, origins: Seq<int>, state: PlacingModel) -> bool {
    &&& primary_options(told).trailing_system_use_padding == primary_options(
        iso,
    ).trailing_system_use_padding || !iso.xa_system_use
    &&& told.directory_record_packing == iso.directory_record_packing || (
    told.directory_record_packing == DirectoryRecordPacking::Fill && have_plain_packing(
        iso,
        state,
        0,
    ))
    &&& told.directory_parent_recording_time == iso.directory_parent_recording_time || (
    told.directory_parent_recording_time == DirectoryParentRecordingTime::Parent
        && have_times_of_parents(iso, state, 0))
    &&& forall|e: int|
        0 <= e < origins.len() && !primary_nodes(iso)[#[trigger] origins[e]].directory
            ==> file_spot(told.entries[e], state.files) == file_spot(
            iso.entries[origins[e]],
            state.files,
        )
}

/// The records of the told entries point where those that they are told of do.
pub proof fn spot_is_retold(
    iso: IsoModel,
    told: IsoModel,
    origins: Seq<int>,
    state: PlacingModel,
    entries: Seq<int>,
    joliet: Seq<int>,
    index: int,
)
    requires
        retells(iso, told, origins),
        records_are_told(iso, told, origins, state),
        0 <= index < origins.len(),
    ensures
        primary_spots(told, with_entries(state, entries, joliet), primary_nodes(told))[index]
            == primary_spots(iso, state, primary_nodes(iso))[origins[index]],
{
    assert(retells_entry(iso, told, origins[index], index));
    assert(same_node(primary_nodes(iso)[origins[index]], primary_nodes(told)[index]));
    let directories = state.primary.placements;
    let path = iso.entries[origins[index]].path;
    found_alike(directories, entries, path, 0);
    found_directory_is_there(directories, path, 0);
}

/// The time of a parent, where it is that of the directory itself.
proof fn times_are_alike(iso: IsoModel, first: int, second: int)
    requires
        read_time(iso, first) == read_time(iso, second),
        recording_time_bytes(iso.entries[first].recording_time) is Ok,
        recording_time_bytes(iso.entries[second].recording_time) is Ok,
    ensures
        recording_time_bytes(iso.entries[first].recording_time) == recording_time_bytes(
            iso.entries[second].recording_time,
        ),
{
    recording_time_length(iso.entries[first].recording_time);
    recording_time_length(iso.entries[second].recording_time);
    recording_time_survives(
        recording_time_bytes(iso.entries[first].recording_time)->Ok_0,
    );
    recording_time_survives(
        recording_time_bytes(iso.entries[second].recording_time)->Ok_0,
    );
}

/// Where the padding byte of a record stands does not show without system-use data.
proof fn padding_does_not_show(
    node: NodeModel,
    extent: u32,
    length: u32,
    name: Seq<u8>,
    directory: bool,
    trailing: bool,
    again: bool,
)
    ensures
        node_record(node, extent, length, name, directory, trailing, false) == node_record(
            node,
            extent,
            length,
            name,
            directory,
            again,
            false,
        ),
{
    let time = recording_time_bytes(node.recording_time);
    if time is Ok {
        let model = RecordModel {
            extent,
            length,
            recording_time: time->Ok_0,
            flags: record_flags(directory, node.hidden, node.associated),
            file_unit_size: 0,
            interleave_gap_size: 0,
            volume_sequence_number: 1,
            name,
            system_use: Seq::empty(),
            trailing_system_use_padding: trailing,
        };
        assert(record_layout(model) =~= record_layout(
            RecordModel { trailing_system_use_padding: again, ..model },
        ));
    }
}

/// The records of a directory are told as they are.
#[verifier::rlimit(30)]
proof fn directory_records_are_retold(
    iso: IsoModel,
    told: IsoModel,
    origins: Seq<int>,
    state: PlacingModel,
    entries: Seq<int>,
    index: int,
)
    requires
        is_tree(iso),
        are_sized(iso, state.primary.placements),
        retells(iso, told, origins),
        records_are_told(iso, told, origins, state),
        are_entries_of(state.primary.placements, entries, origins),
        0 <= index < state.primary.placements.len(),
        !is_reference(iso, state.primary.placements[index]),
        directory_records(
            primary_nodes(iso),
            primary_spots(iso, state, primary_nodes(iso)),
            state.primary.placements[index],
            state.primary.placements[state.primary.placements[index].parent],
            primary_options(iso),
        ) is Ok,
    ensures
        ({
            let again = with_entries(state, entries, Seq::empty());
            let directories = again.primary.placements;
            directory_records(
                primary_nodes(told),
                primary_spots(told, again, primary_nodes(told)),
                directories[index],
                directories[directories[index].parent],
                primary_options(told),
            ) == directory_records(
                primary_nodes(iso),
                primary_spots(iso, state, primary_nodes(iso)),
                state.primary.placements[index],
                state.primary.placements[state.primary.placements[index].parent],
                primary_options(iso),
            )
        }),
{
    let nodes = primary_nodes(iso);
    let nodes_again = primary_nodes(told);
    let spots = primary_spots(iso, state, nodes);
    let again = with_entries(state, entries, Seq::empty());
    let spots_again = primary_spots(told, again, nodes_again);
    let options = primary_options(iso);
    let options_again = primary_options(told);
    let trailing = options.trailing_system_use_padding;
    let trailing_again = options_again.trailing_system_use_padding;
    let directories = state.primary.placements;
    let directory = directories[index];
    directories_follow_order(iso, directories);
    if index > 0 {
        assert(is_held(nodes, directories, index, directories.len() as int));
    }
    let parent = directories[directory.parent];
    if directory.parent > 0 {
        assert(is_held(nodes, directories, directory.parent, directories.len() as int));
    }
    root_is_directory(iso);
    assert(0 <= directory.entry < iso.entries.len() && nodes[directory.entry].directory);
    assert(0 <= parent.entry < iso.entries.len() && nodes[parent.entry].directory);
    assert(retells_entry(iso, told, origins[entries[index]], entries[index]));
    assert(retells_entry(
        iso,
        told,
        origins[entries[directory.parent]],
        entries[directory.parent],
    ));
    directory_uses_xa(iso, directory.entry);
    directory_uses_xa(iso, parent.entry);
    let dot = node_record(
        nodes[directory.entry],
        directory.extent,
        directory.length,
        seq![0u8],
        true,
        trailing,
        options.xa_system_use,
    );
    assert(node_record(
        nodes_again[entries[index]],
        directory.extent,
        directory.length,
        seq![0u8],
        true,
        trailing_again,
        options.xa_system_use,
    ) == dot) by {
        if !iso.xa_system_use {
            padding_does_not_show(
                nodes_again[entries[index]],
                directory.extent,
                directory.length,
                seq![0u8],
                true,
                trailing,
                trailing_again,
            );
        }
    }
    let above = node_record(
        nodes[parent.entry],
        parent.extent,
        parent.length,
        seq![1u8],
        true,
        trailing,
        options.xa_system_use,
    );
    assert(node_record(
        nodes_again[entries[directory.parent]],
        parent.extent,
        parent.length,
        seq![1u8],
        true,
        trailing_again,
        options.xa_system_use,
    ) == above) by {
        if !iso.xa_system_use {
            padding_does_not_show(
                nodes_again[entries[directory.parent]],
                parent.extent,
                parent.length,
                seq![1u8],
                true,
                trailing,
                trailing_again,
            );
        }
    }
    let directory_again = again.primary.placements[index];
    let parent_again = again.primary.placements[directory.parent];
    let second = parent_record(nodes, directory, parent, options);
    assert(parent_record(nodes_again, directory_again, parent_again, options_again) == second) by {
        if options_again.parent_time != options.parent_time {
            let plain = TreeOptions { parent_time: options_again.parent_time, ..options };
            parent_tells(nodes, directory, parent, options);
            parent_tells(nodes, directory, parent, plain);
            if index > 0 {
                assert(!is_reference(iso, state.primary.placements[index]));
                assert(has_time_of_parent(iso, state, index));
                times_are_alike(iso, directory.entry, parent.entry);
            }
            assert(parent_model(nodes, directory, parent, plain) == parent_model(
                nodes,
                directory,
                parent,
                options,
            ));
        }
    }
    let first = seq![dot->Ok_0, second->Ok_0];
    records_are_accepted(iso, state, index);
    assert forall|k: int| 0 <= k < nodes.len() && is_child(
        #[trigger] nodes[k],
        directory.path,
    ) implies child_record(nodes[k], spots[k], trailing) is Ok by {
        made_children_are_ok(nodes, spots, directory.path, trailing, 0, first, k);
    }
    assert forall|e: int| 0 <= e < nodes_again.len() && is_child(
        #[trigger] nodes_again[e],
        directory.path,
    ) implies child_record(nodes_again[e], spots_again[e], trailing_again) == child_record(
        nodes[origins[e]],
        spots[origins[e]],
        trailing,
    ) by {
        spot_is_retold(iso, told, origins, state, entries, Seq::empty(), e);
        assert(retells_entry(iso, told, origins[e], e));
        assert(same_node(nodes[origins[e]], nodes_again[e]));
        if !iso.xa_system_use {
            padding_does_not_show(
                nodes_again[e],
                spots_again[e].extent,
                spots_again[e].length->Ok_0,
                nodes_again[e].identifier,
                nodes_again[e].directory,
                trailing,
                trailing_again,
            );
        }
    }
    records_are_retold(
        nodes,
        spots,
        nodes_again,
        spots_again,
        origins,
        directory.path,
        trailing,
        trailing_again,
        first,
    );
}

/// The records of what lies in a directory can be made, where all of them can.
pub proof fn made_children_are_ok(
    nodes: Seq<NodeModel>,
    spots: Seq<SpotModel>,
    path: Seq<char>,
    trailing: bool,
    index: int,
    made: Seq<Seq<u8>>,
    k: int,
)
    requires
        0 <= index <= k < nodes.len(),
        is_child(nodes[k], path),
        child_records_from(nodes, spots, path, trailing, index, made) is Ok,
    ensures
        child_record(nodes[k], spots[k], trailing) is Ok,
    decreases k - index,
{
    if index < k {
        if is_child(nodes[index], path) {
            let record = child_record(nodes[index], spots[index], trailing)->Ok_0;
            made_children_are_ok(nodes, spots, path, trailing, index + 1, made.push(record), k);
        } else {
            made_children_are_ok(nodes, spots, path, trailing, index + 1, made, k);
        }
    }
}

/// What holds anything is no file, and so the root is none.
proof fn root_holds_the_rest(iso: IsoModel, index: int)
    requires
        is_tree(iso),
        0 < index < iso.entries.len(),
    ensures
        !is_file(iso, root_path()),
    decreases iso.entries[index].path.len(),
{
    let path = iso.entries[index].path;
    let parent = parent_of(path);
    assert(entry_check(iso, index) is Ok);
    assert(iso.entries[0].path != iso.entries[index].path);
    assert(is_known(iso.entries, parent) && !is_file(iso, parent));
    if parent != root_path() {
        let k = choose|k: int|
            0 <= k < iso.entries.len() && (#[trigger] iso.entries[k]).path == parent;
        parent_is_shorter(path);
        root_holds_the_rest(iso, k);
    }
}

/// The root of a tree is a directory.
pub proof fn root_is_directory(iso: IsoModel)
    requires
        is_tree(iso),
        directories_of(primary_nodes(iso), ErrorKind::UnreachableDirectory) is Ok,
    ensures
        primary_nodes(iso)[0].directory,
{
    if iso.entries.len() > 1 {
        root_holds_the_rest(iso, 1);
    } else {
        reveal_with_fuel(count_directories, 2);
        assert(primary_nodes(iso).len() == 1);
    }
}

/// A directory has XA data where others have it.
pub proof fn directory_uses_xa(iso: IsoModel, index: int)
    requires
        is_tree(iso),
        0 <= index < iso.entries.len(),
        primary_nodes(iso)[index].directory,
    ensures
        primary_nodes(iso)[index].system_use == iso.xa_system_use,
{
    assert(iso.entries[index].path == primary_nodes(iso)[index].path);
}

/// The bytes of a directory are told as they are.
#[verifier::rlimit(30)]
pub proof fn directory_is_retold(
    iso: IsoModel,
    told: IsoModel,
    origins: Seq<int>,
    state: PlacingModel,
    entries: Seq<int>,
    index: int,
)
    requires
        is_tree(iso),
        are_sized(iso, state.primary.placements),
        retells(iso, told, origins),
        records_are_told(iso, told, origins, state),
        are_entries_of(state.primary.placements, entries, origins),
        0 <= index < state.primary.placements.len(),
        !is_reference(iso, state.primary.placements[index]),
        directory_bytes(
            primary_nodes(iso),
            primary_spots(iso, state, primary_nodes(iso)),
            state.primary.placements[index],
            state.primary.placements[state.primary.placements[index].parent],
            iso.entries[state.primary.placements[index].entry].directory_slack,
            primary_options(iso),
        ) is Ok,
    ensures
        ({
            let again = with_entries(state, entries, Seq::empty());
            let directories = again.primary.placements;
            directory_bytes(
                primary_nodes(told),
                primary_spots(told, again, primary_nodes(told)),
                directories[index],
                directories[directories[index].parent],
                told.entries[directories[index].entry].directory_slack,
                primary_options(told),
            ) == directory_bytes(
                primary_nodes(iso),
                primary_spots(iso, state, primary_nodes(iso)),
                state.primary.placements[index],
                state.primary.placements[state.primary.placements[index].parent],
                iso.entries[state.primary.placements[index].entry].directory_slack,
                primary_options(iso),
            )
        }),
{
    directory_records_are_retold(iso, told, origins, state, entries, index);
    let nodes = primary_nodes(iso);
    let spots = primary_spots(iso, state, nodes);
    let directories = state.primary.placements;
    let directory = directories[index];
    let parent = directories[directory.parent];
    let options = primary_options(iso);
    let records = directory_records(nodes, spots, directory, parent, options)->Ok_0;
    let empty = fill((directory.blocks * 2048) as nat, 0);
    let (written, end) = pack_records_from(records, 0, 0, empty, options.packing);
    assert(!is_reference(iso, state.primary.placements[index]));
    assert(pack_records_from(records, 0, 0, empty, told.directory_record_packing) == (
        written,
        end,
    )) by {
        if told.directory_record_packing != iso.directory_record_packing {
            assert(has_plain_packing(iso, state, index));
        }
    }
    packing_is_local(records, 0, 0, empty, options.packing);
    pack_records_grow(records, 0, 0, empty, options.packing);
    assert forall|i: int| end <= i < written.len() implies written[i] == 0 by {
        assert(written[i] == empty[i]);
    }
    assert(retells_entry(iso, told, origins[entries[index]], entries[index]));
    let slack = iso.entries[directory.entry].directory_slack;
    slack_is_rewritten(written, end, slack, nodes[directory.entry].path, directory.length);
    assert(primary_nodes(told)[entries[index]].path == nodes[directory.entry].path);
}

/// The directories of an image are written as they are told.
pub proof fn directories_are_rewritten(
    iso: IsoModel,
    told: IsoModel,
    origins: Seq<int>,
    state: PlacingModel,
    entries: Seq<int>,
    image: Seq<u8>,
    index: int,
)
    requires
        is_tree(iso),
        are_sized(iso, state.primary.placements),
        retells(iso, told, origins),
        records_are_told(iso, told, origins, state),
        are_entries_of(state.primary.placements, entries, origins),
        0 <= index <= state.primary.placements.len(),
        with_directories_from(
            iso,
            primary_nodes(iso),
            primary_spots(iso, state, primary_nodes(iso)),
            state.primary.placements,
            image,
            index,
        ) is Ok,
    ensures
        ({
            let again = with_entries(state, entries, Seq::empty());
            with_directories_from(
                told,
                primary_nodes(told),
                primary_spots(told, again, primary_nodes(told)),
                again.primary.placements,
                image,
                index,
            ) == with_directories_from(
                iso,
                primary_nodes(iso),
                primary_spots(iso, state, primary_nodes(iso)),
                state.primary.placements,
                image,
                index,
            )
        }),
    decreases state.primary.placements.len() - index,
{
    let directories = state.primary.placements;
    if index < directories.len() {
        let directory = directories[index];
        assert(retells_entry(iso, told, origins[entries[index]], entries[index]));
        if is_reference(iso, directory) {
            directories_are_rewritten(iso, told, origins, state, entries, image, index + 1);
        } else {
            directory_is_retold(iso, told, origins, state, entries, index);
            let data = directory_bytes(
                primary_nodes(iso),
                primary_spots(iso, state, primary_nodes(iso)),
                directory,
                directories[directory.parent],
                iso.entries[directory.entry].directory_slack,
                primary_options(iso),
            )->Ok_0;
            let next = with_extent(image, directory.extent as int, data);
            directories_are_rewritten(iso, told, origins, state, entries, next, index + 1);
        }
    }
}

} // verus!
