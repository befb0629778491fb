//! What is read of an image with a Joliet volume is laid out as the image again.
use vstd::prelude::*;

use crate::error::{ErrorKind, Failure};
use crate::hexcode::{hex_round_trip, hex_text};
use crate::iso9660::description::{
    EntryModel, IdentifierPolicy, IsoModel, JolietModel, VolumeModel,
};
use crate::iso9660::descriptor_laws::{descriptor_length, texts_end_plainly};
use crate::iso9660::descriptor_write::{odd_bytes, svd_block, svd_fields};
use crate::iso9660::directory::{directory_bytes, SpotModel, TreeOptions};
use crate::iso9660::file_order_laws::{extents_show, files_are_tallied, is_tallied, lengths_show};
use crate::iso9660::image_laws::holds_parts;
use crate::iso9660::joliet_laws::{
    is_joliet_walkable, joliet_directories_follow_order, joliet_model_at, joliet_name_is_read,
    joliet_tree_entries_from, sources_are_told, JolietTree,
};
use crate::iso9660::joliet_layout_laws::{
    joliet_layout_is_walkable, joliet_tree_of, versions_are_told,
};
use crate::iso9660::joliet_parse_laws::{
    has_readable_joliet_tables, is_joliet_descriptor_readable, joliet_image_is_parsed,
    joliet_names_are_written, joliet_records_are_of_nodes, names_give_size, told_joliet,
    told_joliet_descriptor, told_joliet_root, told_metadata, told_with_joliet,
};
use crate::iso9660::joliet_retelling_laws::{
    all_joliet_are_written, are_labels, entry_writes_alike, joliet_entries_pass,
    joliet_nodes_are_retold, joliet_origins, joliet_tree_is_told, order_is_counted,
    parents_are_listed, parents_have_places, tree_is_rewritten, writes_alike,
};
use crate::iso9660::joliet_walk::{
    joliet_source, padding_with, sources_from, string_padding, PaddingModel,
};
use crate::iso9660::layout::{
    directory_size, file_spot, find_entry_from, joliet_options, joliet_place, joliet_plan,
    joliet_spot, joliet_spots, layout_of, primary_options, sized_directory, sized_joliet_directory,
    sized_joliet_from, table_bytes, table_size_from, with_extent, with_joliet_directories_from,
    JolietPlan, LayoutModel, Placed,
};
use crate::iso9660::layout_laws::{
    has_plain_packing, is_filled, is_layout, layout_holds_parts, places_of, records_are_some,
    size_of_volume,
};
use crate::iso9660::metadata::{all_joliet_recorded, all_recorded, joliet_records, length_policy};
use crate::iso9660::order_laws::is_held;
use crate::iso9660::parse::{file_order, parsed_iso, plain_parsed};
use crate::iso9660::parse_laws::{
    audio_ends, has_readable_tables, joliet_descriptor_of, primary_is_parsed, spots_of, table_read,
    tables_stand_apart, told, told_tally,
};
use crate::iso9660::path_table::PlacementModel;
use crate::iso9660::placing::FileLengthModel;
use crate::iso9660::placing_laws::{
    are_joliet_sized, found_directory_is_there, joliet_directories_are_sized, parts_are_apart,
    primary_order, same_directory,
};
use crate::iso9660::reading_laws::has_quiet_slack;
use crate::iso9660::rebuilding_laws::{
    application_use_shows, file_spot_is_told, joliet_is_rewritten, plain_packing_has_size,
    read_fills_alike, recorded_has_no_slack, size_is_told_whole, slack_shows, tables_match,
    told_is_laid_out,
};
use crate::iso9660::record::{is_cdda, size_of_record, RecordModel};
use crate::iso9660::relabel_laws::{found_alike, relabelled, with_entries};
use crate::iso9660::retelling_laws::{told_entry, told_origins};
use crate::iso9660::retold_layout_laws::{
    joliet_is_replanned, replans, retells, retells_entry, table_size_is_retold,
};
use crate::iso9660::selection_laws::{
    are_retold, is_retold, lengths_are_retold, order_is_retold,
};
use crate::iso9660::table_laws::{alike_are_written_alike, are_listed_alike, table_has_size};
use crate::iso9660::told_checks_laws::{
    image_is_retold, joliet_passes, length_policy_holds, shows_files, told_of, told_policy,
};
use crate::iso9660::told_entries_laws::{
    all_are_written, forms_show, is_plain_image, lengths_are_told, plain_image_has,
    refers_to_nothing, tables_show, tally_has_indexes,
};
use crate::iso9660::tree::{
    authored_nodes, directories_of, is_authored, is_file, is_referenced, joliet_node, joliet_nodes,
    primary_nodes, record_lengths, records_length, system_use_size, unplaced, NodeModel,
};
use crate::iso9660::tree_walk_laws::{
    all_found, directories_follow_order, have_plain_packing, have_times_of_parents, is_reference,
};
use crate::iso9660::validate::{
    joliet_check, joliet_entry_check, joliet_entry_checks, joliet_parent_check,
    joliet_settings_check, metadata_check, version_fits,
};
use crate::iso9660::walk::FoundModel;
use crate::iso9660::walk_laws::{found_at, xa_at, Tally};
use crate::manifest::{
    DirectoryLengthPolicy, DirectoryParentRecordingTime, DirectoryRecordPacking,
    PrimaryVolumeApplicationUse,
};
use crate::model::first_failure_ok;
use crate::raw_cd::Block;
use crate::text::root_path;

verus! {

/// The entries that describe directories.
spec fn entries_of(directories: Seq<PlacementModel>) -> Seq<int> {
    Seq::new(directories.len(), |i: int| directories[i].entry)
}

/// An entry is found by its path.
proof fn found_entry_is_there(entries: Seq<EntryModel>, path: Seq<char>, index: int)
    requires
        0 <= index <= entries.len(),
    ensures
        index <= find_entry_from(entries, path, index) <= entries.len(),
        find_entry_from(entries, path, index) < entries.len() ==> entries[find_entry_from(
            entries,
            path,
            index,
        )].path == path,
        find_entry_from(entries, path, index) == entries.len() ==> forall|k: int|
            index <= k < entries.len() ==> (#[trigger] entries[k]).path != path,
    decreases entries.len() - index,
{
    if index < entries.len() && entries[index].path != path {
        found_entry_is_there(entries, path, index + 1);
    }
}

/// The record of a file of the Joliet tree points where it did.
proof fn joliet_spot_is_told(
    iso: IsoModel,
    lengths: Seq<FileLengthModel>,
    layout: LayoutModel,
    blocks: Seq<Block>,
    packing: DirectoryRecordPacking,
    time: DirectoryParentRecordingTime,
    volumes: Seq<JolietModel>,
    source: Seq<char>,
)
    requires
        is_plain_image(iso, lengths, layout, blocks),
        shows_files(iso, lengths),
        volumes.len() == iso.supplementary_volumes.len(),
        is_file(iso, source),
    ensures
        ({
            let files = places_of(iso, lengths).state.files;
            let again = told_of(iso, lengths, blocks, packing, time, volumes);
            let at = find_entry_from(iso.entries, source, 0);
            let at_again = find_entry_from(again.entries, source, 0);
            &&& (at_again < again.entries.len()) == (at < iso.entries.len())
            &&& at < iso.entries.len() ==> file_spot(again.entries[at_again], files) == file_spot(
                iso.entries[at],
                files,
            )
        }),
{
    let state = places_of(iso, lengths).state;
    let again = told_of(iso, lengths, blocks, packing, time, volumes);
    let origins = told_origins(iso, state);
    image_is_retold(iso, lengths, layout, blocks, packing, time, volumes);
    plain_image_has(iso, lengths, layout, blocks);
    found_entry_is_there(iso.entries, source, 0);
    found_entry_is_there(again.entries, source, 0);
    let at = find_entry_from(iso.entries, source, 0);
    let at_again = find_entry_from(again.entries, source, 0);
    assert(again.entries.len() == origins.len()) by {
        assert(primary_nodes(again).len() == origins.len());
    }
    if at < iso.entries.len() {
        assert(primary_nodes(iso).len() == iso.entries.len());
        assert(origins.contains(at));
        let e = choose|e: int| 0 <= e < origins.len() && origins[e] == at;
        assert(retells_entry(iso, again, origins[e], e));
        assert(again.entries[e].path == source);
        assert(at_again < again.entries.len());
        let k = origins[at_again];
        assert(retells_entry(iso, again, origins[at_again], at_again));
        assert(iso.entries[k].path == source);
        assert(k == at);
        assert(again.entries[at_again] == told_entry(iso, state, blocks, origins[at_again]));
        assert(!primary_nodes(iso)[at].directory);
        file_spot_is_told(iso, lengths, layout, blocks, at);
    } else if at_again < again.entries.len() {
        assert(retells_entry(iso, again, origins[at_again], at_again));
        assert(iso.entries[origins[at_again]].path == source);
    }
}

/// The directories of the Joliet tree keep the entries that describe them.
proof fn joliet_entries_are_planned(iso: IsoModel, placed: Placed)
    requires
        placed.joliet is Some,
        joliet_plan(iso) == Ok::<JolietPlan, Failure>(placed.joliet->Some_0),
        are_joliet_sized(iso, placed.joliet->Some_0, placed.state.joliet.placements),
    ensures
        entries_of(placed.state.joliet.placements) == entries_of(
            placed.joliet->Some_0.directories,
        ),
{
    let plan = placed.joliet->Some_0;
    let system_use = iso.supplementary_volumes[0].xa_system_use;
    let order = directories_of(plan.nodes, ErrorKind::UnreachableJolietDirectory)->Ok_0;
    joliet_directories_are_sized(iso, plan.nodes, system_use, order, 0, Seq::empty());
    let directories = placed.state.joliet.placements;
    assert forall|i: int| 0 <= i < directories.len() implies (#[trigger] directories[i]).entry
        == plan.directories[i].entry by {
        let sized = sized_joliet_directory(iso, plan.nodes, system_use, order[i]);
        assert(sized == Ok::<PlacementModel, Failure>(plan.directories[i]));
        assert(same_directory(directories[i], sized->Ok_0));
    }
    assert(entries_of(directories) =~= entries_of(plan.directories));
}

/// With another way to pack records, and other times of parents, the directories of the
/// Joliet tree of an image have the bytes that they have, and their records the lengths.
#[verifier::opaque]
pub open spec fn joliet_writes_alike(
    iso: IsoModel,
    placed: Placed,
    packing: DirectoryRecordPacking,
    time: DirectoryParentRecordingTime,
) -> bool {
    let tree = joliet_tree_of(iso, placed);
    let options = TreeOptions { packing, parent_time: time, ..tree.options };
    let system_use = tree.options.xa_system_use;
    forall|j: int|
        0 <= j < tree.directories.len() ==> {
            let directory = #[trigger] tree.directories[j];
            let parent = tree.directories[directory.parent];
            &&& directory_bytes(tree.nodes, tree.spots, directory, parent, None, options)
                == directory_bytes(
                tree.nodes,
                tree.spots,
                directory,
                parent,
                None,
                tree.options,
            )
            &&& records_length(tree.nodes, directory.path, system_use, packing) == records_length(
                tree.nodes,
                directory.path,
                system_use,
                tree.options.packing,
            )
        }
}

/// With such a way to pack them, records have the lengths that they have.
proof fn alike_have_length(
    iso: IsoModel,
    placed: Placed,
    packing: DirectoryRecordPacking,
    time: DirectoryParentRecordingTime,
    index: int,
)
    requires
        joliet_writes_alike(iso, placed, packing, time),
        0 <= index < placed.state.joliet.placements.len(),
    ensures
        ({
            let nodes = joliet_tree_of(iso, placed).nodes;
            let path = placed.state.joliet.placements[index].path;
            let system_use = iso.supplementary_volumes[0].xa_system_use;
            records_length(nodes, path, system_use, packing) == records_length(
                nodes,
                path,
                system_use,
                iso.directory_record_packing,
            )
        }),
{
    reveal(joliet_writes_alike);
    let tree = joliet_tree_of(iso, placed);
    assert(tree.directories[index].path == placed.state.joliet.placements[index].path);
}

/// With such a way to pack records, and such times of parents, directories are written
/// alike.
proof fn joliet_is_written_alike(
    iso: IsoModel,
    placed: Placed,
    packing: DirectoryRecordPacking,
    time: DirectoryParentRecordingTime,
    image: Seq<u8>,
)
    requires
        joliet_writes_alike(iso, placed, packing, time),
    ensures
        ({
            let tree = joliet_tree_of(iso, placed);
            with_joliet_directories_from(
                tree.nodes,
                tree.spots,
                tree.directories,
                TreeOptions { packing, parent_time: time, ..tree.options },
                image,
                0,
            ) == with_joliet_directories_from(
                tree.nodes,
                tree.spots,
                tree.directories,
                tree.options,
                image,
                0,
            )
        }),
{
    reveal(joliet_writes_alike);
    let tree = joliet_tree_of(iso, placed);
    options_write_alike(
        tree,
        TreeOptions { packing, parent_time: time, ..tree.options },
        image,
        0,
    );
}

/// The length that is told of a directory of the Joliet tree is the one that it has.
spec fn joliet_size_is_told(
    iso: IsoModel,
    packing: DirectoryRecordPacking,
    policy: DirectoryLengthPolicy,
    nodes: Seq<NodeModel>,
    system_use: bool,
    directory: PlacementModel,
) -> bool {
    let records = records_length(nodes, directory.path, system_use, iso.directory_record_packing);
    &&& records_length(nodes, directory.path, system_use, packing) == records
    &&& directory_size(records, records, policy) == directory_size(
        records,
        records,
        iso.directory_length_policy,
    )
}

/// Directories have the sizes that were told.
proof fn joliet_sizes_are_retold(
    iso: IsoModel,
    told: IsoModel,
    nodes: Seq<NodeModel>,
    nodes_again: Seq<NodeModel>,
    origins: Seq<int>,
    system_use: bool,
    order: Seq<PlacementModel>,
    again: Seq<PlacementModel>,
    index: int,
    sized: Seq<PlacementModel>,
    sized_again: Seq<PlacementModel>,
)
    requires
        is_retold(nodes, nodes_again, origins),
        are_retold(order, again, origins),
        forall|i: int|
            0 <= i < order.len() ==> joliet_size_is_told(
                iso,
                told.directory_record_packing,
                told.directory_length_policy,
                nodes,
                system_use,
                #[trigger] order[i],
            ),
        0 <= index <= order.len(),
        sized.len() == index,
        sized_again.len() == index,
        forall|i: int|
            0 <= i < index ==> (#[trigger] sized_again[i]) == (PlacementModel {
                entry: again[i].entry,
                ..sized[i]
            }),
        forall|i: int| 0 <= i < index ==> (#[trigger] sized[i]).entry == order[i].entry,
        sized_joliet_from(iso, nodes, system_use, order, index, sized) is Ok,
    ensures
        ({
            let all = sized_joliet_from(iso, nodes, system_use, order, index, sized)->Ok_0;
            let all_again = sized_joliet_from(
                told,
                nodes_again,
                system_use,
                again,
                index,
                sized_again,
            );
            &&& all_again is Ok
            &&& all_again->Ok_0.len() == all.len() == order.len()
            &&& forall|i: int|
                0 <= i < all.len() ==> (#[trigger] all_again->Ok_0[i]) == (PlacementModel {
                    entry: again[i].entry,
                    ..all[i]
                })
            &&& forall|i: int| 0 <= i < all.len() ==> (#[trigger] all[i]).entry == order[i].entry
        }),
    decreases order.len() - index,
{
    if index < order.len() {
        assert(again[index] == (PlacementModel { entry: again[index].entry, ..order[index] }));
        let path = order[index].path;
        let dot = size_of_record(1, system_use_size(system_use));
        lengths_are_retold(nodes, nodes_again, origins, path, seq![dot, dot]);
        assert(record_lengths(nodes_again, path, system_use) == record_lengths(
            nodes,
            path,
            system_use,
        ));
        let one = sized_joliet_directory(iso, nodes, system_use, order[index])->Ok_0;
        let one_again = sized_joliet_directory(told, nodes_again, system_use, again[index])->Ok_0;
        let more = sized.push(one);
        let more_again = sized_again.push(one_again);
        assert forall|i: int| 0 <= i < index + 1 implies (#[trigger] more_again[i]) == (
        PlacementModel { entry: again[i].entry, ..more[i] }) by {
            if i < index {
                assert(more_again[i] == sized_again[i]);
            }
        }
        assert forall|i: int| 0 <= i < index + 1 implies (#[trigger] more[i]).entry
            == order[i].entry by {
            if i < index {
                assert(more[i] == sized[i]);
            }
        }
        joliet_sizes_are_retold(
            iso,
            told,
            nodes,
            nodes_again,
            origins,
            system_use,
            order,
            again,
            index + 1,
            more,
            more_again,
        );
    }
}

/// What is told of a Joliet volume has the directories and path tables that the volume
/// has.
proof fn joliet_is_planned_again(
    iso: IsoModel,
    told: IsoModel,
    plan: JolietPlan,
    origins: Seq<int>,
) -> (labels: Seq<int>)
    requires
        joliet_plan(iso) == Ok::<JolietPlan, Failure>(plan),
        joliet_nodes(told.supplementary_volumes[0]) is Ok,
        is_retold(plan.nodes, joliet_nodes(told.supplementary_volumes[0])->Ok_0, origins),
        told.supplementary_volumes[0].xa_system_use
            == iso.supplementary_volumes[0].xa_system_use,
        ({
            let order = directories_of(plan.nodes, ErrorKind::UnreachableJolietDirectory)->Ok_0;
            forall|i: int|
                0 <= i < order.len() ==> joliet_size_is_told(
                    iso,
                    told.directory_record_packing,
                    told.directory_length_policy,
                    plan.nodes,
                    told.supplementary_volumes[0].xa_system_use,
                    #[trigger] order[i],
                )
        }),
        ({
            let order = directories_of(plan.nodes, ErrorKind::UnreachableJolietDirectory)->Ok_0;
            let size = told.supplementary_volumes[0].path_table_size;
            size == Some(plan.table.size) || (size is None && plan.table.size == table_size_from(
                order,
                0,
            ))
        }),
    ensures
        joliet_plan(told) is Ok,
        joliet_plan(told)->Ok_0.nodes == joliet_nodes(told.supplementary_volumes[0])->Ok_0,
        replans(plan, joliet_plan(told)->Ok_0, labels),
        labels.len() == plan.directories.len(),
        forall|i: int|
            0 <= i < labels.len() ==> 0 <= #[trigger] labels[i] < origins.len()
                && origins[labels[i]] == plan.directories[i].entry,
{
    let volume = told.supplementary_volumes[0];
    let nodes = plan.nodes;
    let nodes_again = joliet_nodes(volume)->Ok_0;
    let system_use = volume.xa_system_use;
    let unreachable = ErrorKind::UnreachableJolietDirectory;
    let first = seq![unplaced(root_path(), seq![0u8], 0, 0)];
    assert(are_retold(first, first, origins));
    order_is_retold(nodes, nodes_again, origins, 0, first, first, unreachable);
    let order = directories_of(nodes, unreachable)->Ok_0;
    let again = directories_of(nodes_again, unreachable)->Ok_0;
    table_size_is_retold(order, again, origins, 0);
    joliet_sizes_are_retold(
        iso,
        told,
        nodes,
        nodes_again,
        origins,
        system_use,
        order,
        again,
        0,
        Seq::empty(),
        Seq::empty(),
    );
    let labels = Seq::new(again.len(), |i: int| again[i].entry);
    let sized = joliet_plan(told)->Ok_0.directories;
    assert(sized =~= relabelled(plan.directories, labels)) by {
        assert forall|i: int| 0 <= i < plan.directories.len() implies #[trigger] sized[i]
            == relabelled(plan.directories, labels)[i] by {}
    }
    assert forall|i: int| 0 <= i < labels.len() implies 0 <= #[trigger] labels[i] < origins.len()
        && origins[labels[i]] == plan.directories[i].entry by {
        assert(again[i] == (PlacementModel { entry: again[i].entry, ..order[i] }));
        assert(plan.directories[i].entry == order[i].entry);
    }
    labels
}

/// A file that was found has the path, and lies where the record points.
spec fn names_file(files: Seq<FoundModel>, record: RecordModel, path: Seq<char>) -> bool {
    exists|a: int|
        0 <= a < files.len() && (#[trigger] files[a]).path == path && files[a].extent
            == record.extent && files[a].length == record.length
}

/// All paths are those of files that lie where the record points.
spec fn all_name_files(
    files: Seq<FoundModel>,
    record: RecordModel,
    paths: Seq<Seq<char>>,
) -> bool {
    forall|i: int| 0 <= i < paths.len() ==> names_file(files, record, #[trigger] paths[i])
}

/// The files that a record names are among those that were found.
proof fn sources_were_found(
    files: Seq<FoundModel>,
    record: RecordModel,
    index: int,
    found: Seq<Seq<char>>,
)
    requires
        0 <= index,
        all_name_files(files, record, found),
    ensures
        all_name_files(files, record, sources_from(files, record, index, found)),
    decreases files.len() - index,
{
    if index < files.len() {
        if files[index].extent == record.extent && files[index].length == record.length {
            let more = found.push(files[index].path);
            assert(names_file(files, record, files[index].path));
            assert(all_name_files(files, record, more)) by {
                assert forall|i: int| 0 <= i < more.len() implies names_file(
                    files,
                    record,
                    #[trigger] more[i],
                ) by {
                    if i < found.len() {
                        assert(more[i] == found[i]);
                    }
                }
            }
            sources_were_found(files, record, index + 1, more);
            assert(sources_from(files, record, index, found) == sources_from(
                files,
                record,
                index + 1,
                more,
            ));
        } else {
            sources_were_found(files, record, index + 1, found);
        }
    }
}

/// The record of a Joliet entry that is told points where the entry's does.
proof fn told_source_has_spot(
    iso: IsoModel,
    lengths: Seq<FileLengthModel>,
    layout: LayoutModel,
    blocks: Seq<Block>,
    packing: DirectoryRecordPacking,
    time: DirectoryParentRecordingTime,
    volumes: Seq<JolietModel>,
    record: RecordModel,
    source: Seq<char>,
)
    requires
        is_plain_image(iso, lengths, layout, blocks),
        shows_files(iso, lengths),
        volumes.len() == iso.supplementary_volumes.len(),
        names_file(told_tally(iso, places_of(iso, lengths).state).files, record, source),
    ensures
        is_file(iso, source),
        ({
            let files = places_of(iso, lengths).state.files;
            let again = told_of(iso, lengths, blocks, packing, time, volumes);
            let at = find_entry_from(again.entries, source, 0);
            &&& at < again.entries.len()
            &&& file_spot(again.entries[at], files) == (SpotModel {
                extent: record.extent,
                length: Ok(record.length),
            })
        }),
{
    let state = places_of(iso, lengths).state;
    let spots = spots_of(iso, state);
    let trailing = primary_options(iso).trailing_system_use_padding;
    let files = told_tally(iso, state).files;
    let a = choose|a: int|
        0 <= a < files.len() && (#[trigger] files[a]).path == source && files[a].extent
            == record.extent && files[a].length == record.length;
    tally_has_indexes(iso, lengths, layout, blocks);
    let indexes = told_origins(iso, state).skip(1);
    let none = Tally {
        files: Seq::empty(),
        omissions: Seq::empty(),
        policy: IdentifierPolicy::IsoLevel1,
    };
    files_are_tallied(iso, spots, trailing, indexes, none);
    assert(is_tallied(iso, spots, trailing, indexes, files[a]));
    let i = choose|i: int|
        0 <= i < indexes.len() && !primary_nodes(iso)[#[trigger] indexes[i]].directory && !is_cdda(
            xa_at(iso, spots, trailing, indexes[i]),
        ) && files[a] == found_at(iso, spots, trailing, indexes[i]);
    let k = indexes[i];
    assert(0 < k < iso.entries.len());
    all_are_written(iso, lengths, layout, blocks, k);
    assert(iso.entries[k].path == source);
    assert(is_file(iso, source));
    joliet_spot_is_told(iso, lengths, layout, blocks, packing, time, volumes, source);
    found_entry_is_there(iso.entries, source, 0);
    plain_image_has(iso, lengths, layout, blocks);
    let at = find_entry_from(iso.entries, source, 0);
    assert(at == k);
    assert(spots[k] == file_spot(iso.entries[k], state.files));
}

/// The tree of the Joliet volume of an image that was laid out, its volume as it is told,
/// and the files that it names.
pub open spec fn told_volume_of(
    iso: IsoModel,
    lengths: Seq<FileLengthModel>,
) -> JolietModel {
    told_joliet(
        iso,
        places_of(iso, lengths),
        size_of_volume(iso, lengths),
        told_tally(iso, places_of(iso, lengths).state).files,
    )
}

/// The descriptor of the Joliet volume shows: what is read of it is written as it was, and
/// tells where records have their padding.
pub open spec fn joliet_descriptor_shows(iso: IsoModel, lengths: Seq<FileLengthModel>) -> bool {
    let placed = places_of(iso, lengths);
    let told = told_volume_of(iso, lengths);
    let volume = iso.supplementary_volumes[0];
    let place = joliet_place(
        placed.state,
        placed.joliet->Some_0.table,
        size_of_volume(iso, lengths),
    );
    &&& svd_block(told, place) == svd_block(volume, place)
    &&& (told.descriptor.application_use == PrimaryVolumeApplicationUse::CdRep20131) == (
    volume.descriptor.application_use == PrimaryVolumeApplicationUse::CdRep20131)
}

/// Only an empty identifier of the volume set is told by its bytes.
proof fn raw_is_kept(
    block: Seq<u8>,
    known: PaddingModel,
    offset: int,
    length: int,
    value: Seq<char>,
)
    ensures
        padding_with(block, known, offset, length, value) matches Ok(after) ==> after.raw
            == known.raw || (offset == 190 && value.len() == 0 && after.raw == Some(
            hex_text(block.subrange(offset, offset + length)),
        )),
{
}

proof fn raw_is_of_empty(block: Seq<u8>, descriptor: VolumeModel)
    ensures
        string_padding(block, descriptor) matches Ok(padding) ==> (padding.raw matches Some(text)
            ==> descriptor.volume_set_identifier.len() == 0 && text == hex_text(
            block.subrange(190, 318),
        )),
{
    let none = PaddingModel { empty: None, rest: None, raw: None };
    raw_is_kept(block, none, 8, 32, descriptor.system_identifier);
    let first = padding_with(block, none, 8, 32, descriptor.system_identifier)->Ok_0;
    raw_is_kept(block, first, 40, 32, descriptor.volume_identifier);
    let second = padding_with(block, first, 40, 32, descriptor.volume_identifier)->Ok_0;
    raw_is_kept(block, second, 190, 128, descriptor.volume_set_identifier);
    let third = padding_with(block, second, 190, 128, descriptor.volume_set_identifier)->Ok_0;
    raw_is_kept(block, third, 318, 128, descriptor.publisher_identifier);
    let fourth = padding_with(block, third, 318, 128, descriptor.publisher_identifier)->Ok_0;
    raw_is_kept(block, fourth, 446, 128, descriptor.data_preparer_identifier);
    let fifth = padding_with(block, fourth, 446, 128, descriptor.data_preparer_identifier)->Ok_0;
    raw_is_kept(block, fifth, 574, 128, descriptor.application_identifier);
}

/// What is told of the settings of a Joliet volume passes their checks.
proof fn told_settings_pass(
    iso: IsoModel,
    lengths: Seq<FileLengthModel>,
    block: Seq<u8>,
)
    requires
        block == joliet_descriptor_of(iso, places_of(iso, lengths), size_of_volume(iso, lengths)),
        block.len() == 2048,
        is_joliet_descriptor_readable(iso.supplementary_volumes[0], block),
        odd_bytes(iso.supplementary_volumes[0]) is Ok,
        told_volume_of(iso, lengths).entries.len() > 0,
        told_volume_of(iso, lengths).entries[0] == told_joliet_root(
            iso.supplementary_volumes[0],
        ),
    ensures
        version_fits(told_volume_of(iso, lengths).descriptor.file_structure_version),
        joliet_settings_check(told_volume_of(iso, lengths)) is Ok,
{
    let volume = iso.supplementary_volumes[0];
    let descriptor = told_joliet_descriptor(volume, block);
    raw_is_of_empty(block, descriptor);
    hex_round_trip(block.subrange(190, 318));
    hex_round_trip(odd_bytes(volume)->Ok_0);
    assert(odd_bytes(volume)->Ok_0.len() == 3);
}

/// No less of the path tables of the Joliet volume than there is is recorded where they
/// are made.
pub open spec fn joliet_tables_show(iso: IsoModel, placed: Placed) -> bool {
    iso.supplementary_volumes[0].path_table_little_hex is None
        ==> placed.joliet->Some_0.table.size >= table_size_from(placed.state.joliet.placements, 0)
}

/// The Joliet tree of an image can be read.
#[verifier::opaque]
pub open spec fn is_joliet_image(
    iso: IsoModel,
    lengths: Seq<FileLengthModel>,
    layout: LayoutModel,
    blocks: Seq<Block>,
) -> bool {
    &&& is_layout(iso, lengths, layout)
    &&& is_filled(layout, blocks)
    &&& iso.supplementary_volumes.len() == 1
    &&& versions_are_told(iso.supplementary_volumes[0])
    &&& sources_are_told(
        joliet_tree_of(iso, places_of(iso, lengths)),
        told_tally(iso, places_of(iso, lengths).state).files,
    )
    &&& has_readable_joliet_tables(iso, places_of(iso, lengths))
    &&& joliet_tables_show(iso, places_of(iso, lengths))
    &&& is_joliet_descriptor_readable(
        iso.supplementary_volumes[0],
        joliet_descriptor_of(iso, places_of(iso, lengths), size_of_volume(iso, lengths)),
    )
    &&& joliet_descriptor_shows(iso, lengths)
}

/// What holds of the Joliet tree of an image that can be read.
proof fn joliet_image_has(
    iso: IsoModel,
    lengths: Seq<FileLengthModel>,
    layout: LayoutModel,
    blocks: Seq<Block>,
)
    requires
        is_plain_image(iso, lengths, layout, blocks),
        is_joliet_image(iso, lengths, layout, blocks),
    ensures
        ({
            let placed = places_of(iso, lengths);
            let tree = joliet_tree_of(iso, placed);
            let files = told_tally(iso, placed.state).files;
            let volume = told_volume_of(iso, lengths);
            &&& iso.supplementary_volumes.len() == 1
            &&& is_joliet_walkable(tree, blocks)
            &&& parents_are_listed(tree)
            &&& sources_are_told(tree, files)
            &&& placed.joliet is Some
            &&& joliet_plan(iso) == Ok::<JolietPlan, Failure>(placed.joliet->Some_0)
            &&& are_joliet_sized(iso, placed.joliet->Some_0, placed.state.joliet.placements)
            &&& volume.xa_system_use == tree.volume.xa_system_use
            &&& volume.entries == joliet_tree_entries_from(
                tree,
                files,
                0,
                seq![told_joliet_root(tree.volume)],
            )
            &&& forall|k: int|
                0 <= k < tree.volume.entries.len() ==> #[trigger] joliet_entry_check(
                    iso,
                    tree.volume,
                    k,
                ) is Ok
        }),
{
    reveal(is_joliet_image);
    let placed = places_of(iso, lengths);
    let tree = joliet_tree_of(iso, placed);
    let volume = iso.supplementary_volumes[0];
    plain_image_has(iso, lengths, layout, blocks);
    joliet_layout_is_walkable(iso, lengths, layout, blocks);
    assert(metadata_check(iso) is Ok && joliet_check(iso) is Ok);
    tables_stand_apart(iso, lengths, placed);
    parts_are_apart(iso, lengths, placed);
    let plan = placed.joliet->Some_0;
    let checks = joliet_entry_checks(iso, volume);
    first_failure_ok(checks, 0, volume.entries.len() as int);
    assert forall|k: int| 0 <= k < volume.entries.len() implies #[trigger] joliet_entry_check(
        iso,
        volume,
        k,
    ) is Ok by {
        assert(checks(k) is Ok);
    }
    assert forall|k: int| 0 < k < volume.entries.len() implies joliet_parent_check(
        volume.entries,
        (#[trigger] volume.entries[k]).path,
    ) is Ok by {
        assert(joliet_entry_check(iso, volume, k) is Ok);
    }
    order_is_counted(
        plan.nodes,
        0,
        seq![unplaced(root_path(), seq![0u8], 0, 0)],
        ErrorKind::UnreachableJolietDirectory,
    );
    parents_have_places(tree);
}

/// The records of what is told of the Joliet tree point where they did.
proof fn joliet_spots_are_retold(
    iso: IsoModel,
    lengths: Seq<FileLengthModel>,
    layout: LayoutModel,
    blocks: Seq<Block>,
    packing: DirectoryRecordPacking,
    time: DirectoryParentRecordingTime,
    labels: Seq<int>,
    e: int,
)
    requires
        is_plain_image(iso, lengths, layout, blocks),
        shows_files(iso, lengths),
        is_joliet_image(iso, lengths, layout, blocks),
        0 <= e < joliet_origins(joliet_tree_of(iso, places_of(iso, lengths))).len(),
    ensures
        ({
            let state = places_of(iso, lengths).state;
            let tree = joliet_tree_of(iso, places_of(iso, lengths));
            let volume = told_volume_of(iso, lengths);
            let again = told_of(iso, lengths, blocks, packing, time, seq![volume]);
            &&& joliet_spot(again, with_entries(state, Seq::empty(), labels), volume, e)
                == tree.spots[joliet_origins(tree)[e]]
            &&& volume.entries[e].source matches Some(source) ==> is_file(iso, source)
            &&& e < volume.entries.len()
        }),
{
    joliet_image_has(iso, lengths, layout, blocks);
    let placed = places_of(iso, lengths);
    let state = placed.state;
    let tree = joliet_tree_of(iso, placed);
    let files = told_tally(iso, state).files;
    let volume = told_volume_of(iso, lengths);
    let origins = joliet_origins(tree);
    joliet_tree_is_told(tree, files, told_joliet_root(tree.volume));
    let k = origins[e];
    assert(0 <= origins[e] < tree.nodes.len());
    if e > 0 {
        assert(0 < origins[e]);
    }
    entry_writes_alike(tree, files, blocks, volume, e, k);
    all_joliet_are_written(tree, blocks, k);
    assert(tree.spots[k] == joliet_spot(iso, state, iso.supplementary_volumes[0], k));
    if let Some(source) = volume.entries[e].source {
        assert(k > 0);
        let record = joliet_model_at(tree, k);
        joliet_name_is_read(tree, k);
        assert(joliet_node(tree.volume, k) == Ok::<NodeModel, Failure>(tree.nodes[k]));
        sources_were_found(files, record, 0, Seq::empty());
        let sources = sources_from(files, record, 0, Seq::empty());
        assert(joliet_source(files, record) is Ok);
        assert(sources[0] == source);
        assert(names_file(files, record, sources[0]));
        told_source_has_spot(
            iso,
            lengths,
            layout,
            blocks,
            packing,
            time,
            seq![volume],
            record,
            source,
        );
    } else {
        found_alike(state.joliet.placements, labels, volume.entries[e].path, 0);
        found_directory_is_there(state.joliet.placements, volume.entries[e].path, 0);
    }
}

/// The path tables of the Joliet volume are written again as they were.
proof fn joliet_tables_are_rewritten(
    iso: IsoModel,
    lengths: Seq<FileLengthModel>,
    layout: LayoutModel,
    blocks: Seq<Block>,
    labels: Seq<int>,
)
    requires
        is_plain_image(iso, lengths, layout, blocks),
        is_joliet_image(iso, lengths, layout, blocks),
    ensures
        ({
            let placed = places_of(iso, lengths);
            let directories = placed.state.joliet.placements;
            let table = placed.joliet->Some_0.table;
            let volume = iso.supplementary_volumes[0];
            let told = told_volume_of(iso, lengths);
            let order = directories_of(
                placed.joliet->Some_0.nodes,
                ErrorKind::UnreachableJolietDirectory,
            )->Ok_0;
            &&& tables_match(
                directories,
                relabelled(directories, labels),
                table,
                (volume.path_table_little_hex, volume.path_table_big_hex),
                (told.path_table_little_hex, told.path_table_big_hex),
            )
            &&& told.path_table_size == Some(table.size) || (told.path_table_size is None
                && table.size == table_size_from(order, 0))
        }),
{
    joliet_image_has(iso, lengths, layout, blocks);
    let placed = places_of(iso, lengths);
    let directories = placed.state.joliet.placements;
    let plan = placed.joliet->Some_0;
    let volume = iso.supplementary_volumes[0];
    let system_use = volume.xa_system_use;
    assert(has_readable_joliet_tables(iso, placed) && joliet_tables_show(iso, placed) && is_layout(
        iso,
        lengths,
        layout,
    )) by {
        reveal(is_joliet_image);
    }
    table_has_size(directories, 0, Seq::empty(), false);
    table_has_size(directories, 0, Seq::empty(), true);
    layout_holds_parts(iso, lengths, layout);
    let bytes = table_bytes(
        directories,
        plan.table.size,
        volume.path_table_little_hex,
        volume.path_table_big_hex,
    );
    assert(bytes is Ok) by {
        reveal(holds_parts);
    }
    let again = relabelled(directories, labels);
    assert(are_listed_alike(again, directories));
    alike_are_written_alike(again, directories, 0, Seq::empty(), false);
    alike_are_written_alike(again, directories, 0, Seq::empty(), true);
    read_fills_alike(bytes->Ok_0.0, plan.table.size, plan.table.blocks);
    read_fills_alike(bytes->Ok_0.1, plan.table.size, plan.table.blocks);
    hex_round_trip(table_read(bytes->Ok_0.0, plan.table.size));
    hex_round_trip(table_read(bytes->Ok_0.1, plan.table.size));
    let order = directories_of(plan.nodes, ErrorKind::UnreachableJolietDirectory)->Ok_0;
    assert forall|i: int| 0 <= i < directories.len() implies (#[trigger] directories[i]).name
        == order[i].name by {
        let sized = sized_joliet_directory(iso, plan.nodes, system_use, order[i]);
        assert(same_directory(directories[i], sized->Ok_0));
    }
    names_give_size(directories, order, 0);
}

/// What is told of the directories of the Joliet tree gives them the sizes that they
/// have.
proof fn joliet_sizes_are_told(
    iso: IsoModel,
    lengths: Seq<FileLengthModel>,
    layout: LayoutModel,
    blocks: Seq<Block>,
    packing: DirectoryRecordPacking,
    time: DirectoryParentRecordingTime,
)
    requires
        is_plain_image(iso, lengths, layout, blocks),
        is_joliet_image(iso, lengths, layout, blocks),
        joliet_writes_alike(iso, places_of(iso, lengths), packing, time),
    ensures
        ({
            let placed = places_of(iso, lengths);
            let nodes = placed.joliet->Some_0.nodes;
            let order = directories_of(nodes, ErrorKind::UnreachableJolietDirectory)->Ok_0;
            forall|i: int|
                0 <= i < order.len() ==> joliet_size_is_told(
                    iso,
                    packing,
                    told_policy(iso, placed),
                    nodes,
                    iso.supplementary_volumes[0].xa_system_use,
                    #[trigger] order[i],
                )
        }),
{
    joliet_image_has(iso, lengths, layout, blocks);
    plain_image_has(iso, lengths, layout, blocks);
    let placed = places_of(iso, lengths);
    let nodes = placed.joliet->Some_0.nodes;
    let directories = placed.state.joliet.placements;
    let order = directories_of(nodes, ErrorKind::UnreachableJolietDirectory)->Ok_0;
    let system_use = iso.supplementary_volumes[0].xa_system_use;
    let policy = told_policy(iso, placed);
    assert(lengths_are_told(iso, placed)) by {
        reveal(is_plain_image);
    }
    length_policy_holds(iso, lengths, placed);
    assert forall|i: int| 0 <= i < order.len() implies joliet_size_is_told(
        iso,
        packing,
        policy,
        nodes,
        system_use,
        #[trigger] order[i],
    ) by {
        let sized = sized_joliet_directory(iso, nodes, system_use, order[i]);
        assert(same_directory(directories[i], sized->Ok_0));
        alike_have_length(iso, placed, packing, time, i);
        if policy == DirectoryLengthPolicy::Allocated {
            records_are_some(nodes, order[i].path, system_use, iso.directory_record_packing);
            let records = records_length(
                nodes,
                order[i].path,
                system_use,
                iso.directory_record_packing,
            );
            assert(all_found(directories, directories.len() as int)[i].length % 2048 == 0);
            size_is_told_whole(records, iso.directory_length_policy);
        }
    }
}

/// What is told of the Joliet volume of an image is written as the image has it.
proof fn told_joliet_is_rewritten(
    iso: IsoModel,
    lengths: Seq<FileLengthModel>,
    layout: LayoutModel,
    blocks: Seq<Block>,
    packing: DirectoryRecordPacking,
    time: DirectoryParentRecordingTime,
) -> (labels: Seq<int>)
    requires
        is_plain_image(iso, lengths, layout, blocks),
        shows_files(iso, lengths),
        is_joliet_image(iso, lengths, layout, blocks),
        joliet_writes_alike(iso, places_of(iso, lengths), packing, time),
    ensures
        ({
            let placed = places_of(iso, lengths);
            let volume = told_volume_of(iso, lengths);
            let again = told_of(iso, lengths, blocks, packing, time, seq![volume]);
            &&& joliet_is_rewritten(iso, again, placed, size_of_volume(iso, lengths), labels)
            &&& joliet_is_replanned(again, placed, labels)
            &&& joliet_passes(iso, volume)
        }),
{
    let placed = places_of(iso, lengths);
    let state = placed.state;
    let tree = joliet_tree_of(iso, placed);
    let files = told_tally(iso, state).files;
    let volume = told_volume_of(iso, lengths);
    let again = told_of(iso, lengths, blocks, packing, time, seq![volume]);
    let origins = joliet_origins(tree);
    let plan = placed.joliet->Some_0;
    joliet_image_has(iso, lengths, layout, blocks);
    assert(joliet_descriptor_shows(iso, lengths)) by {
        reveal(is_joliet_image);
    }
    assert(again.directory_record_packing == packing && again.directory_parent_recording_time
        == time) by {
        reveal(told);
    }
    joliet_sizes_are_told(iso, lengths, layout, blocks, packing, time);
    joliet_nodes_are_retold(tree, files, blocks, volume);
    joliet_tables_are_rewritten(iso, lengths, layout, blocks, Seq::empty());
    let labels = joliet_is_planned_again(iso, again, plan, origins);
    joliet_tables_are_rewritten(iso, lengths, layout, blocks, labels);
    joliet_volume_passes(iso, lengths, layout, blocks);
    told_joliet_tree_is_rewritten(iso, lengths, layout, blocks, packing, time, labels);
    joliet_directories_follow_order(tree);
    let middle = with_entries(state, Seq::empty(), labels);
    assert(joliet_place(middle, plan.table, size_of_volume(iso, lengths)) == joliet_place(
        state,
        plan.table,
        size_of_volume(iso, lengths),
    ));
    labels
}

/// What is told of the settings of the Joliet volume of an image passes its checks.
proof fn joliet_settings_pass(
    iso: IsoModel,
    lengths: Seq<FileLengthModel>,
    layout: LayoutModel,
    blocks: Seq<Block>,
)
    requires
        is_plain_image(iso, lengths, layout, blocks),
        is_joliet_image(iso, lengths, layout, blocks),
        told_volume_of(iso, lengths).entries.len() > 0,
        told_volume_of(iso, lengths).entries[0] == told_joliet_root(
            iso.supplementary_volumes[0],
        ),
    ensures
        version_fits(told_volume_of(iso, lengths).descriptor.file_structure_version),
        joliet_settings_check(told_volume_of(iso, lengths)) is Ok,
{
    let placed = places_of(iso, lengths);
    let size = size_of_volume(iso, lengths);
    let volume = iso.supplementary_volumes[0];
    let place = joliet_place(placed.state, placed.joliet->Some_0.table, size);
    let block = joliet_descriptor_of(iso, placed, size);
    joliet_image_has(iso, lengths, layout, blocks);
    assert(is_layout(iso, lengths, layout) && is_joliet_descriptor_readable(volume, block)) by {
        reveal(is_joliet_image);
    }
    layout_holds_parts(iso, lengths, layout);
    assert(svd_block(volume, place) is Ok) by {
        reveal(holds_parts);
    }
    descriptor_length(svd_fields(volume, place));
    told_settings_pass(iso, lengths, block);
}

/// What is told of the Joliet volume of an image passes its checks.
proof fn joliet_volume_passes(
    iso: IsoModel,
    lengths: Seq<FileLengthModel>,
    layout: LayoutModel,
    blocks: Seq<Block>,
)
    requires
        is_plain_image(iso, lengths, layout, blocks),
        shows_files(iso, lengths),
        is_joliet_image(iso, lengths, layout, blocks),
    ensures
        joliet_passes(iso, told_volume_of(iso, lengths)),
{
    let tree = joliet_tree_of(iso, places_of(iso, lengths));
    let files = told_tally(iso, places_of(iso, lengths).state).files;
    let volume = told_volume_of(iso, lengths);
    joliet_image_has(iso, lengths, layout, blocks);
    joliet_tree_is_told(tree, files, told_joliet_root(tree.volume));
    joliet_settings_pass(iso, lengths, layout, blocks);
    let checks = joliet_entry_checks(iso, volume);
    first_failure_ok(checks, 0, volume.entries.len() as int);
    assert forall|e: int| 0 <= e < volume.entries.len() implies (#[trigger] checks(e)) is Ok by {
        joliet_spots_are_retold(
            iso,
            lengths,
            layout,
            blocks,
            iso.directory_record_packing,
            iso.directory_parent_recording_time,
            Seq::empty(),
            e,
        );
        joliet_entries_pass(iso, tree, files, blocks, volume, e);
    }
}

/// The directories of the Joliet tree are written again as they were.
proof fn told_joliet_tree_is_rewritten(
    iso: IsoModel,
    lengths: Seq<FileLengthModel>,
    layout: LayoutModel,
    blocks: Seq<Block>,
    packing: DirectoryRecordPacking,
    time: DirectoryParentRecordingTime,
    labels: Seq<int>,
)
    requires
        is_plain_image(iso, lengths, layout, blocks),
        shows_files(iso, lengths),
        is_joliet_image(iso, lengths, layout, blocks),
        joliet_writes_alike(iso, places_of(iso, lengths), packing, time),
        labels.len() == places_of(iso, lengths).joliet->Some_0.directories.len(),
        ({
            let origins = joliet_origins(joliet_tree_of(iso, places_of(iso, lengths)));
            forall|i: int|
                0 <= i < labels.len() ==> 0 <= #[trigger] labels[i] < origins.len()
                    && origins[labels[i]] == places_of(
                    iso,
                    lengths,
                ).joliet->Some_0.directories[i].entry
        }),
    ensures
        ({
            let placed = places_of(iso, lengths);
            let state = placed.state;
            let tree = joliet_tree_of(iso, placed);
            let volume = told_volume_of(iso, lengths);
            let again = told_of(iso, lengths, blocks, packing, time, seq![volume]);
            let middle = with_entries(state, Seq::empty(), labels);
            let options = TreeOptions { packing, parent_time: time, ..tree.options };
            &&& joliet_options(again, volume) == options
            &&& forall|image: Seq<u8>|
                (#[trigger] with_joliet_directories_from(
                    tree.nodes,
                    tree.spots,
                    tree.directories,
                    tree.options,
                    image,
                    0,
                )) is Ok ==> with_joliet_directories_from(
                    joliet_nodes(volume)->Ok_0,
                    joliet_spots(again, middle, volume),
                    middle.joliet.placements,
                    options,
                    image,
                    0,
                ) == with_joliet_directories_from(
                    tree.nodes,
                    tree.spots,
                    tree.directories,
                    tree.options,
                    image,
                    0,
                )
        }),
{
    let placed = places_of(iso, lengths);
    let state = placed.state;
    let tree = joliet_tree_of(iso, placed);
    let files = told_tally(iso, state).files;
    let volume = told_volume_of(iso, lengths);
    let again = told_of(iso, lengths, blocks, packing, time, seq![volume]);
    let origins = joliet_origins(tree);
    let middle = with_entries(state, Seq::empty(), labels);
    let options = TreeOptions { packing, parent_time: time, ..tree.options };
    joliet_image_has(iso, lengths, layout, blocks);
    assert(joliet_descriptor_shows(iso, lengths)) by {
        reveal(is_joliet_image);
    }
    assert(again.directory_record_packing == packing && again.directory_parent_recording_time
        == time) by {
        reveal(told);
    }
    joliet_nodes_are_retold(tree, files, blocks, volume);
    joliet_tree_is_told(tree, files, told_joliet_root(tree.volume));
    joliet_entries_are_planned(iso, placed);
    joliet_directories_follow_order(tree);
    let told_nodes = joliet_nodes(volume)->Ok_0;
    let spots = joliet_spots(again, middle, volume);
    assert forall|e: int| 0 <= e < origins.len() implies writes_alike(
        tree.nodes[#[trigger] origins[e]],
        told_nodes[e],
    ) && spots[e] == tree.spots[origins[e]] by {
        joliet_spots_are_retold(iso, lengths, layout, blocks, packing, time, labels, e);
    }
    assert(are_labels(
        tree.nodes,
        tree.directories,
        labels,
        origins,
        tree.options.xa_system_use,
    )) by {
        let plan = placed.joliet->Some_0;
        assert(entries_of(tree.directories).len() == entries_of(plan.directories).len());
        assert forall|i: int| 0 <= i < tree.directories.len() implies {
            let entry = (#[trigger] tree.directories[i]).entry;
            &&& 0 <= labels[i] < origins.len()
            &&& origins[labels[i]] == entry
            &&& 0 <= entry < tree.nodes.len()
            &&& tree.nodes[entry].directory
            &&& tree.nodes[entry].system_use == tree.options.xa_system_use
            &&& 0 <= tree.directories[i].parent < tree.directories.len()
        } by {
            assert(entries_of(tree.directories)[i] == entries_of(plan.directories)[i]);
            if i > 0 {
                assert(is_held(tree.nodes, tree.directories, i, tree.directories.len() as int));
            }
            let entry = tree.directories[i].entry;
            assert(joliet_node(tree.volume, entry) == Ok::<NodeModel, Failure>(
                tree.nodes[entry],
            ));
        }
    }
    assert forall|image: Seq<u8>|
        (#[trigger] with_joliet_directories_from(
            tree.nodes,
            tree.spots,
            tree.directories,
            tree.options,
            image,
            0,
        )) is Ok implies with_joliet_directories_from(
        told_nodes,
        spots,
        middle.joliet.placements,
        options,
        image,
        0,
    ) == with_joliet_directories_from(
        tree.nodes,
        tree.spots,
        tree.directories,
        tree.options,
        image,
        0,
    ) by {
        joliet_is_written_alike(iso, placed, packing, time, image);
        tree_is_rewritten(
            tree.nodes,
            tree.spots,
            told_nodes,
            spots,
            origins,
            tree.directories,
            labels,
            options,
            image,
            0,
        );
    }
}

/// Directories that have the same bytes with other options are written alike.
proof fn options_write_alike(tree: JolietTree, options: TreeOptions, image: Seq<u8>, index: int)
    requires
        0 <= index,
        forall|j: int|
            0 <= j < tree.directories.len() ==> {
                let directory = #[trigger] tree.directories[j];
                let parent = tree.directories[directory.parent];
                directory_bytes(tree.nodes, tree.spots, directory, parent, None, options)
                    == directory_bytes(
                    tree.nodes,
                    tree.spots,
                    directory,
                    parent,
                    None,
                    tree.options,
                )
            },
    ensures
        with_joliet_directories_from(
            tree.nodes,
            tree.spots,
            tree.directories,
            options,
            image,
            index,
        ) == with_joliet_directories_from(
            tree.nodes,
            tree.spots,
            tree.directories,
            tree.options,
            image,
            index,
        ),
    decreases tree.directories.len() - index,
{
    if index < tree.directories.len() {
        let directory = tree.directories[index];
        let parent = tree.directories[directory.parent];
        let bytes = directory_bytes(
            tree.nodes,
            tree.spots,
            directory,
            parent,
            None,
            tree.options,
        );
        if bytes is Ok {
            let next = with_extent(image, directory.extent as int, bytes->Ok_0);
            options_write_alike(tree, options, next, index + 1);
        }
    }
}

/// How the directories of an image are packed, and whose time their second records carry,
/// is read of its primary tree so that it holds of its Joliet tree.
pub open spec fn packing_shows(iso: IsoModel, lengths: Seq<FileLengthModel>, blocks: Seq<Block>) -> bool {
    let primary = plain_parsed(blocks)->Ok_0.manifest;
    joliet_writes_alike(
        iso,
        places_of(iso, lengths),
        primary.directory_record_packing,
        primary.directory_parent_recording_time,
    )
}

/// How the directories of the primary tree are packed, and whose time their second records
/// carry, is read as described, or as it shows in none of them.
spec fn packing_is_read(iso: IsoModel, lengths: Seq<FileLengthModel>, blocks: Seq<Block>) -> bool {
    let primary = plain_parsed(blocks)->Ok_0.manifest;
    let state = places_of(iso, lengths).state;
    &&& primary.directory_record_packing == iso.directory_record_packing || (
    primary.directory_record_packing == DirectoryRecordPacking::Fill && have_plain_packing(
        iso,
        state,
        0,
    ))
    &&& primary.directory_parent_recording_time == iso.directory_parent_recording_time || (
    primary.directory_parent_recording_time == DirectoryParentRecordingTime::Parent
        && have_times_of_parents(iso, state, 0))
}

/// What is read of the primary tree holds of the Joliet tree where it is what was
/// described.
pub proof fn described_packing_shows(
    iso: IsoModel,
    lengths: Seq<FileLengthModel>,
    blocks: Seq<Block>,
)
    requires
        ({
            let primary = plain_parsed(blocks)->Ok_0.manifest;
            &&& primary.directory_record_packing == iso.directory_record_packing
            &&& primary.directory_parent_recording_time == iso.directory_parent_recording_time
        }),
    ensures
        packing_shows(iso, lengths, blocks),
{
    reveal(joliet_writes_alike);
}

/// Where directories record the lengths of their records, those of the Joliet tree have
/// the lengths that are reckoned of what is told.
proof fn joliet_records_are_told(
    iso: IsoModel,
    lengths: Seq<FileLengthModel>,
    layout: LayoutModel,
    blocks: Seq<Block>,
    packing: DirectoryRecordPacking,
    time: DirectoryParentRecordingTime,
)
    requires
        is_plain_image(iso, lengths, layout, blocks),
        is_joliet_image(iso, lengths, layout, blocks),
        joliet_writes_alike(iso, places_of(iso, lengths), packing, time),
        iso.directory_length_policy == DirectoryLengthPolicy::Records,
    ensures
        ({
            let joliet = places_of(iso, lengths).state.joliet.placements;
            all_joliet_recorded(
                all_found(joliet, joliet.len() as int),
                told_volume_of(iso, lengths),
                packing,
            )
        }),
{
    joliet_image_has(iso, lengths, layout, blocks);
    let placed = places_of(iso, lengths);
    let tree = joliet_tree_of(iso, placed);
    let files = told_tally(iso, placed.state).files;
    let volume = told_volume_of(iso, lengths);
    let joliet = placed.state.joliet.placements;
    let joliet_found = all_found(joliet, joliet.len() as int);
    let system_use = volume.xa_system_use;
    joliet_nodes_are_retold(tree, files, blocks, volume);
    let nodes = joliet_nodes(volume)->Ok_0;
    let order = directories_of(tree.nodes, ErrorKind::UnreachableJolietDirectory)->Ok_0;
    assert forall|i: int| 0 <= i < joliet_found.len() implies joliet_records(
        volume,
        (#[trigger] joliet_found[i]).path,
        packing,
    ) == Ok::<int, Failure>(joliet_found[i].length as int) by {
        let path = joliet[i].path;
        joliet_records_are_of_nodes(volume, path, packing);
        let dot = size_of_record(1, system_use_size(system_use));
        lengths_are_retold(tree.nodes, nodes, joliet_origins(tree), path, seq![dot, dot]);
        assert(record_lengths(nodes, path, system_use) == record_lengths(
            tree.nodes,
            path,
            system_use,
        ));
        let sized = sized_joliet_directory(iso, tree.nodes, system_use, order[i]);
        assert(same_directory(joliet[i], sized->Ok_0));
        alike_have_length(iso, placed, packing, time, i);
        records_are_some(tree.nodes, path, system_use, iso.directory_record_packing);
    }
}

/// Where directories record the lengths of their records, those of the primary tree have
/// the lengths that are reckoned of what is told.
proof fn primary_records_are_told(
    iso: IsoModel,
    lengths: Seq<FileLengthModel>,
    layout: LayoutModel,
    blocks: Seq<Block>,
    manifest: IsoModel,
)
    requires
        is_plain_image(iso, lengths, layout, blocks),
        shows_files(iso, lengths),
        iso.supplementary_volumes.len() == 1,
        iso.directory_length_policy == DirectoryLengthPolicy::Records,
        refers_to_nothing(iso),
        ({
            let packing = manifest.directory_record_packing;
            let time = manifest.directory_parent_recording_time;
            let volumes = seq![told_volume_of(iso, lengths)];
            told_of(iso, lengths, blocks, packing, time, volumes) == (IsoModel {
                directory_length_policy: told_policy(iso, places_of(iso, lengths)),
                ..manifest
            })
        }),
        manifest.xa_system_use == iso.xa_system_use,
        manifest.directory_record_packing == iso.directory_record_packing || (
        manifest.directory_record_packing == DirectoryRecordPacking::Fill && have_plain_packing(
            iso,
            places_of(iso, lengths).state,
            0,
        )),
    ensures
        ({
            let primary = places_of(iso, lengths).state.primary.placements;
            all_recorded(
                all_found(primary, primary.len() as int),
                authored_nodes(manifest),
                manifest.xa_system_use,
                manifest.directory_record_packing,
            )
        }),
{
    let placed = places_of(iso, lengths);
    let primary = placed.state.primary.placements;
    let found = all_found(primary, primary.len() as int);
    let origins = told_origins(iso, placed.state);
    let packing = manifest.directory_record_packing;
    let time = manifest.directory_parent_recording_time;
    let volumes = seq![told_volume_of(iso, lengths)];
    let again = told_of(iso, lengths, blocks, packing, time, volumes);
    image_is_retold(iso, lengths, layout, blocks, packing, time, volumes);
    assert(primary_nodes(again).len() == again.entries.len());
    assert(authored_nodes(manifest) =~= primary_nodes(again)) by {
        assert forall|e: int| 0 <= e < again.entries.len() implies #[trigger] authored_nodes(
            manifest,
        )[e] == primary_nodes(again)[e] by {
            nothing_is_referred_to(iso, again, origins, again.entries[e].path);
        }
    }
    assert forall|i: int| 0 <= i < found.len() implies (#[trigger] found[i]).length
        == records_length(
        authored_nodes(manifest),
        found[i].path,
        manifest.xa_system_use,
        packing,
    ) by {
        recorded_length_is_told(iso, lengths, layout, blocks, again, origins, packing, i);
    }
}

/// Which lengths the directories of both trees record is told of an image.
proof fn lengths_are_told_of(
    iso: IsoModel,
    lengths: Seq<FileLengthModel>,
    layout: LayoutModel,
    blocks: Seq<Block>,
    manifest: IsoModel,
)
    requires
        is_plain_image(iso, lengths, layout, blocks),
        shows_files(iso, lengths),
        is_joliet_image(iso, lengths, layout, blocks),
        ({
            let packing = manifest.directory_record_packing;
            let time = manifest.directory_parent_recording_time;
            let volumes = seq![told_volume_of(iso, lengths)];
            told_of(iso, lengths, blocks, packing, time, volumes) == (IsoModel {
                directory_length_policy: told_policy(iso, places_of(iso, lengths)),
                ..manifest
            })
        }),
        manifest.xa_system_use == iso.xa_system_use,
        manifest.directory_record_packing == iso.directory_record_packing || (
        manifest.directory_record_packing == DirectoryRecordPacking::Fill && have_plain_packing(
            iso,
            places_of(iso, lengths).state,
            0,
        )),
        joliet_writes_alike(
            iso,
            places_of(iso, lengths),
            manifest.directory_record_packing,
            manifest.directory_parent_recording_time,
        ),
    ensures
        ({
            let primary = places_of(iso, lengths).state.primary.placements;
            let joliet = places_of(iso, lengths).state.joliet.placements;
            length_policy(
                manifest,
                all_found(primary, primary.len() as int),
                all_found(joliet, joliet.len() as int),
            ) == Ok::<DirectoryLengthPolicy, Failure>(
                told_policy(iso, places_of(iso, lengths)),
            )
        }),
{
    joliet_image_has(iso, lengths, layout, blocks);
    plain_image_has(iso, lengths, layout, blocks);
    let placed = places_of(iso, lengths);
    let tree = joliet_tree_of(iso, placed);
    let files = told_tally(iso, placed.state).files;
    let volume = told_volume_of(iso, lengths);
    let primary = placed.state.primary.placements;
    let joliet = placed.state.joliet.placements;
    let found = all_found(primary, primary.len() as int);
    let joliet_found = all_found(joliet, joliet.len() as int);
    assert(manifest.supplementary_volumes =~= seq![volume]);
    joliet_nodes_are_retold(tree, files, blocks, volume);
    joliet_names_are_written(volume, joliet_found);
    assert(lengths_are_told(iso, placed)) by {
        reveal(is_plain_image);
    }
    length_policy_holds(iso, lengths, placed);
    if told_policy(iso, placed) == DirectoryLengthPolicy::Records {
        primary_records_are_told(iso, lengths, layout, blocks, manifest);
        joliet_records_are_told(
            iso,
            lengths,
            layout,
            blocks,
            manifest.directory_record_packing,
            manifest.directory_parent_recording_time,
        );
    }
}

/// Where no entry refers to anything, the file area alone makes files of what is told.
proof fn nothing_is_referred_to(iso: IsoModel, told: IsoModel, origins: Seq<int>, path: Seq<char>)
    requires
        retells(iso, told, origins),
        refers_to_nothing(iso),
        told.entries.len() == origins.len(),
    ensures
        is_file(told, path) == is_authored(told.files, path),
{
    if is_referenced(told.entries, path) {
        let e = choose|e: int|
            0 <= e < told.entries.len() && (#[trigger] told.entries[e]).path == path
                && told.entries[e].extent is Some;
        assert(retells_entry(iso, told, origins[e], e));
        assert(0 <= origins[e] < primary_nodes(iso).len());
        assert(iso.entries[origins[e]].extent is None);
    }
}

/// Where directories record the lengths of their records, what is told of the primary
/// tree has records of those lengths.
proof fn recorded_length_is_told(
    iso: IsoModel,
    lengths: Seq<FileLengthModel>,
    layout: LayoutModel,
    blocks: Seq<Block>,
    told: IsoModel,
    origins: Seq<int>,
    packing: DirectoryRecordPacking,
    index: int,
)
    requires
        is_plain_image(iso, lengths, layout, blocks),
        retells(iso, told, origins),
        refers_to_nothing(iso),
        packing == iso.directory_record_packing || (packing == DirectoryRecordPacking::Fill
            && have_plain_packing(iso, places_of(iso, lengths).state, 0)),
        iso.directory_length_policy == DirectoryLengthPolicy::Records,
        0 <= index < places_of(iso, lengths).state.primary.placements.len(),
    ensures
        ({
            let directory = places_of(iso, lengths).state.primary.placements[index];
            directory.length == records_length(
                primary_nodes(told),
                directory.path,
                iso.xa_system_use,
                packing,
            )
        }),
{
    plain_image_has(iso, lengths, layout, blocks);
    let placed = places_of(iso, lengths);
    let directory = placed.state.primary.placements[index];
    let nodes = primary_nodes(iso);
    let path = directory.path;
    let dot = size_of_record(1, system_use_size(iso.xa_system_use));
    lengths_are_retold(nodes, primary_nodes(told), origins, path, seq![dot, dot]);
    assert(record_lengths(primary_nodes(told), path, iso.xa_system_use) == record_lengths(
        nodes,
        path,
        iso.xa_system_use,
    ));
    directories_follow_order(iso, placed.state.primary.placements);
    let ordered = primary_order(iso)[index];
    assert(same_directory(directory, sized_directory(iso, nodes, ordered)->Ok_0));
    records_are_some(nodes, path, iso.xa_system_use, iso.directory_record_packing);
    assert(0 <= directory.entry < nodes.len()) by {
        if index > 0 {
            assert(is_held(
                nodes,
                placed.state.primary.placements,
                index,
                placed.state.primary.placements.len() as int,
            ));
        }
    }
    assert(iso.entries[directory.entry].directory_reference is None);
    assert(is_layout(iso, lengths, layout)) by {
        reveal(is_plain_image);
    }
    recorded_has_no_slack(iso, lengths, layout, index);
    if packing != iso.directory_record_packing {
        assert(!is_reference(iso, placed.state.primary.placements[index]));
        assert(has_plain_packing(iso, placed.state, index));
        plain_packing_has_size(iso, placed.state, blocks, index);
    }
}

/// What is read of an image with a Joliet volume.
proof fn joliet_image_is_told(
    iso: IsoModel,
    lengths: Seq<FileLengthModel>,
    layout: LayoutModel,
    blocks: Seq<Block>,
)
    requires
        is_plain_image(iso, lengths, layout, blocks),
        shows_files(iso, lengths),
        is_joliet_image(iso, lengths, layout, blocks),
        told_metadata(iso, places_of(iso, lengths), blocks) is Ok,
        told_metadata(iso, places_of(iso, lengths), blocks)->Ok_0.layout == iso.metadata_layout,
        packing_shows(iso, lengths, blocks),
    ensures
        parsed_iso(blocks) is Ok,
        ({
            let primary = plain_parsed(blocks)->Ok_0.manifest;
            parsed_iso(blocks)->Ok_0.manifest == told_of(
                iso,
                lengths,
                blocks,
                primary.directory_record_packing,
                primary.directory_parent_recording_time,
                seq![told_volume_of(iso, lengths)],
            )
        }),
{
    let placed = places_of(iso, lengths);
    reveal(is_plain_image);
    reveal(is_joliet_image);
    primary_is_parsed(iso, lengths, layout, blocks);
    joliet_image_is_parsed(iso, lengths, layout, blocks);
    let primary = plain_parsed(blocks)->Ok_0.manifest;
    let manifest = told_with_joliet(iso, placed, size_of_volume(iso, lengths), blocks, primary);
    let again = told_of(
        iso,
        lengths,
        blocks,
        primary.directory_record_packing,
        primary.directory_parent_recording_time,
        seq![told_volume_of(iso, lengths)],
    );
    let policy = told_policy(iso, placed);
    assert(again == (IsoModel { directory_length_policy: policy, ..manifest })
        && manifest.xa_system_use == iso.xa_system_use) by {
        reveal(told);
    }
    lengths_are_told_of(iso, lengths, layout, blocks, manifest);
}

/// What was laid out is rebuilt from what is read of it: an image with a Joliet volume is
/// read, whatever the data of its files, and the description that is read of it is laid
/// out as the same blocks, with the files where they were, whatever the order in which the
/// entries of both of its trees were described, and however their times and sectors were.
/// The file area holds nothing but files, and the order in which they are read is the one
/// described. Directories are as long as their blocks, or, where no entry refers to blocks
/// that are not its own, as long as their records.
///
/// Left out is what is left out of images without a Joliet volume, and images of which
/// not everything is read besides: metadata whose order, with its gaps, is not the one that
/// is read, ways to pack directories and times of parents that show in the Joliet tree
/// alone, and Joliet volumes that cannot be read, whose descriptor is not written as it is
/// read, or of whose path tables less than there is is recorded.
pub proof fn joliet_layout_is_rebuilt(
    iso: IsoModel,
    lengths: Seq<FileLengthModel>,
    layout: LayoutModel,
    blocks: Seq<Block>,
)
    requires
        is_layout(iso, lengths, layout),
        is_filled(layout, blocks),
        iso.supplementary_volumes.len() == 1,
        lengths_are_told(iso, places_of(iso, lengths)),
        forall|i: int| 0 <= i < iso.files.len() ==> (#[trigger] iso.files[i]) is Path,
        file_order(told_tally(iso, places_of(iso, lengths).state).files) == iso.files,
        extents_show(iso, places_of(iso, lengths).state),
        lengths_show(iso, places_of(iso, lengths).state),
        forms_show(iso, places_of(iso, lengths).state),
        texts_end_plainly(iso.primary_volume),
        application_use_shows(iso),
        slack_shows(iso),
        has_quiet_slack(iso, places_of(iso, lengths).state),
        has_readable_tables(iso, places_of(iso, lengths)),
        tables_show(iso, places_of(iso, lengths)),
        audio_ends(iso, places_of(iso, lengths).state),
        blocks.len() > 22,
        versions_are_told(iso.supplementary_volumes[0]),
        sources_are_told(
            joliet_tree_of(iso, places_of(iso, lengths)),
            told_tally(iso, places_of(iso, lengths).state).files,
        ),
        has_readable_joliet_tables(iso, places_of(iso, lengths)),
        joliet_tables_show(iso, places_of(iso, lengths)),
        is_joliet_descriptor_readable(
            iso.supplementary_volumes[0],
            joliet_descriptor_of(iso, places_of(iso, lengths), size_of_volume(iso, lengths)),
        ),
        joliet_descriptor_shows(iso, lengths),
        told_metadata(iso, places_of(iso, lengths), blocks) is Ok,
        told_metadata(iso, places_of(iso, lengths), blocks)->Ok_0.layout == iso.metadata_layout,
        packing_shows(iso, lengths, blocks),
    ensures
        parsed_iso(blocks) is Ok,
        layout_of(parsed_iso(blocks)->Ok_0.manifest, lengths) matches Ok(again) && again.blocks
            == layout.blocks && again.files == layout.files && is_filled(again, blocks),
{
    assert(is_plain_image(iso, lengths, layout, blocks)) by {
        reveal(is_plain_image);
    }
    assert(shows_files(iso, lengths)) by {
        reveal(shows_files);
    }
    assert(is_joliet_image(iso, lengths, layout, blocks)) by {
        reveal(is_joliet_image);
    }
    joliet_image_is_told(iso, lengths, layout, blocks);
    assert(packing_is_read(iso, lengths, blocks)) by {
        primary_is_parsed(iso, lengths, layout, blocks);
    }
    let packing = plain_parsed(blocks)->Ok_0.manifest.directory_record_packing;
    let time = plain_parsed(blocks)->Ok_0.manifest.directory_parent_recording_time;
    let labels = told_joliet_is_rewritten(iso, lengths, layout, blocks, packing, time);
    told_is_laid_out(
        iso,
        lengths,
        layout,
        blocks,
        packing,
        time,
        seq![told_volume_of(iso, lengths)],
        labels,
    );
    reveal(is_filled);
}

} // verus!
