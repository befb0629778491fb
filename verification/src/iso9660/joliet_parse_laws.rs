//! The Joliet volume of an image that was laid out is read as what it was laid out
//! from.
use vstd::prelude::*;

use crate::bytes::field;
use crate::error::{ErrorKind, Failure};
use crate::hexcode::hex_text;
use crate::iso9660::description::{
    IsoModel, JolietEntryModel, JolietModel, PathTableCopies, VolumeModel,
};
use crate::iso9660::descriptor::parsed_volume;
use crate::iso9660::descriptor_laws::svd_tells;
use crate::iso9660::descriptor_write::{
    odd_bytes, record_flags, root_name, root_record, root_time, svd_block, svd_root, PlaceModel,
};
use crate::iso9660::directory_laws::{node_model, parent_model, recording_time_length};
use crate::iso9660::fields::{both16_round_trip, both32_round_trip};
use crate::iso9660::image_laws::{descriptors_lie, holds_parts, tables_lie};
use crate::iso9660::joliet::joliet_identifier;
use crate::iso9660::joliet_laws::{
    is_joliet_readable, is_joliet_tree, is_joliet_walkable, joliet_child_entries_from,
    joliet_directories_follow_order, joliet_dot_is_accepted, joliet_order, joliet_read_entry,
    joliet_tree_entries_from, sources_are_told, JolietTree,
};
use crate::iso9660::joliet_layout_laws::{
    joliet_layout_is_walkable, joliet_nodes_are_those, joliet_tree_is_found, joliet_tree_of,
    versions_are_told,
};
use crate::iso9660::joliet_parse::{
    joliet_head, joliet_root, joliet_tables, parsed_joliet, table_pointers, table_record,
    JolietHead, JolietRoot, ParsedJolietModel, TableRecord,
};
use crate::iso9660::joliet_walk::{
    found_placement, joliet_placements_from, joliet_table_name, or_spaces, string_padding,
    JolietWalkModel,
};
use crate::iso9660::layout::{
    blocks_for, blocks_of, joliet_place, layout_of, placed_filesystem, sized_directory,
    sized_joliet_directory, table_bytes, table_size_from, table_size_grows, LayoutModel, Placed,
};
use crate::iso9660::layout_laws::{
    filled_holds_parts, filled_image, is_filled, is_layout, layout_holds_parts, places_of,
    size_of_volume,
};
use crate::iso9660::metadata::{
    all_allocated, joliet_name_checks, joliet_records, length_policy, metadata_order, MetadataOrder,
    TablesModel,
};
use crate::iso9660::order_laws::is_held;
use crate::iso9660::parse::{parsed_iso, plain_parsed, ParsedModel, PlainModel};
use crate::iso9660::parse_laws::{
    audio_ends, has_readable_tables, joliet_descriptor_of, primary_is_parsed, table_is_read,
    table_read, tables_stand_apart, told, told_tally, volumes_are_found,
};
use crate::iso9660::path_table::{path_table, PlacementModel};
use crate::iso9660::placing::FileLengthModel;
use crate::iso9660::placing_laws::{
    descriptors_end, end_of, parts_are_apart, primary_order, same_directory, table_blocks,
    takes_blocks, Part,
};
use crate::iso9660::reading_laws::has_quiet_slack;
use crate::iso9660::record::{
    parsed_record, parsed_xa, record_fields_check, record_layout, size_of_record, system_use_bytes,
    RecordModel,
};
use crate::iso9660::record_laws::record_parts;
use crate::iso9660::table_laws::{
    alike_are_written_alike, are_listed_alike, joliet_tables_are_placed, only_one_is_last,
    table_has_size,
};
use crate::iso9660::time::{recording_time_bytes, recording_time_text};
use crate::iso9660::tree::{
    authored_nodes, child_lengths_from, directories_of, is_child, joliet_children_from, joliet_node,
    joliet_nodes, joliet_nodes_from, primary_nodes, records_length, system_use_size, NodeModel,
};
use crate::iso9660::tree_walk_laws::{all_found, found_of, is_reference, reference_is_empty};
use crate::iso9660::validate::{description_check, metadata_check, places_all_tables};
use crate::iso9660::walk::FoundModel;
use crate::iso9660::walk_laws::{
    checked_is_tree, flags_tell, models_stay_first, written_xa_is_accepted,
};
use crate::manifest::{
    DirectoryLengthPolicy, DirectoryParentRecordingTime, DirectoryRecordPacking, MetadataVolume,
};
use crate::model::{ceil_div, first_failure, first_failure_ok, views};
use crate::raw_cd::Block;
use crate::text::{name_of, parent_of, root_path};

verus! {

/// The path tables of the Joliet volume of an image that was laid out.
pub open spec fn joliet_tables_of_layout(iso: IsoModel, placed: Placed) -> (Seq<u8>, Seq<u8>) {
    table_bytes(
        placed.state.joliet.placements,
        placed.joliet->Some_0.table.size,
        iso.supplementary_volumes[0].path_table_little_hex,
        iso.supplementary_volumes[0].path_table_big_hex,
    )->Ok_0
}

/// The path tables of the Joliet volume can be read: those that belong to the
/// directories can be made.
pub open spec fn has_readable_joliet_tables(iso: IsoModel, placed: Placed) -> bool {
    let directories = placed.state.joliet.placements;
    &&& path_table(directories, false) is Ok
    &&& path_table(directories, true) is Ok
}

/// What is told of the path tables of the Joliet volume.
pub open spec fn told_joliet_tables(iso: IsoModel, placed: Placed) -> TableRecord {
    let directories = placed.state.joliet.placements;
    let bytes = joliet_tables_of_layout(iso, placed);
    table_record(
        placed.joliet->Some_0.table.size,
        table_size_from(directories, 0),
        table_read(bytes.0, placed.joliet->Some_0.table.size),
        table_read(bytes.1, placed.joliet->Some_0.table.size),
        path_table(directories, false)->Ok_0,
        path_table(directories, true)->Ok_0,
    )
}

/// Path tables are of one size where their directories have the same names.
pub proof fn names_give_size(left: Seq<PlacementModel>, right: Seq<PlacementModel>, index: int)
    requires
        left.len() == right.len(),
        forall|i: int| 0 <= i < left.len() ==> (#[trigger] left[i]).name == right[i].name,
    ensures
        table_size_from(left, index) == table_size_from(right, index),
    decreases left.len() - index,
{
    if 0 <= index < left.len() {
        assert(left[index].name == right[index].name);
        names_give_size(left, right, index + 1);
    }
}

/// The places of the Joliet directories that were found are those that they were
/// given.
proof fn joliet_places_are_found(tree: JolietTree, index: int, placed: Seq<PlacementModel>)
    requires
        is_joliet_tree(tree),
        0 <= index <= tree.directories.len(),
        are_listed_alike(placed, tree.directories.take(index)),
    ensures
        ({
            let found = all_found(tree.directories, tree.directories.len() as int);
            let places = joliet_placements_from(found, index, placed);
            places is Ok && are_listed_alike(places->Ok_0, tree.directories)
        }),
    decreases tree.directories.len() - index,
{
    let directories = tree.directories;
    let found = all_found(directories, directories.len() as int);
    if index < directories.len() {
        joliet_directories_follow_order(tree);
        let directory = directories[index];
        assert forall|i: int, j: int| 0 <= i < j < found.len() implies (#[trigger] found[i]).path
            != (#[trigger] found[j]).path by {
            assert(directories[i].path != directories[j].path);
        }
        if index > 0 {
            assert(is_held(tree.nodes, directories, index, directories.len() as int));
            assert(joliet_node(tree.volume, directory.entry) == Ok::<NodeModel, Failure>(
                tree.nodes[directory.entry],
            ));
            assert(found[directory.parent].path == parent_of(directory.path));
            only_one_is_last(found, found.len() as int, directory.parent);
        }
        let name = joliet_table_name(directory.path)->Ok_0;
        let place = found_placement(found, index, name, ErrorKind::JolietTableParent)->Ok_0;
        let more = placed.push(place);
        assert forall|i: int| 0 <= i < more.len() implies (#[trigger] more[i]).name
            == directories.take(index + 1)[i].name && more[i].path == directories.take(
            index + 1,
        )[i].path && more[i].parent == directories.take(index + 1)[i].parent && more[i].extent
            == directories.take(index + 1)[i].extent by {
            if i < index {
                assert(placed[i].name == directories.take(index)[i].name);
            }
        }
        joliet_places_are_found(tree, index + 1, more);
    } else {
        assert(directories.take(index) =~= directories);
    }
}

/// The path tables of the Joliet volume of an image that was laid out are read.
proof fn joliet_tables_are_read(
    iso: IsoModel,
    placed: Placed,
    image: Seq<u8>,
    blocks: Seq<Block>,
    head: JolietHead,
)
    requires
        placed.joliet is Some,
        is_joliet_tree(joliet_tree_of(iso, placed)),
        has_readable_joliet_tables(iso, placed),
        placed.joliet->Some_0.table.size > 0,
        placed.joliet->Some_0.table.blocks == ceil_div(
            placed.joliet->Some_0.table.size as int,
            2048,
        ),
        placed.joliet->Some_0.table.blocks == blocks_for(
            table_size_from(placed.state.joliet.placements, 0),
        ),
        table_size_from(placed.state.joliet.placements, 0) <= u32::MAX,
        table_bytes(
            placed.state.joliet.placements,
            placed.joliet->Some_0.table.size,
            iso.supplementary_volumes[0].path_table_little_hex,
            iso.supplementary_volumes[0].path_table_big_hex,
        ) is Ok,
        tables_lie(
            placed.state.joliet_tables,
            placed.joliet->Some_0.table,
            joliet_tables_of_layout(iso, placed),
            image,
        ),
        views(blocks) == blocks_of(image),
        image.len() % 2048 == 0,
        placed.state.joliet_tables.len() == 4,
        placed.state.joliet_tables[0] != 0,
        placed.state.joliet_tables[2] != 0,
        head.size == placed.joliet->Some_0.table.size,
        head.tables == (TablesModel {
            extents: placed.state.joliet_tables,
            blocks: placed.joliet->Some_0.table.blocks,
        }),
    ensures
        joliet_tables(
            blocks,
            head,
            all_found(
                placed.state.joliet.placements,
                placed.state.joliet.placements.len() as int,
            ),
        ) == Ok::<TableRecord, Failure>(told_joliet_tables(iso, placed)),
{
    reveal(joliet_tables);
    let tree = joliet_tree_of(iso, placed);
    let directories = tree.directories;
    let extents = placed.state.joliet_tables;
    let plan = placed.joliet->Some_0.table;
    let found = all_found(directories, directories.len() as int);
    let bytes = joliet_tables_of_layout(iso, placed);
    joliet_directories_follow_order(tree);
    assert(are_listed_alike(Seq::empty(), directories.take(0)));
    joliet_places_are_found(tree, 0, Seq::empty());
    let places = joliet_placements_from(found, 0, Seq::empty())->Ok_0;
    alike_are_written_alike(places, directories, 0, Seq::empty(), false);
    alike_are_written_alike(places, directories, 0, Seq::empty(), true);
    table_has_size(directories, 0, Seq::empty(), false);
    table_has_size(directories, 0, Seq::empty(), true);
    table_size_grows(directories, 1);
    assert(table_size_from(directories, 0) > 0);
    table_is_read(image, blocks, extents, plan, bytes, 0);
    table_is_read(image, blocks, extents, plan, bytes, 2);
}

/// What the Joliet descriptor of an image that was laid out says of it.
proof fn joliet_head_is_read(
    iso: IsoModel,
    lengths: Seq<FileLengthModel>,
    placed: Placed,
    size: u32,
    block: Seq<u8>,
)
    requires
        placed_filesystem(iso, lengths) == Ok::<Placed, Failure>(placed),
        iso.supplementary_volumes.len() == 1,
        places_all_tables(iso.metadata_layout),
        svd_block(
            iso.supplementary_volumes[0],
            joliet_place(placed.state, placed.joliet->Some_0.table, size),
        ) == Ok::<Seq<u8>, Failure>(block),
    ensures
        joliet_head(block, placed.state.next as int) == Ok::<JolietHead, Failure>(
            JolietHead {
                level: iso.supplementary_volumes[0].level,
                size: placed.joliet->Some_0.table.size,
                tables: TablesModel {
                    extents: placed.state.joliet_tables,
                    blocks: placed.joliet->Some_0.table.blocks,
                },
            },
        ),
{
    let volume = iso.supplementary_volumes[0];
    let plan = placed.joliet->Some_0;
    joliet_tables_are_placed(iso, lengths, placed);
    parts_are_apart(iso, lengths, placed);
    svd_tells(volume, joliet_place(placed.state, plan.table, size), block);
    let extents = placed.state.joliet_tables;
    let tables = table_blocks(placed);
    assert(plan.table.size > 0 && plan.table.blocks > 0);
    let little = Part::Table { volume: MetadataVolume::Joliet, index: 0 };
    let big = Part::Table { volume: MetadataVolume::Joliet, index: 2 };
    assert(takes_blocks(placed.state, tables, little));
    assert(takes_blocks(placed.state, tables, big));
    assert(end_of(placed.state, tables, little) <= placed.state.next);
    assert(end_of(placed.state, tables, big) <= placed.state.next);
    assert(table_pointers(block) == extents);
}

/// What is told of the root directory of the Joliet tree.
pub open spec fn told_joliet_root(volume: JolietModel) -> JolietEntryModel {
    let root = volume.entries[0];
    let system_use = system_use_bytes(root.path, root.xa, true, volume.xa_system_use)->Ok_0;
    JolietEntryModel {
        path: root_path(),
        source: None,
        omit_version: false,
        recording_time: recording_time_text(recording_time_bytes(root.recording_time)->Ok_0),
        hidden: root.hidden,
        associated: root.associated,
        xa: parsed_xa(system_use, true, volume.xa_system_use)->Ok_0,
    }
}

/// What is told of the descriptor of the Joliet volume.
pub open spec fn told_joliet_descriptor(volume: JolietModel, block: Seq<u8>) -> VolumeModel {
    let root = volume.entries[0];
    let time = recording_time_text(
        recording_time_bytes(root_time(volume.descriptor, root.recording_time))->Ok_0,
    );
    VolumeModel {
        root_directory_recording_time: if time == told_joliet_root(volume).recording_time {
            None
        } else {
            Some(time)
        },
        ..parsed_volume(block, true)->Ok_0
    }
}

/// The root record of a Joliet descriptor, as it is read.
proof fn joliet_root_record_is_read(volume: JolietModel, place: PlaceModel, block: Seq<u8>)
    requires
        svd_block(volume, place) == Ok::<Seq<u8>, Failure>(block),
        place.pointers.len() == 4,
        volume.descriptor.root_directory_record_length is None,
    ensures
        ({
            let read = parsed_record(block.subrange(156, 2048));
            let record = read->Ok_0;
            let root = volume.entries[0];
            &&& read is Ok
            &&& record_fields_check(record, true) is Ok
            &&& record.system_use.len() == 0
            &&& record.extent == place.root_extent
            &&& record.length == place.root_length
            &&& record.flags == record_flags(true, root.hidden, root.associated)
            &&& record.recording_time == recording_time_bytes(
                root_time(volume.descriptor, root.recording_time),
            )->Ok_0
        }),
{
    svd_tells(volume, place, block);
    reveal(root_record);
    let root = volume.entries[0];
    let record = svd_root(volume, place)->Ok_0;
    let time = recording_time_bytes(root_time(volume.descriptor, root.recording_time))->Ok_0;
    recording_time_length(root_time(volume.descriptor, root.recording_time));
    let model = RecordModel {
        extent: place.root_extent,
        length: place.root_length,
        recording_time: time,
        flags: record_flags(true, root.hidden, root.associated),
        file_unit_size: 0,
        interleave_gap_size: 0,
        volume_sequence_number: 1,
        name: root_name(volume.descriptor.root_directory_identifier),
        system_use: Seq::empty(),
        trailing_system_use_padding: false,
    };
    record_parts(model);
    assert(record == record_layout(model));
    flags_tell(true, root.hidden, root.associated);
    let bytes = block.subrange(156, 2048);
    assert forall|i: int| 1 <= i < 34 implies #[trigger] bytes[i] == record[i] by {
        assert(bytes[i] == block.subrange(157, 190)[i - 1]);
        assert(record[i] == record.subrange(1, 34)[i - 1]);
    }
    assert(field(bytes, 2, 8) =~= field(record, 2, 8));
    assert(field(bytes, 10, 8) =~= field(record, 10, 8));
    assert(field(bytes, 28, 4) =~= field(record, 28, 4));
    assert(bytes.subrange(18, 25) =~= record.subrange(18, 25));
    both32_round_trip(bytes, 2, place.root_extent);
    both32_round_trip(bytes, 10, place.root_length);
    both16_round_trip(bytes, 28, 1);
    assert(bytes[0] == block[156]);
}

/// The root of the Joliet tree of an image that was laid out is what its walk starts
/// from.
proof fn joliet_walk_starts(iso: IsoModel, placed: Placed, blocks: Seq<Block>, size: u32, block: Seq<u8>)
    requires
        placed.joliet is Some,
        is_joliet_walkable(joliet_tree_of(iso, placed), blocks),
        svd_block(
            iso.supplementary_volumes[0],
            joliet_place(placed.state, placed.joliet->Some_0.table, size),
        ) == Ok::<Seq<u8>, Failure>(block),
        placed.state.joliet_tables.len() == 4,
        iso.supplementary_volumes[0].descriptor.root_directory_record_length is None,
        parsed_volume(block, true) is Ok,
    ensures
        joliet_root(blocks, block) == Ok::<JolietRoot, Failure>(
            JolietRoot {
                descriptor: told_joliet_descriptor(iso.supplementary_volumes[0], block),
                xa_system_use: iso.supplementary_volumes[0].xa_system_use,
                walk: JolietWalkModel {
                    entries: seq![told_joliet_root(iso.supplementary_volumes[0])],
                    directories: seq![found_of(placed.state.joliet.placements[0])],
                },
            },
        ),
{
    let volume = iso.supplementary_volumes[0];
    let tree = joliet_tree_of(iso, placed);
    let place = joliet_place(placed.state, placed.joliet->Some_0.table, size);
    joliet_root_record_is_read(volume, place, block);
    joliet_directories_follow_order(tree);
    let directory = tree.directories[0];
    let root = volume.entries[0];
    let node = tree.nodes[0];
    assert(joliet_node(volume, 0) == Ok::<NodeModel, Failure>(node));
    assert(is_joliet_readable(tree, blocks, 0));
    reveal(is_joliet_readable);
    let options = tree.options;
    let own = node_model(
        node,
        directory.extent,
        directory.length,
        seq![0u8],
        true,
        options.trailing_system_use_padding,
        options.xa_system_use,
    );
    let first = seq![own, parent_model(tree.nodes, directory, directory, options)];
    models_stay_first(
        tree.nodes,
        tree.spots,
        directory.path,
        options.trailing_system_use_padding,
        0,
        first,
    );
    assert(first[0] == own);
    joliet_dot_is_accepted(tree, node, directory.extent, directory.length, seq![0u8]);
    written_xa_is_accepted(node.path, node.xa, true, options.xa_system_use, own.system_use);
    flags_tell(true, root.hidden, root.associated);
}

/// What is told of the Joliet volume of a filesystem that was laid out, where the
/// files of its primary tree lie at known places.
pub open spec fn told_joliet(
    iso: IsoModel,
    placed: Placed,
    size: u32,
    files: Seq<FoundModel>,
) -> JolietModel {
    let volume = iso.supplementary_volumes[0];
    let block = joliet_descriptor_of(iso, placed, size);
    let descriptor = told_joliet_descriptor(volume, block);
    let padding = string_padding(block, descriptor)->Ok_0;
    let odd = odd_bytes(volume)->Ok_0;
    JolietModel {
        level: volume.level,
        flags: volume.flags,
        zero_fill_empty_strings: or_spaces(padding.empty),
        zero_pad_strings: or_spaces(padding.rest),
        volume_set_identifier_raw_hex: padding.raw,
        descriptor: VolumeModel { volume_space_size: None, ..descriptor },
        xa_system_use: volume.xa_system_use,
        path_table_size: told_joliet_tables(iso, placed).size,
        path_table_little_hex: told_joliet_tables(iso, placed).little,
        path_table_big_hex: told_joliet_tables(iso, placed).big,
        file_identifier_odd_bytes_hex: if odd == seq![0u8, 0u8, 0u8] {
            None
        } else {
            Some(hex_text(odd))
        },
        entries: joliet_tree_entries_from(
            joliet_tree_of(iso, placed),
            files,
            0,
            seq![told_joliet_root(volume)],
        ),
    }
}

/// The texts of a Joliet descriptor can be read: they are texts, and their padding is
/// of one kind. Its root record has its own length.
pub open spec fn is_joliet_descriptor_readable(volume: JolietModel, block: Seq<u8>) -> bool {
    &&& volume.descriptor.root_directory_record_length is None
    &&& parsed_volume(block, true) is Ok
    &&& string_padding(block, told_joliet_descriptor(volume, block)) is Ok
}

/// The Joliet volume of an image that was laid out is read back: its descriptor, its
/// path tables and its whole tree. Left out are descriptors and path tables that
/// cannot be read, versions that are left off a name that has one, and files that are
/// not just one of the primary tree's.
#[verifier::rlimit(80)]
#[verifier::spinoff_prover]
pub proof fn joliet_is_parsed(
    iso: IsoModel,
    lengths: Seq<FileLengthModel>,
    layout: LayoutModel,
    blocks: Seq<Block>,
    files: Seq<FoundModel>,
)
    requires
        is_layout(iso, lengths, layout),
        is_filled(layout, blocks),
        iso.supplementary_volumes.len() == 1,
        versions_are_told(iso.supplementary_volumes[0]),
        sources_are_told(joliet_tree_of(iso, places_of(iso, lengths)), files),
        has_readable_joliet_tables(iso, places_of(iso, lengths)),
        is_joliet_descriptor_readable(
            iso.supplementary_volumes[0],
            joliet_descriptor_of(iso, places_of(iso, lengths), size_of_volume(iso, lengths)),
        ),
    ensures
        ({
            let placed = places_of(iso, lengths);
            let directories = placed.state.joliet.placements;
            parsed_joliet(
                blocks,
                joliet_descriptor_of(iso, placed, size_of_volume(iso, lengths)),
                files,
            ) == Ok::<ParsedJolietModel, Failure>(
                ParsedJolietModel {
                    volume: told_joliet(iso, placed, size_of_volume(iso, lengths), files),
                    directories: all_found(directories, directories.len() as int),
                    path_tables: TablesModel {
                        extents: placed.state.joliet_tables,
                        blocks: placed.joliet->Some_0.table.blocks,
                    },
                },
            )
        }),
{
    let placed = places_of(iso, lengths);
    let state = placed.state;
    let image = filled_image(blocks);
    let size = size_of_volume(iso, lengths);
    let volume = iso.supplementary_volumes[0];
    let tree = joliet_tree_of(iso, placed);
    let block = joliet_descriptor_of(iso, placed, size);
    assert(placed_filesystem(iso, lengths) == Ok::<Placed, Failure>(placed) && description_check(
        iso,
    ) is Ok) by {
        reveal(is_layout);
        reveal(places_of);
    }
    assert(places_all_tables(iso.metadata_layout)) by {
        assert(metadata_check(iso) is Ok);
    }
    joliet_layout_is_walkable(iso, lengths, layout, blocks);
    layout_holds_parts(iso, lengths, layout);
    filled_holds_parts(iso, lengths, layout, blocks);
    parts_are_apart(iso, lengths, placed);
    joliet_tables_are_placed(iso, lengths, placed);
    assert(views(blocks).len() == blocks.len());
    assert(blocks.len() == state.next);
    let plan = placed.joliet->Some_0;
    let place = joliet_place(state, plan.table, size);
    assert(svd_block(volume, place) is Ok && table_bytes(
        state.joliet.placements,
        plan.table.size,
        volume.path_table_little_hex,
        volume.path_table_big_hex,
    ) is Ok && tables_lie(
        state.joliet_tables,
        plan.table,
        joliet_tables_of_layout(iso, placed),
        image,
    )) by {
        reveal(holds_parts);
    }
    svd_tells(volume, place, block);
    joliet_head_is_read(iso, lengths, placed, size, block);
    joliet_walk_starts(iso, placed, blocks, size, block);
    let head = joliet_head(block, blocks.len() as int)->Ok_0;
    let root = joliet_root(blocks, block)->Ok_0;
    joliet_tree_is_found(iso, lengths, layout, blocks, files, root.walk);
    let ordered = joliet_order(tree);
    names_give_size(tree.directories, ordered, 0);
    joliet_tables_are_read(iso, placed, image, blocks, head);
}

/// What is told of a filesystem with a Joliet volume that was laid out, but for which
/// lengths its directories record: its metadata area is told as it is found in the
/// image.
pub open spec fn told_with_joliet(
    iso: IsoModel,
    placed: Placed,
    size: u32,
    blocks: Seq<Block>,
    primary: IsoModel,
) -> IsoModel {
    IsoModel {
        supplementary_volumes: seq![
            told_joliet(iso, placed, size, told_tally(iso, placed.state).files),
        ],
        metadata_layout: told_metadata(iso, placed, blocks)->Ok_0.layout,
        ..primary
    }
}

/// The order of the metadata of a filesystem that was laid out, as it is found in the
/// image.
pub open spec fn told_metadata(iso: IsoModel, placed: Placed, blocks: Seq<Block>) -> Result<
    MetadataOrder,
    Failure,
> {
    let primary = placed.state.primary.placements;
    let joliet = placed.state.joliet.placements;
    metadata_order(
        blocks,
        descriptors_end(iso) as u32,
        TablesModel { extents: placed.state.tables, blocks: placed.table.blocks },
        all_found(primary, primary.len() as int),
        TablesModel {
            extents: placed.state.joliet_tables,
            blocks: placed.joliet->Some_0.table.blocks,
        },
        all_found(joliet, joliet.len() as int),
    )
}

/// The Joliet descriptor of an image that was laid out stands behind the primary ones.
proof fn joliet_descriptor_is_found(
    iso: IsoModel,
    lengths: Seq<FileLengthModel>,
    layout: LayoutModel,
    blocks: Seq<Block>,
)
    requires
        is_layout(iso, lengths, layout),
        is_filled(layout, blocks),
        iso.supplementary_volumes.len() == 1,
        blocks.len() > 22,
    ensures
        blocks[16 + iso.primary_volume_copies]@ == joliet_descriptor_of(
            iso,
            places_of(iso, lengths),
            size_of_volume(iso, lengths),
        ),
        iso.path_table_copies == PathTableCopies::Single,
        descriptors_end(iso) == 18 + iso.primary_volume_copies,
{
    let placed = places_of(iso, lengths);
    let size = size_of_volume(iso, lengths);
    let image = filled_image(blocks);
    assert(placed_filesystem(iso, lengths) == Ok::<Placed, Failure>(placed) && description_check(
        iso,
    ) is Ok) by {
        reveal(is_layout);
        reveal(places_of);
    }
    layout_holds_parts(iso, lengths, layout);
    filled_holds_parts(iso, lengths, layout, blocks);
    parts_are_apart(iso, lengths, placed);
    tables_stand_apart(iso, lengths, placed);
    assert(descriptors_lie(iso, placed, size, image)) by {
        reveal(holds_parts);
    }
    volumes_are_found(iso, placed, size, image, blocks);
}

/// What was read of the Joliet volume is added to what was read of the primary tree.
proof fn joliet_is_added(
    blocks: Seq<Block>,
    plain: PlainModel,
    joliet: ParsedJolietModel,
    order: MetadataOrder,
)
    requires
        plain_parsed(blocks) == Ok::<PlainModel, Failure>(plain),
        plain.set.supplementary,
        plain.manifest.path_table_copies == PathTableCopies::Single,
        parsed_joliet(blocks, blocks[plain.set.terminator() - 1]@, plain.files) == Ok::<
            ParsedJolietModel,
            Failure,
        >(joliet),
        metadata_order(
            blocks,
            (plain.set.terminator() + 1) as u32,
            plain.tables,
            plain.directories,
            joliet.path_tables,
            joliet.directories,
        ) == Ok::<MetadataOrder, Failure>(order),
    ensures
        ({
            let manifest = IsoModel {
                supplementary_volumes: seq![joliet.volume],
                metadata_layout: order.layout,
                ..plain.manifest
            };
            parsed_iso(blocks) == match length_policy(
                manifest,
                plain.directories,
                joliet.directories,
            ) {
                Err(failure) => Err(failure),
                Ok(directory_length_policy) => Ok(
                    ParsedModel {
                        manifest: IsoModel { directory_length_policy, ..manifest },
                        files: plain.files,
                        directories: plain.directories,
                        path_tables: Some(plain.tables),
                        supplementary_directories: joliet.directories,
                        supplementary_path_tables: Some(joliet.path_tables),
                        metadata_gaps: order.gaps,
                    },
                ),
            }
        }),
{
}

/// Every entry has a name that a Joliet record can hold.
pub open spec fn have_joliet_names(entries: Seq<JolietEntryModel>) -> bool {
    forall|k: int|
        0 <= k < entries.len() ==> joliet_identifier(name_of((#[trigger] entries[k]).path)) is Ok
}

proof fn joliet_children_have_names(
    tree: JolietTree,
    files: Seq<FoundModel>,
    path: Seq<char>,
    index: int,
    read: Seq<JolietEntryModel>,
)
    requires
        is_joliet_tree(tree),
        have_joliet_names(read),
        0 <= index,
    ensures
        have_joliet_names(joliet_child_entries_from(tree, files, path, index, read)),
    decreases tree.nodes.len() - index,
{
    if index < tree.nodes.len() {
        assert(joliet_node(tree.volume, index) == Ok::<NodeModel, Failure>(tree.nodes[index]));
        let more = read.push(joliet_read_entry(tree, files, index));
        assert forall|k: int| 0 <= k < more.len() implies joliet_identifier(
            name_of((#[trigger] more[k]).path),
        ) is Ok by {
            if k < read.len() {
                assert(more[k] == read[k]);
            }
        }
        joliet_children_have_names(tree, files, path, index + 1, more);
        joliet_children_have_names(tree, files, path, index + 1, read);
    }
}

proof fn joliet_tree_has_names(
    tree: JolietTree,
    files: Seq<FoundModel>,
    index: int,
    read: Seq<JolietEntryModel>,
)
    requires
        is_joliet_tree(tree),
        have_joliet_names(read),
        0 <= index,
    ensures
        have_joliet_names(joliet_tree_entries_from(tree, files, index, read)),
    decreases tree.directories.len() - index,
{
    if index < tree.directories.len() {
        let path = tree.directories[index].path;
        joliet_children_have_names(tree, files, path, 0, read);
        joliet_tree_has_names(
            tree,
            files,
            index + 1,
            joliet_child_entries_from(tree, files, path, 0, read),
        );
    }
}

proof fn named_have_nodes(volume: JolietModel, index: int, read: Seq<NodeModel>)
    requires
        have_joliet_names(volume.entries),
        0 <= index,
    ensures
        joliet_nodes_from(volume, index, read) is Ok,
    decreases volume.entries.len() - index,
{
    if index < volume.entries.len() {
        assert(joliet_identifier(name_of(volume.entries[index].path)) is Ok);
        named_have_nodes(volume, index + 1, read.push(joliet_node(volume, index)->Ok_0));
    }
}

/// Where directories record the lengths of the blocks that they take, those are whole
/// numbers of blocks.
#[verifier::rlimit(40)]
#[verifier::spinoff_prover]
pub proof fn lengths_are_allocated(iso: IsoModel, lengths: Seq<FileLengthModel>, placed: Placed)
    requires
        placed_filesystem(iso, lengths) == Ok::<Placed, Failure>(placed),
        description_check(iso) is Ok,
        iso.directory_length_policy == DirectoryLengthPolicy::Allocated,
    ensures
        ({
            let primary = placed.state.primary.placements;
            let joliet = placed.state.joliet.placements;
            &&& all_allocated(all_found(primary, primary.len() as int))
            &&& iso.supplementary_volumes.len() > 0 ==> all_allocated(
                all_found(joliet, joliet.len() as int),
            )
        }),
{
    checked_is_tree(iso);
    parts_are_apart(iso, lengths, placed);
    let primary = placed.state.primary.placements;
    let joliet = placed.state.joliet.placements;
    let found = all_found(primary, primary.len() as int);
    assert forall|i: int| 0 <= i < found.len() implies (#[trigger] found[i]).length % 2048 == 0 by {
        let sized = sized_directory(iso, primary_nodes(iso), primary_order(iso)[i]);
        assert(same_directory(primary[i], sized->Ok_0));
        if is_reference(iso, primary[i]) {
            reference_is_empty(iso, primary, i);
        }
    }
    if iso.supplementary_volumes.len() > 0 {
        let volume = iso.supplementary_volumes[0];
        let nodes = placed.joliet->Some_0.nodes;
        let order = directories_of(nodes, ErrorKind::UnreachableJolietDirectory)->Ok_0;
        let joliet_found = all_found(joliet, joliet.len() as int);
        assert forall|i: int| 0 <= i < joliet_found.len() implies (
        #[trigger] joliet_found[i]).length % 2048 == 0 by {
            let sized = sized_joliet_directory(
                iso,
                nodes,
                volume.xa_system_use,
                order[i],
            );
            assert(same_directory(joliet[i], sized->Ok_0));
        }
    }
}

/// One more node adds its record to those of the directory that it lies in.
proof fn one_more_length(
    nodes: Seq<NodeModel>,
    node: NodeModel,
    path: Seq<char>,
    index: int,
    found: Seq<int>,
)
    requires
        0 <= index <= nodes.len(),
        is_child(node, path),
    ensures
        child_lengths_from(nodes.push(node), path, index, found) == child_lengths_from(
            nodes,
            path,
            index,
            found,
        ).push(
            size_of_record(node.identifier.len() as int, system_use_size(node.system_use)),
        ),
    decreases nodes.len() - index,
{
    let more = nodes.push(node);
    reveal_with_fuel(child_lengths_from, 2);
    if index < nodes.len() {
        assert(more[index] == nodes[index]);
        let next = if is_child(nodes[index], path) {
            found.push(
                size_of_record(
                    nodes[index].identifier.len() as int,
                    system_use_size(nodes[index].system_use),
                ),
            )
        } else {
            found
        };
        one_more_length(nodes, node, path, index + 1, next);
    } else {
        assert(more[index] == node);
    }
}

/// Where all nodes of a volume can be made, those that lie in a directory can, and have
/// the records that the directory has.
proof fn children_have_lengths(
    volume: JolietModel,
    nodes: Seq<NodeModel>,
    path: Seq<char>,
    index: int,
    read: Seq<NodeModel>,
    first: Seq<int>,
)
    requires
        nodes.len() == volume.entries.len(),
        forall|k: int|
            0 <= k < nodes.len() ==> joliet_node(volume, k) == Ok::<NodeModel, Failure>(
                #[trigger] nodes[k],
            ),
        0 <= index <= nodes.len(),
    ensures
        ({
            let all = joliet_children_from(volume, path, index, read);
            &&& all is Ok
            &&& child_lengths_from(all->Ok_0, path, 0, first) == child_lengths_from(
                nodes,
                path,
                index,
                child_lengths_from(read, path, 0, first),
            )
        }),
    decreases nodes.len() - index,
{
    if index < nodes.len() {
        let node = nodes[index];
        assert(joliet_node(volume, index) == Ok::<NodeModel, Failure>(nodes[index]));
        if is_child(node, path) {
            one_more_length(read, node, path, 0, first);
            children_have_lengths(volume, nodes, path, index + 1, read.push(node), first);
        } else {
            children_have_lengths(volume, nodes, path, index + 1, read, first);
        }
    }
}

/// Where all nodes of a volume can be made, the records of a directory have the length
/// that the nodes give them.
pub proof fn joliet_records_are_of_nodes(
    volume: JolietModel,
    path: Seq<char>,
    packing: DirectoryRecordPacking,
)
    requires
        joliet_nodes(volume) is Ok,
    ensures
        joliet_records(volume, path, packing) == Ok::<int, Failure>(
            records_length(joliet_nodes(volume)->Ok_0, path, volume.xa_system_use, packing),
        ),
{
    let nodes = joliet_nodes(volume)->Ok_0;
    joliet_nodes_are_those(volume, 0, Seq::empty());
    let dot = size_of_record(1, system_use_size(volume.xa_system_use));
    let first = seq![dot, dot];
    assert(child_lengths_from(Seq::empty(), path, 0, first) == first);
    children_have_lengths(volume, nodes, path, 0, Seq::empty(), first);
}

/// Where all nodes of a volume can be made, the names in its directories can be written.
pub proof fn joliet_names_are_written(volume: JolietModel, directories: Seq<FoundModel>)
    requires
        joliet_nodes(volume) is Ok,
    ensures
        first_failure(
            joliet_name_checks(volume, directories),
            0,
            directories.len() as int,
        ) is Ok,
{
    let checks = joliet_name_checks(volume, directories);
    first_failure_ok(checks, 0, directories.len() as int);
    assert forall|i: int| 0 <= i < directories.len() implies (#[trigger] checks(i)) is Ok by {
        joliet_records_are_of_nodes(
            volume,
            directories[i].path,
            DirectoryRecordPacking::Fill,
        );
    }
}

/// Where directories record the lengths of the blocks that they take, that is told of
/// an image that was laid out.
#[verifier::rlimit(40)]
#[verifier::spinoff_prover]
pub proof fn allocated_lengths_are_told(
    iso: IsoModel,
    lengths: Seq<FileLengthModel>,
    layout: LayoutModel,
    blocks: Seq<Block>,
    files: Seq<FoundModel>,
    told: IsoModel,
)
    requires
        is_layout(iso, lengths, layout),
        is_filled(layout, blocks),
        iso.supplementary_volumes.len() == 1,
        versions_are_told(iso.supplementary_volumes[0]),
        iso.directory_length_policy == DirectoryLengthPolicy::Allocated,
        told.supplementary_volumes == seq![
            told_joliet(iso, places_of(iso, lengths), size_of_volume(iso, lengths), files),
        ],
    ensures
        ({
            let primary = places_of(iso, lengths).state.primary.placements;
            let joliet = places_of(iso, lengths).state.joliet.placements;
            length_policy(
                told,
                all_found(primary, primary.len() as int),
                all_found(joliet, joliet.len() as int),
            ) == Ok::<DirectoryLengthPolicy, Failure>(DirectoryLengthPolicy::Allocated)
        }),
{
    let placed = places_of(iso, lengths);
    let volume = iso.supplementary_volumes[0];
    let tree = joliet_tree_of(iso, placed);
    assert(placed_filesystem(iso, lengths) == Ok::<Placed, Failure>(placed) && description_check(
        iso,
    ) is Ok) by {
        reveal(is_layout);
        reveal(places_of);
    }
    joliet_layout_is_walkable(iso, lengths, layout, blocks);
    let first = seq![told_joliet_root(volume)];
    assert(joliet_node(volume, 0) == Ok::<NodeModel, Failure>(tree.nodes[0]));
    assert(have_joliet_names(first));
    joliet_tree_has_names(tree, files, 0, first);
    let read = told.supplementary_volumes[0];
    named_have_nodes(read, 0, Seq::empty());
    let joliet = placed.state.joliet.placements;
    joliet_names_are_written(read, all_found(joliet, joliet.len() as int));
    lengths_are_allocated(iso, lengths, placed);
}

/// What was laid out is read back: an image with a Joliet volume is read as both trees
/// that its description has, each directory where it was placed, with its descriptors
/// and path tables as they were described. Left out is what is left out of either
/// tree, and metadata whose order or whose lengths cannot be told.
#[verifier::rlimit(40)]
#[verifier::spinoff_prover]
pub proof fn joliet_image_is_parsed(
    iso: IsoModel,
    lengths: Seq<FileLengthModel>,
    layout: LayoutModel,
    blocks: Seq<Block>,
)
    requires
        is_layout(iso, lengths, layout),
        is_filled(layout, blocks),
        iso.supplementary_volumes.len() == 1,
        has_quiet_slack(iso, places_of(iso, lengths).state),
        has_readable_tables(iso, places_of(iso, lengths)),
        audio_ends(iso, places_of(iso, lengths).state),
        blocks.len() > 22,
        versions_are_told(iso.supplementary_volumes[0]),
        sources_are_told(
            joliet_tree_of(iso, places_of(iso, lengths)),
            told_tally(iso, places_of(iso, lengths).state).files,
        ),
        has_readable_joliet_tables(iso, places_of(iso, lengths)),
        is_joliet_descriptor_readable(
            iso.supplementary_volumes[0],
            joliet_descriptor_of(iso, places_of(iso, lengths), size_of_volume(iso, lengths)),
        ),
        told_metadata(iso, places_of(iso, lengths), blocks) is Ok,
    ensures
        ({
            let placed = places_of(iso, lengths);
            let state = placed.state;
            let primary = plain_parsed(blocks)->Ok_0.manifest;
            let manifest = told_with_joliet(
                iso,
                placed,
                size_of_volume(iso, lengths),
                blocks,
                primary,
            );
            let directories = all_found(
                state.primary.placements,
                state.primary.placements.len() as int,
            );
            let joliet_directories = all_found(
                state.joliet.placements,
                state.joliet.placements.len() as int,
            );
            let policy = length_policy(manifest, directories, joliet_directories);
            &&& primary == told(
                iso,
                placed,
                size_of_volume(iso, lengths),
                blocks,
                primary.directory_record_packing,
                primary.directory_parent_recording_time,
            )
            &&& parsed_iso(blocks) == match policy {
                Err(failure) => Err(failure),
                Ok(directory_length_policy) => Ok(
                    ParsedModel {
                        manifest: IsoModel { directory_length_policy, ..manifest },
                        files: told_tally(iso, state).files,
                        directories,
                        path_tables: Some(
                            TablesModel { extents: state.tables, blocks: placed.table.blocks },
                        ),
                        supplementary_directories: joliet_directories,
                        supplementary_path_tables: Some(
                            TablesModel {
                                extents: state.joliet_tables,
                                blocks: placed.joliet->Some_0.table.blocks,
                            },
                        ),
                        metadata_gaps: told_metadata(iso, placed, blocks)->Ok_0.gaps,
                    },
                ),
            }
        }),
{
    let placed = places_of(iso, lengths);
    let files = told_tally(iso, placed.state).files;
    primary_is_parsed(iso, lengths, layout, blocks);
    joliet_is_parsed(iso, lengths, layout, blocks, files);
    joliet_descriptor_is_found(iso, lengths, layout, blocks);
    let plain = plain_parsed(blocks)->Ok_0;
    assert(plain.manifest.path_table_copies == PathTableCopies::Single) by {
        reveal(told);
    }
    joliet_is_added(
        blocks,
        plain,
        parsed_joliet(blocks, blocks[plain.set.terminator() - 1]@, plain.files)->Ok_0,
        told_metadata(iso, placed, blocks)->Ok_0,
    );
}

/// Which lengths directories record is found without regard to what is described of it.
proof fn policy_is_not_read(
    iso: IsoModel,
    other: IsoModel,
    primary: Seq<FoundModel>,
    joliet: Seq<FoundModel>,
)
    requires
        iso == (IsoModel { directory_length_policy: iso.directory_length_policy, ..other }),
    ensures
        length_policy(iso, primary, joliet) == length_policy(other, primary, joliet),
{
    assert(authored_nodes(iso) =~= authored_nodes(other));
}

/// A description with a Joliet volume that is told as it is read comes back whole: an
/// image that was laid out from it is read as that very description, and is laid out
/// from what was read with everything where it was. This holds only of such
/// descriptions, those whose entries, texts and times are the ones that reading gives, and
/// so is which lengths their directories record.
#[verifier::rlimit(40)]
#[verifier::spinoff_prover]
pub proof fn joliet_image_is_rebuilt(
    iso: IsoModel,
    lengths: Seq<FileLengthModel>,
    layout: LayoutModel,
    blocks: Seq<Block>,
)
    requires
        is_layout(iso, lengths, layout),
        is_filled(layout, blocks),
        iso.supplementary_volumes.len() == 1,
        has_quiet_slack(iso, places_of(iso, lengths).state),
        has_readable_tables(iso, places_of(iso, lengths)),
        audio_ends(iso, places_of(iso, lengths).state),
        blocks.len() > 22,
        versions_are_told(iso.supplementary_volumes[0]),
        sources_are_told(
            joliet_tree_of(iso, places_of(iso, lengths)),
            told_tally(iso, places_of(iso, lengths).state).files,
        ),
        has_readable_joliet_tables(iso, places_of(iso, lengths)),
        is_joliet_descriptor_readable(
            iso.supplementary_volumes[0],
            joliet_descriptor_of(iso, places_of(iso, lengths), size_of_volume(iso, lengths)),
        ),
        told_metadata(iso, places_of(iso, lengths), blocks) is Ok,
        iso.directory_record_packing == DirectoryRecordPacking::Fill,
        iso.directory_parent_recording_time == DirectoryParentRecordingTime::Parent,
        ({
            let primary = places_of(iso, lengths).state.primary.placements;
            let joliet = places_of(iso, lengths).state.joliet.placements;
            iso.directory_length_policy == DirectoryLengthPolicy::Allocated || length_policy(
                iso,
                all_found(primary, primary.len() as int),
                all_found(joliet, joliet.len() as int),
            ) == Ok::<DirectoryLengthPolicy, Failure>(iso.directory_length_policy)
        }),
        iso == (IsoModel {
            directory_length_policy: iso.directory_length_policy,
            ..told_with_joliet(
                iso,
                places_of(iso, lengths),
                size_of_volume(iso, lengths),
                blocks,
                told(
                    iso,
                    places_of(iso, lengths),
                    size_of_volume(iso, lengths),
                    blocks,
                    iso.directory_record_packing,
                    iso.directory_parent_recording_time,
                ),
            )
        }),
    ensures
        parsed_iso(blocks) is Ok,
        parsed_iso(blocks)->Ok_0.manifest == iso,
        layout_of(parsed_iso(blocks)->Ok_0.manifest, lengths) == Ok::<LayoutModel, Failure>(layout),
{
    let placed = places_of(iso, lengths);
    let files = told_tally(iso, placed.state).files;
    primary_is_parsed(iso, lengths, layout, blocks);
    joliet_image_is_parsed(iso, lengths, layout, blocks);
    let manifest = told_with_joliet(
        iso,
        placed,
        size_of_volume(iso, lengths),
        blocks,
        plain_parsed(blocks)->Ok_0.manifest,
    );
    if iso.directory_length_policy == DirectoryLengthPolicy::Allocated {
        allocated_lengths_are_told(iso, lengths, layout, blocks, files, iso);
    }
    let primary = placed.state.primary.placements;
    let joliet = placed.state.joliet.placements;
    policy_is_not_read(
        iso,
        manifest,
        all_found(primary, primary.len() as int),
        all_found(joliet, joliet.len() as int),
    );
    assert(layout_of(iso, lengths) == Ok::<LayoutModel, Failure>(layout)) by {
        reveal(is_layout);
    }
}

} // verus!
