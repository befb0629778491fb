//! What is read of an image that was laid out is laid out as the image again.
use vstd::prelude::*;

use crate::bytes::{fill, used_length, used_length_is_last};
use crate::error::Failure;
use crate::hexcode::{hex_bytes, hex_round_trip, hex_text};
use crate::iso9660::description::{EntryModel, IsoModel, JolietModel, SlackModel, VolumeModel};
use crate::iso9660::descriptor::{
    application_use_bytes, application_use_of, parsed_volume,
};
use crate::iso9660::descriptor_laws::{pvd_is_rebuilt, read_back, texts_end_plainly};
use crate::iso9660::descriptor_write::{
    application_field, pvd_block, pvd_fields, pvd_root, reserved_field, root_record, root_time,
    svd_block, PlaceModel,
};
use crate::iso9660::directory::{
    directory_bytes, directory_records, recorded_length, FileModel, SpotModel, TreeOptions,
};
use crate::iso9660::directory_laws::{recording_time_length, told_slack};
use crate::iso9660::file_order_laws::{
    audio_is_told, extents_show, has_own_length, lengths_show, own_file_is_placed,
};
use crate::iso9660::image_laws::{
    blank_behind_descriptors, descriptors_are_written, directory_is_held, files_are_blank,
    fill_alike, holds_parts, in_part, other_tables_stay_blank, padding_is_owned, table_part,
    tables_are_blank, tables_are_written, tables_are_written_alike, unpadded_image,
};
use crate::iso9660::joliet_parse_laws::names_give_size;
use crate::iso9660::layout::{
    blocks_for, blocks_of, directory_size, file_spot, image_of, joliet_options, joliet_place,
    joliet_plan, joliet_spots, layout_of, logical_end_from, logical_size, placed_filesystem,
    primary_options, primary_place, primary_spots, reference_backing_checks, sized_directory,
    table_bytes, table_size_from, with_all_directories, with_all_tables, with_descriptors,
    with_joliet_directories_from, with_paddings_from, with_tables, LayoutModel, Placed, TablePlan,
};
use crate::iso9660::layout_laws::{
    filled_holds_parts, filled_image, has_plain_packing, image_of_layout, in_data, is_filled,
    is_layout, layout_holds_parts, places_of, records_are_some, records_end_as_reckoned,
    size_of_volume,
};
use crate::iso9660::padding_laws::{
    has_padding, in_padding, is_padding_sound, paddings_change, paddings_lead_to, tail_is_padding,
};
use crate::iso9660::parse::{external_end_from, file_order, parsed_iso};
use crate::iso9660::parse_laws::{
    audio_ends, descriptor_of, has_readable_tables, image_is_parsed, spots_of, table_read,
    tables_stand_apart, told, told_tables, told_tally, told_volume, volume_has_size,
    whole_table_is_read,
};
use crate::iso9660::path_table::{find_directory, PlacementModel};
use crate::iso9660::placing::{FileLengthModel, PlacingModel};
use crate::iso9660::placing_laws::{
    are_apart, are_sized, descriptors_end, parts_are_apart, primary_order, same_directory,
    table_blocks, tables_of, takes_blocks, Part,
};
use crate::iso9660::read::allocation_padding;
use crate::iso9660::reading_laws::has_quiet_slack;
use crate::iso9660::record::is_cdda;
use crate::iso9660::relabel_laws::{found_alike, relabelled, with_entries};
use crate::iso9660::retelling_laws::{all_are_listed, told_entry, told_origins};
use crate::iso9660::retold_layout_laws::{
    are_entries_of, blocks_to, directories_are_rewritten, joliet_is_replanned, placed_again,
    places_are_retold, reach, records_are_told, retells, retells_entry, size_is_told,
    sizes_are_told, slack_end,
};
use crate::iso9660::selection_laws::same_node;
use crate::iso9660::subheaders::{
    file_of, find_file_from, frame_entries_from, frame_entry, frame_tables_from,
    mark_directories_from, mark_tables_from, referenced_file, subheaders_of, SubheaderModel,
};
use crate::iso9660::table_laws::{alike_are_written_alike, are_listed_alike, table_has_size};
use crate::iso9660::time::{recording_time_bytes, recording_time_text};
use crate::iso9660::time_laws::recording_time_survives;
use crate::iso9660::told_checks_laws::{
    entry_is_told_well, image_is_retold, joliet_passes, length_policy_holds, shows_files, told_of,
    told_passes, told_policy,
};
use crate::iso9660::told_entries_laws::{
    all_are_written, entry_is_told, forms_show, is_plain_image, lengths_are_told, plain_image_has,
    tables_show,
};
use crate::iso9660::tree::{is_file, primary_nodes, records_length, NodeModel};
use crate::iso9660::tree_walk_laws::{
    all_found, directories_follow_order, have_plain_packing, have_times_of_parents, is_readable,
    is_reference, is_walkable, read_time,
};
use crate::iso9660::validate::{description_check, entry_check, metadata_check, only_record_fields};
use crate::iso9660::walk_laws::{is_tree, model_at, name_is_read};
use crate::manifest::{
    DirectoryLengthPolicy, DirectoryParentRecordingTime, DirectoryRecordPacking, MetadataVolume,
    PrimaryVolumeApplicationUse,
};
use crate::model::{ceil_div, first_failure_ok, views};
use crate::raw_cd::Block;

verus! {

/// The bytes behind the records of each directory reach as far, in blocks, as those of
/// them that are not zero.
pub open spec fn slack_shows(iso: IsoModel) -> bool {
    forall|i: int|
        0 <= i < primary_order(iso).len() && !is_reference(iso, #[trigger] primary_order(iso)[i])
            ==> slack_shows_in(iso, primary_order(iso)[i])
}

/// The bytes behind the records of a directory reach as far, in blocks, as those of
/// them that are not zero.
pub open spec fn slack_shows_in(iso: IsoModel, directory: PlacementModel) -> bool {
    let slack = iso.entries[directory.entry].directory_slack;
    let records = records_length(
        primary_nodes(iso),
        directory.path,
        iso.xa_system_use,
        iso.directory_record_packing,
    );
    blocks_to(records, slack_end(told_slack(slack))) == blocks_to(records, slack_end(slack))
}

/// An application-use field that is given by its bytes, in an image whose records have
/// XA data, is not the one that moves the padding of records.
pub open spec fn application_use_shows(iso: IsoModel) -> bool {
    iso.xa_system_use ==> (iso.primary_volume.application_use_hex matches Some(text) ==> hex_bytes(
        text,
    ) != application_use_bytes(PrimaryVolumeApplicationUse::CdRep20131))
}

/// A plain packing gives directories the sizes that they have.
pub proof fn plain_packing_has_size(iso: IsoModel, state: PlacingModel, blocks: Seq<Block>, index: int)
    requires
        is_walkable(iso, state, blocks),
        0 <= index < state.primary.placements.len(),
        !is_reference(iso, state.primary.placements[index]),
        has_plain_packing(iso, state, index),
    ensures
        records_length(
            primary_nodes(iso),
            state.primary.placements[index].path,
            iso.xa_system_use,
            DirectoryRecordPacking::Fill,
        ) == records_length(
            primary_nodes(iso),
            state.primary.placements[index].path,
            iso.xa_system_use,
            iso.directory_record_packing,
        ),
{
    let nodes = primary_nodes(iso);
    let spots = primary_spots(iso, state, nodes);
    let directory = state.primary.placements[index];
    let parent = state.primary.placements[directory.parent];
    let options = primary_options(iso);
    let plain = TreeOptions { packing: DirectoryRecordPacking::Fill, ..options };
    assert(is_readable(iso, state, blocks, index));
    assert(directory_records(nodes, spots, directory, parent, options) is Ok) by {
        reveal(is_readable);
    }
    assert(directory_records(nodes, spots, directory, parent, plain) == directory_records(
        nodes,
        spots,
        directory,
        parent,
        options,
    ));
    records_end_as_reckoned(nodes, spots, directory, parent, options);
    records_end_as_reckoned(nodes, spots, directory, parent, plain);
}

/// Nothing is written behind the records of a directory that ends with them.
proof fn records_leave_no_room(
    nodes: Seq<NodeModel>,
    spots: Seq<SpotModel>,
    directory: PlacementModel,
    parent: PlacementModel,
    slack: Option<SlackModel>,
    options: TreeOptions,
)
    requires
        directory_bytes(nodes, spots, directory, parent, slack, options) is Ok,
        directory.length == records_length(
            nodes,
            directory.path,
            options.xa_system_use,
            options.packing,
        ),
    ensures
        slack is None,
{
    records_end_as_reckoned(nodes, spots, directory, parent, options);
}

/// A directory that is not referred to is as long as its records, where those lengths are
/// recorded.
proof fn sized_as_records(iso: IsoModel, nodes: Seq<NodeModel>, directory: PlacementModel)
    requires
        sized_directory(iso, nodes, directory) is Ok,
        iso.directory_length_policy == DirectoryLengthPolicy::Records,
        iso.entries[directory.entry].directory_reference is None,
    ensures
        sized_directory(iso, nodes, directory)->Ok_0.length == records_length(
            nodes,
            directory.path,
            iso.xa_system_use,
            iso.directory_record_packing,
        ),
{
    records_are_some(nodes, directory.path, iso.xa_system_use, iso.directory_record_packing);
}

/// A directory whose length is that of its records has nothing behind them.
pub proof fn recorded_has_no_slack(
    iso: IsoModel,
    lengths: Seq<FileLengthModel>,
    layout: LayoutModel,
    index: int,
)
    requires
        is_layout(iso, lengths, layout),
        are_sized(iso, places_of(iso, lengths).state.primary.placements),
        iso.directory_length_policy == DirectoryLengthPolicy::Records,
        0 <= index < places_of(iso, lengths).state.primary.placements.len(),
        !is_reference(iso, places_of(iso, lengths).state.primary.placements[index]),
    ensures
        iso.entries[places_of(
            iso,
            lengths,
        ).state.primary.placements[index].entry].directory_slack is None,
{
    let placed = places_of(iso, lengths);
    let directories = placed.state.primary.placements;
    let nodes = primary_nodes(iso);
    let directory = directories[index];
    assert(directory_bytes(
        nodes,
        primary_spots(iso, placed.state, nodes),
        directory,
        directories[directory.parent],
        iso.entries[directory.entry].directory_slack,
        primary_options(iso),
    ) is Ok) by {
        layout_holds_parts(iso, lengths, layout);
        directory_is_held(
            iso,
            placed,
            size_of_volume(iso, lengths),
            image_of_layout(iso, lengths),
            index,
        );
    }
    let ordered = primary_order(iso)[index];
    assert(same_directory(directory, sized_directory(iso, nodes, ordered)->Ok_0));
    sized_as_records(iso, nodes, ordered);
    records_leave_no_room(
        nodes,
        primary_spots(iso, placed.state, nodes),
        directory,
        directories[directory.parent],
        iso.entries[directory.entry].directory_slack,
        primary_options(iso),
    );
}

/// Lengths of directories that are whole numbers of blocks, or that are told as they are
/// reckoned, are told as they are.
pub proof fn size_is_told_whole(records: int, policy: DirectoryLengthPolicy)
    requires
        0 < records,
        directory_size(records, records, policy) is Ok,
        directory_size(records, records, policy)->Ok_0.1 % 2048 == 0,
    ensures
        directory_size(records, records, DirectoryLengthPolicy::Allocated) == directory_size(
            records,
            records,
            policy,
        ),
{
    if policy == DirectoryLengthPolicy::Records {
        assert(records % 2048 == 0);
        assert(blocks_for(records) * 2048 == records);
    }
}

/// What is told of the directories of an image gives them the sizes that they have.
proof fn told_sizes_hold(
    iso: IsoModel,
    lengths: Seq<FileLengthModel>,
    layout: LayoutModel,
    blocks: Seq<Block>,
    packing: DirectoryRecordPacking,
)
    requires
        is_plain_image(iso, lengths, layout, blocks),
        slack_shows(iso),
        packing == iso.directory_record_packing || (packing == DirectoryRecordPacking::Fill
            && have_plain_packing(iso, places_of(iso, lengths).state, 0)),
    ensures
        sizes_are_told(iso, packing, told_policy(iso, places_of(iso, lengths))),
{
    plain_image_has(iso, lengths, layout, blocks);
    let placed = places_of(iso, lengths);
    let state = placed.state;
    let directories = state.primary.placements;
    let policy = told_policy(iso, placed);
    directories_follow_order(iso, directories);
    assert(lengths_are_told(iso, placed) && is_layout(iso, lengths, layout)) by {
        reveal(is_plain_image);
    }
    length_policy_holds(iso, lengths, placed);
    assert forall|i: int|
        0 <= i < primary_order(iso).len() && !is_reference(
            iso,
            #[trigger] primary_order(iso)[i],
        ) implies size_is_told(iso, packing, policy, primary_order(iso)[i]) by {
        let directory = directories[i];
        assert(directory.path == primary_order(iso)[i].path && directory.entry == primary_order(
            iso,
        )[i].entry);
        assert(slack_shows_in(iso, primary_order(iso)[i]));
        if packing != iso.directory_record_packing {
            assert(!is_reference(iso, state.primary.placements[i]));
            assert(has_plain_packing(iso, state, i));
            plain_packing_has_size(iso, state, blocks, i);
        }
        let ordered = primary_order(iso)[i];
        let nodes = primary_nodes(iso);
        assert(same_directory(directory, sized_directory(iso, nodes, ordered)->Ok_0));
        records_are_some(
            nodes,
            directory.path,
            iso.xa_system_use,
            iso.directory_record_packing,
        );
        let records = records_length(
            nodes,
            directory.path,
            iso.xa_system_use,
            iso.directory_record_packing,
        );
        let end = slack_end(iso.entries[directory.entry].directory_slack);
        assert(blocks_for(reach(records, end)) * 2048 >= reach(records, end));
        if iso.directory_length_policy == DirectoryLengthPolicy::Records {
            recorded_has_no_slack(iso, lengths, layout, i);
            if policy == DirectoryLengthPolicy::Allocated {
                assert(all_found(directories, directories.len() as int)[i].length % 2048 == 0);
                size_is_told_whole(records, iso.directory_length_policy);
            }
        }
    }
}

/// The record of a file whose XA data is what a record carries has the file's length.
proof fn plain_length_is_recorded(entry: EntryModel, file: FileModel)
    requires
        entry.xa matches Some(xa) ==> only_record_fields(xa),
        file.length <= u32::MAX,
    ensures
        recorded_length(entry, file) == Ok::<u32, Failure>(file.length as u32),
{
}

/// The record of a file that is told points where the one that it is told of does.
proof fn spot_of_told_file(entry: EntryModel, again: EntryModel, files: Seq<FileModel>)
    requires
        again.path == entry.path,
        (again.extent is Some) == (entry.extent is Some),
        (again.length is Some) == (entry.extent is Some),
        again.xa matches Some(xa) ==> only_record_fields(xa),
        file_spot(entry, files).length is Ok,
        entry.extent is Some ==> again.extent->Some_0 == file_spot(entry, files).extent
            && again.length->Some_0 == file_spot(entry, files).length->Ok_0,
        entry.extent is None ==> find_file_from(files, entry.path, 0) is Some && file_spot(
            entry,
            files,
        ).length->Ok_0 == find_file_from(files, entry.path, 0)->Some_0.length,
    ensures
        file_spot(again, files) == file_spot(entry, files),
        file_of(again, files) is Some,
{
    plain_length_is_recorded(again, file_of(again, files)->Some_0);
}

/// The record of a file that is told points where the one that it is told of does.
pub proof fn file_spot_is_told(
    iso: IsoModel,
    lengths: Seq<FileLengthModel>,
    layout: LayoutModel,
    blocks: Seq<Block>,
    index: int,
)
    requires
        is_plain_image(iso, lengths, layout, blocks),
        shows_files(iso, lengths),
        0 <= index < iso.entries.len(),
        !primary_nodes(iso)[index].directory,
    ensures
        ({
            let state = places_of(iso, lengths).state;
            let again = told_entry(iso, state, blocks, index);
            &&& file_spot(again, state.files) == file_spot(iso.entries[index], state.files)
            &&& file_of(again, state.files) is Some
        }),
{
    let state = places_of(iso, lengths).state;
    let again = told_entry(iso, state, blocks, index);
    let entry = iso.entries[index];
    assert(extents_show(iso, state) && lengths_show(iso, state)) by {
        reveal(shows_files);
    }
    assert(spots_of(iso, state)[index] == file_spot(entry, state.files));
    entry_is_told_well(iso, lengths, layout, blocks, index);
    assert(file_spot(entry, state.files).length is Ok) by {
        all_are_written(iso, lengths, layout, blocks, index);
    }
    assert(entry.extent is Some ==> again.extent->Some_0 == spots_of(iso, state)[index].extent
        && again.length->Some_0 == spots_of(iso, state)[index].length->Ok_0) by {
        entry_is_told(iso, lengths, layout, blocks, index);
    }
    if entry.extent is None {
        assert(primary_nodes(iso)[index].directory == false);
        assert(has_own_length(iso, state, index));
    }
    spot_of_told_file(entry, again, state.files);
}

/// The application-use field tells where records have their padding.
proof fn padding_place_is_told(
    iso: IsoModel,
    block: Seq<u8>,
)
    requires
        application_field(iso.primary_volume, "primary-volume"@) == Ok::<Seq<u8>, Failure>(
            block.subrange(883, 1395),
        ),
        application_use_shows(iso),
        iso.xa_system_use,
    ensures
        (application_use_of(block.subrange(883, 1395)) == Some(
            PrimaryVolumeApplicationUse::CdRep20131,
        )) == (iso.primary_volume.application_use == PrimaryVolumeApplicationUse::CdRep20131),
{
    reveal(application_field);
    reveal(application_use_of);
    let mark = application_use_bytes(PrimaryVolumeApplicationUse::CdRep20131);
    assert(mark[0] == 67);
    assert(application_use_bytes(PrimaryVolumeApplicationUse::CdXa001)[0] == 0);
    assert(application_use_bytes(PrimaryVolumeApplicationUse::CdXa001_1_1)[0] == 0);
    assert(application_use_bytes(PrimaryVolumeApplicationUse::CdXa001Xcd3221Revision13)[0] == 0);
}

/// What the descriptor of an image that was laid out is read as.
proof fn descriptor_is_told(
    iso: IsoModel,
    lengths: Seq<FileLengthModel>,
    layout: LayoutModel,
    blocks: Seq<Block>,
)
    requires
        is_plain_image(iso, lengths, layout, blocks),
        texts_end_plainly(iso.primary_volume),
    ensures
        ({
            let placed = places_of(iso, lengths);
            let size = size_of_volume(iso, lengths);
            let place = primary_place(placed.state, placed.table, size);
            let block = descriptor_of(iso, placed, size);
            &&& size > 0
            &&& pvd_block(iso.primary_volume, place, iso.entries[0]) == Ok::<Seq<u8>, Failure>(
                block,
            )
            &&& parsed_volume(block, false) is Ok
            &&& pvd_block(
                read_back(block, iso.primary_volume),
                place,
                iso.entries[0],
            ) == Ok::<Seq<u8>, Failure>(block)
            &&& application_field(iso.primary_volume, "primary-volume"@) == Ok::<
                Seq<u8>,
                Failure,
            >(block.subrange(883, 1395))
            &&& placed.state.tables.len() == 4
            &&& metadata_check(iso) is Ok
        }),
{
    plain_image_has(iso, lengths, layout, blocks);
    let placed = places_of(iso, lengths);
    let size = size_of_volume(iso, lengths);
    assert(is_layout(iso, lengths, layout) && blocks.len() > 22) by {
        reveal(is_plain_image);
    }
    assert(iso.supplementary_volumes.len() <= 1) by {
        reveal(is_layout);
    }
    layout_holds_parts(iso, lengths, layout);
    volume_has_size(iso, lengths, layout);
    tables_stand_apart(iso, lengths, placed);
    assert(pvd_block(
        iso.primary_volume,
        primary_place(placed.state, placed.table, size),
        iso.entries[0],
    ) is Ok) by {
        reveal(holds_parts);
    }
    pvd_is_rebuilt(
        iso.primary_volume,
        primary_place(placed.state, placed.table, size),
        iso.entries[0],
        descriptor_of(iso, placed, size),
    );
}

/// Descriptors are the same where nothing but what does not stand in them, or the text
/// of a time, differs.
proof fn same_descriptor(
    volume: VolumeModel,
    again: VolumeModel,
    place: PlaceModel,
    root: EntryModel,
    root_again: EntryModel,
)
    requires
        again == (VolumeModel {
            volume_space_size: again.volume_space_size,
            root_directory_recording_time: again.root_directory_recording_time,
            ..volume
        }),
        pvd_root(again, place, root_again) == pvd_root(volume, place, root),
    ensures
        pvd_block(again, place, root_again) == pvd_block(volume, place, root),
{
    reveal(application_field);
    reveal(reserved_field);
    assert(pvd_fields(again, place, root_again) =~= pvd_fields(volume, place, root));
}

/// The descriptor is written again as it was.
proof fn descriptor_is_rewritten(
    iso: IsoModel,
    lengths: Seq<FileLengthModel>,
    layout: LayoutModel,
    blocks: Seq<Block>,
    root: EntryModel,
)
    requires
        is_plain_image(iso, lengths, layout, blocks),
        texts_end_plainly(iso.primary_volume),
        root.recording_time == read_time(iso, 0),
        root.hidden == iso.entries[0].hidden,
        root.associated == iso.entries[0].associated,
    ensures
        ({
            let placed = places_of(iso, lengths);
            let size = size_of_volume(iso, lengths);
            pvd_block(
                told_volume(iso, placed, size, blocks),
                primary_place(placed.state, placed.table, size),
                root,
            ) == Ok::<Seq<u8>, Failure>(descriptor_of(iso, placed, size))
        }),
{
    descriptor_is_told(iso, lengths, layout, blocks);
    let placed = places_of(iso, lengths);
    let size = size_of_volume(iso, lengths);
    let place = primary_place(placed.state, placed.table, size);
    let block = descriptor_of(iso, placed, size);
    let volume = read_back(block, iso.primary_volume);
    let again = told_volume(iso, placed, size, blocks);
    let time = root_time(iso.primary_volume, iso.entries[0].recording_time);
    assert(root_time(volume, iso.entries[0].recording_time) == time);
    reveal(root_record);
    assert(recording_time_bytes(time) is Ok);
    let bytes = recording_time_bytes(time)->Ok_0;
    recording_time_length(time);
    recording_time_survives(bytes);
    assert(root_time(again, root.recording_time) == recording_time_text(bytes));
    same_descriptor(volume, again, place, iso.entries[0], root);
}

/// Path tables are written again as they were.
proof fn tables_are_rewritten(
    iso: IsoModel,
    lengths: Seq<FileLengthModel>,
    layout: LayoutModel,
    blocks: Seq<Block>,
    entries: Seq<int>,
)
    requires
        is_plain_image(iso, lengths, layout, blocks),
    ensures
        ({
            let placed = places_of(iso, lengths);
            let directories = placed.state.primary.placements;
            let record = told_tables(iso, placed);
            &&& table_bytes(
                directories,
                placed.table.size,
                iso.path_table_little_hex,
                iso.path_table_big_hex,
            ) is Ok
            &&& table_bytes(
                relabelled(directories, entries),
                placed.table.size,
                record.little,
                record.big,
            ) is Ok
            &&& fill_alike(
                table_bytes(
                    directories,
                    placed.table.size,
                    iso.path_table_little_hex,
                    iso.path_table_big_hex,
                )->Ok_0,
                table_bytes(
                    relabelled(directories, entries),
                    placed.table.size,
                    record.little,
                    record.big,
                )->Ok_0,
                placed.table.blocks,
            )
            &&& record.size == Some(placed.table.size) || (record.size is None
                && placed.table.size == table_size_from(primary_order(iso), 0))
        }),
{
    let placed = places_of(iso, lengths);
    let directories = placed.state.primary.placements;
    assert(has_readable_tables(iso, placed) && tables_show(iso, placed) && is_layout(
        iso,
        lengths,
        layout,
    )) by {
        reveal(is_plain_image);
    }
    layout_holds_parts(iso, lengths, layout);
    assert(placed.table.size <= placed.table.blocks * 2048) by {
        plain_image_has(iso, lengths, layout, blocks);
        reveal(is_layout);
        tables_stand_apart(iso, lengths, placed);
    }
    let bytes = table_bytes(
        directories,
        placed.table.size,
        iso.path_table_little_hex,
        iso.path_table_big_hex,
    );
    assert(bytes is Ok) by {
        reveal(holds_parts);
    }
    let again = relabelled(directories, entries);
    assert(are_listed_alike(again, directories));
    alike_are_written_alike(again, directories, 0, Seq::empty(), false);
    alike_are_written_alike(again, directories, 0, Seq::empty(), true);
    table_has_size(directories, 0, Seq::empty(), false);
    table_has_size(directories, 0, Seq::empty(), true);
    primary_table_size(iso, lengths, layout, blocks);
    read_fills_alike(bytes->Ok_0.0, placed.table.size, placed.table.blocks);
    read_fills_alike(bytes->Ok_0.1, placed.table.size, placed.table.blocks);
    hex_round_trip(table_read(bytes->Ok_0.0, placed.table.size));
    hex_round_trip(table_read(bytes->Ok_0.1, placed.table.size));
}

/// The directories of an image have path tables of the size that their order gives.
proof fn primary_table_size(
    iso: IsoModel,
    lengths: Seq<FileLengthModel>,
    layout: LayoutModel,
    blocks: Seq<Block>,
)
    requires
        is_plain_image(iso, lengths, layout, blocks),
    ensures
        table_size_from(places_of(iso, lengths).state.primary.placements, 0) == table_size_from(
            primary_order(iso),
            0,
        ),
{
    plain_image_has(iso, lengths, layout, blocks);
    let directories = places_of(iso, lengths).state.primary.placements;
    directories_follow_order(iso, directories);
    assert forall|i: int| 0 <= i < directories.len() implies (#[trigger] directories[i]).name
        == primary_order(iso)[i].name by {
        let sized = sized_directory(iso, primary_nodes(iso), primary_order(iso)[i]);
        assert(same_directory(directories[i], sized->Ok_0));
    }
    names_give_size(directories, primary_order(iso), 0);
}

/// What is read of a path table of which no less than all is recorded fills its blocks as
/// the table does.
pub proof fn read_fills_alike(data: Seq<u8>, size: u32, blocks: u32)
    requires
        data.len() <= size <= blocks * 2048,
    ensures
        table_part(table_read(data, size), blocks) == table_part(data, blocks),
        data.len() == size ==> table_read(data, size) == data,
{
    assert(table_part(table_read(data, size), blocks) =~= table_part(data, blocks));
    if data.len() == size {
        whole_table_is_read(data, size);
    }
}

/// Both ways to reckon the end of the last fixed extent agree.
proof fn ends_are_alike(entries: Seq<EntryModel>, end: u32, index: int)
    requires
        0 <= index,
        forall|e: int|
            0 <= e < entries.len() && (#[trigger] entries[e]).extent is Some ==> ends_in_reach(
                entries[e],
            ),
    ensures
        logical_end_from(entries, end, index) is Ok,
        external_end_from(entries, end, index) == logical_end_from(entries, end, index),
    decreases entries.len() - index,
{
    if index < entries.len() {
        if entries[index].extent is None {
            ends_are_alike(entries, end, index + 1);
        } else {
            assert(ends_in_reach(entries[index]));
            let file = referenced_file(entries[index]);
            let next = file.extent + file.blocks;
            ends_are_alike(
                entries,
                if next > end {
                    next as u32
                } else {
                    end
                },
                index + 1,
            );
        }
    }
}

/// A fixed extent ends at a block that can be numbered.
spec fn ends_in_reach(entry: EntryModel) -> bool {
    &&& entry.length is Some
    &&& entry.extent->Some_0 + ceil_div(entry.length->Some_0 as int, 2048) <= u32::MAX
}

/// The size of the volume is told.
proof fn size_is_retold(
    iso: IsoModel,
    lengths: Seq<FileLengthModel>,
    layout: LayoutModel,
    blocks: Seq<Block>,
    packing: DirectoryRecordPacking,
    time: DirectoryParentRecordingTime,
    volumes: Seq<JolietModel>,
    state: PlacingModel,
)
    requires
        is_plain_image(iso, lengths, layout, blocks),
        shows_files(iso, lengths),
        volumes.len() == iso.supplementary_volumes.len(),
        texts_end_plainly(iso.primary_volume),
    ensures
        logical_size(
            told_of(iso, lengths, blocks, packing, time, volumes),
            state,
            blocks.len() as u32,
        ) == Ok::<u32, Failure>(size_of_volume(iso, lengths)),
{
    let again = told_of(iso, lengths, blocks, packing, time, volumes);
    let described = places_of(iso, lengths).state;
    let origins = told_origins(iso, described);
    image_is_retold(iso, lengths, layout, blocks, packing, time, volumes);
    descriptor_is_told(iso, lengths, layout, blocks);
    assert(extents_show(iso, described)) by {
        reveal(shows_files);
    }
    assert(audio_ends(iso, described)) by {
        reveal(is_plain_image);
    }
    assert(primary_nodes(again).len() == again.entries.len());
    assert forall|e: int|
        0 <= e < again.entries.len() && (
        #[trigger] again.entries[e]).extent is Some implies ends_in_reach(again.entries[e])
        && is_cdda(again.entries[e].xa) by {
        let k = origins[e];
        assert(0 <= k < primary_nodes(iso).len());
        assert(again.entries[e] == told_entry(iso, described, blocks, k));
        entry_is_told(iso, lengths, layout, blocks, k);
    }
    ends_are_alike(again.entries, blocks.len() as u32, 0);
    let checks = reference_backing_checks(state.xa_extents, again.entries);
    first_failure_ok(checks, 0, again.entries.len() as int);
    assert forall|e: int| 0 <= e < again.entries.len() implies (#[trigger] checks(e)) is Ok by {
        let entry = again.entries[e];
        assert(entry.extent is Some ==> is_cdda(entry.xa));
    }
    reveal(told);
}

/// The sectors of every entry that is told can be framed.
proof fn framing_goes_on(
    iso: IsoModel,
    lengths: Seq<FileLengthModel>,
    layout: LayoutModel,
    blocks: Seq<Block>,
    packing: DirectoryRecordPacking,
    time: DirectoryParentRecordingTime,
    volumes: Seq<JolietModel>,
    labels: Seq<int>,
    entries: Seq<int>,
    marks: SubheaderModel,
    index: int,
)
    requires
        is_plain_image(iso, lengths, layout, blocks),
        shows_files(iso, lengths),
        retells(
            iso,
            told_of(iso, lengths, blocks, packing, time, volumes),
            told_origins(iso, places_of(iso, lengths).state),
        ),
        forall|e: int|
            0 <= e < told_origins(iso, places_of(iso, lengths).state).len()
                ==> #[trigger] told_of(iso, lengths, blocks, packing, time, volumes).entries[e]
                == told_entry(
                iso,
                places_of(iso, lengths).state,
                blocks,
                told_origins(iso, places_of(iso, lengths).state)[e],
            ),
        0 <= index,
    ensures
        frame_entries_from(
            told_of(iso, lengths, blocks, packing, time, volumes),
            with_entries(places_of(iso, lengths).state, entries, labels),
            marks,
            index,
        ) is Ok,
    decreases told_of(iso, lengths, blocks, packing, time, volumes).entries.len() - index,
{
    let again = told_of(iso, lengths, blocks, packing, time, volumes);
    let state = places_of(iso, lengths).state;
    let origins = told_origins(iso, state);
    let placed = with_entries(state, entries, labels);
    if index < again.entries.len() {
        assert(primary_nodes(again).len() == again.entries.len());
        let k = origins[index];
        assert(0 <= k < primary_nodes(iso).len());
        let entry = again.entries[index];
        assert(entry == told_entry(iso, state, blocks, k));
        assert(same_node(primary_nodes(iso)[k], primary_nodes(again)[index]));
        assert(retells_entry(iso, again, k, index));
        let node = primary_nodes(iso)[k];
        assert(is_file(again, entry.path) == !node.directory);
        if !node.directory {
            file_spot_is_told(iso, lengths, layout, blocks, k);
        } else {
            assert(all_are_listed(iso, state.primary.placements)) by {
                plain_image_has(iso, lengths, layout, blocks);
            }
            found_alike(state.primary.placements, entries, entry.path, 0);
            assert(find_directory(state.primary.placements, iso.entries[k].path)
                < state.primary.placements.len());
        }
        let next = frame_entry(again, placed, marks, entry);
        assert(next is Ok);
        framing_goes_on(
            iso,
            lengths,
            layout,
            blocks,
            packing,
            time,
            volumes,
            labels,
            entries,
            next->Ok_0,
            index + 1,
        );
    }
}

/// What stands behind the data of a file in its last block is in no file's data.
proof fn past_data_is_no_data(files: Seq<FileModel>, at: int, offset: int)
    requires
        0 <= at < files.len(),
        forall|i: int, j: int|
            0 <= i < j < files.len() ==> (#[trigger] files[i]).extent + files[i].blocks <= (
            #[trigger] files[j]).extent,
        files[at].extent * 2048 + files[at].length <= offset < (files[at].extent
            + files[at].blocks) * 2048,
        files[at].extent * 2048 <= offset,
    ensures
        forall|f: int| 0 <= f < files.len() ==> !#[trigger] in_data(files[f], offset),
{
    assert forall|f: int| 0 <= f < files.len() implies !#[trigger] in_data(files[f], offset) by {
        if f < at {
            assert(files[f].extent + files[f].blocks <= files[at].extent);
        }
        if at < f {
            assert(files[at].extent + files[at].blocks <= files[f].extent);
        }
    }
}

/// What follows a file's data in its last block, as it is told.
proof fn padding_is_told(
    iso: IsoModel,
    lengths: Seq<FileLengthModel>,
    layout: LayoutModel,
    blocks: Seq<Block>,
    index: int,
) -> (at: int)
    requires
        is_plain_image(iso, lengths, layout, blocks),
        shows_files(iso, lengths),
        0 <= index < iso.entries.len(),
        !primary_nodes(iso)[index].directory,
        iso.entries[index].extent is None,
    ensures
        ({
            let state = places_of(iso, lengths).state;
            let image = image_of_layout(iso, lengths);
            let again = told_entry(iso, state, blocks, index);
            let file = state.files[at];
            let start = (file.extent + file.blocks - 1) * 2048 + file.length % 2048;
            let rest = image.subrange(start, (file.extent + file.blocks) * 2048);
            &&& 0 <= at < state.files.len()
            &&& file_of(again, state.files) == Some(file)
            &&& file_of(iso.entries[index], state.files) == Some(file)
            &&& file.blocks == ceil_div(file.length as int, 2048)
            &&& file.length <= u32::MAX
            &&& (file.extent + file.blocks) * 2048 <= image.len()
            &&& again.allocation_padding_hex == if file.length % 2048 == 0 || used_length(rest, 0)
                == 0 {
                None
            } else {
                Some(hex_text(rest.take(used_length(rest, 0) as int)))
            }
        }),
{
    plain_image_has(iso, lengths, layout, blocks);
    let state = places_of(iso, lengths).state;
    let image = image_of_layout(iso, lengths);
    assert(extents_show(iso, state) && lengths_show(iso, state)) by {
        reveal(shows_files);
    }
    assert(is_filled(layout, blocks) && is_layout(iso, lengths, layout)) by {
        reveal(is_plain_image);
    }
    let at = own_file_is_placed(iso, state, index);
    assert(primary_nodes(iso)[index].directory == false);
    assert(has_own_length(iso, state, index));
    layout_holds_parts(iso, lengths, layout);
    filled_holds_parts(iso, lengths, layout, blocks);
    let filled = filled_image(blocks);
    let spots = spots_of(iso, state);
    let trailing = primary_options(iso).trailing_system_use_padding;
    assert(spots[index] == file_spot(iso.entries[index], state.files));
    let record = model_at(iso, spots, trailing, index);
    let file = state.files[at];
    assert(record.extent == file.extent && record.length == file.length);
    name_is_read(iso, spots, trailing, index);
    audio_is_told(iso, state, index);
    let again = told_entry(iso, state, blocks, index);
    assert(again.allocation_padding_hex == allocation_padding(blocks, record));
    let last = record.extent + record.length / 2048;
    if file.length % 2048 != 0 {
        assert(file.blocks == file.length / 2048 + 1);
        assert(last < blocks.len());
        assert(views(blocks)[last] == blocks[last]@);
        let start = last * 2048 + file.length % 2048;
        assert(blocks[last]@ == filled.subrange(last * 2048, last * 2048 + 2048));
        assert(blocks[last]@.skip((record.length % 2048) as int) =~= filled.subrange(
            start,
            (last + 1) * 2048,
        ));
        assert forall|offset: int| start <= offset < (last + 1) * 2048 implies image[offset]
            == #[trigger] filled[offset] by {
            past_data_is_no_data(state.files, at, offset);
        }
        assert(filled.subrange(start, (last + 1) * 2048) =~= image.subrange(
            start,
            (last + 1) * 2048,
        ));
    }
    at
}

/// Padding that is told stands in the image.
proof fn told_padding_stands(
    iso: IsoModel,
    lengths: Seq<FileLengthModel>,
    layout: LayoutModel,
    blocks: Seq<Block>,
    index: int,
)
    requires
        is_plain_image(iso, lengths, layout, blocks),
        shows_files(iso, lengths),
        0 <= index < iso.entries.len(),
    ensures
        has_padding(
            image_of_layout(iso, lengths),
            told_entry(iso, places_of(iso, lengths).state, blocks, index),
            places_of(iso, lengths).state.files,
        ),
{
    let state = places_of(iso, lengths).state;
    let again = told_entry(iso, state, blocks, index);
    entry_is_told_well(iso, lengths, layout, blocks, index);
    if again.allocation_padding_hex is Some {
        let at = padding_is_told(iso, lengths, layout, blocks, index);
        tail_is_padding(image_of_layout(iso, lengths), again, state.files, state.files[at]);
    }
}

/// Where padding changed the image, padding is told.
proof fn changed_padding_is_told(
    iso: IsoModel,
    lengths: Seq<FileLengthModel>,
    layout: LayoutModel,
    blocks: Seq<Block>,
    offset: int,
) -> (index: int)
    requires
        is_plain_image(iso, lengths, layout, blocks),
        shows_files(iso, lengths),
        0 <= offset < image_of_layout(iso, lengths).len(),
        unpadded_image(iso, places_of(iso, lengths), size_of_volume(iso, lengths))[offset]
            != image_of_layout(iso, lengths)[offset],
    ensures
        0 <= index < iso.entries.len(),
        in_padding(
            told_entry(iso, places_of(iso, lengths).state, blocks, index),
            places_of(iso, lengths).state.files,
            offset,
        ),
{
    let placed = places_of(iso, lengths);
    let state = placed.state;
    let image = image_of_layout(iso, lengths);
    let before = unpadded_image(iso, placed, size_of_volume(iso, lengths));
    assert(is_layout(iso, lengths, layout)) by {
        reveal(is_plain_image);
    }
    assert(before.len() == image.len() && with_paddings_from(
        before,
        iso.entries,
        state.files,
        0,
    ) == Ok::<Seq<u8>, Failure>(image) && files_are_blank(state, table_blocks(placed), before)
        && padding_is_owned(iso.entries)) by {
        layout_holds_parts(iso, lengths, layout);
    }
    paddings_change(before, iso.entries, state.files, 0, offset);
    let k = choose|i: int|
        0 <= i < iso.entries.len() && in_padding(#[trigger] iso.entries[i], state.files, offset)
            && is_padding_sound(iso.entries[i], state.files);
    assert(is_tree(iso)) by {
        plain_image_has(iso, lengths, layout, blocks);
    }
    assert(entry_check(iso, k) is Ok);
    assert(iso.entries[k].extent is None);
    assert(!primary_nodes(iso)[k].directory);
    let at = padding_is_told(iso, lengths, layout, blocks, k);
    let file = state.files[at];
    let start = (file.extent + file.blocks - 1) * 2048 + file.length % 2048;
    let part = Part::File { index: at };
    assert(in_part(state, table_blocks(placed), part, offset)) by {
        assert(takes_blocks(state, table_blocks(placed), part));
    }
    assert(before[offset] == 0);
    let rest = image.subrange(start, (file.extent + file.blocks) * 2048);
    used_length_is_last(rest, 0);
    assert(rest[offset - start] == image[offset]);
    hex_round_trip(rest.take(used_length(rest, 0) as int));
    k
}

/// The padding of files is written again as it was.
proof fn paddings_are_rewritten(
    iso: IsoModel,
    lengths: Seq<FileLengthModel>,
    layout: LayoutModel,
    blocks: Seq<Block>,
    packing: DirectoryRecordPacking,
    time: DirectoryParentRecordingTime,
    volumes: Seq<JolietModel>,
)
    requires
        is_plain_image(iso, lengths, layout, blocks),
        shows_files(iso, lengths),
        volumes.len() == iso.supplementary_volumes.len(),
    ensures
        with_paddings_from(
            unpadded_image(iso, places_of(iso, lengths), size_of_volume(iso, lengths)),
            told_of(iso, lengths, blocks, packing, time, volumes).entries,
            places_of(iso, lengths).state.files,
            0,
        ) == Ok::<Seq<u8>, Failure>(image_of_layout(iso, lengths)),
{
    image_is_retold(iso, lengths, layout, blocks, packing, time, volumes);
    let placed = places_of(iso, lengths);
    let state = placed.state;
    let origins = told_origins(iso, state);
    let again = told_of(iso, lengths, blocks, packing, time, volumes);
    let image = image_of_layout(iso, lengths);
    let before = unpadded_image(iso, placed, size_of_volume(iso, lengths));
    assert(before.len() == image.len()) by {
        reveal(is_plain_image);
        layout_holds_parts(iso, lengths, layout);
    }
    assert(primary_nodes(again).len() == again.entries.len());
    assert forall|e: int| 0 <= e < again.entries.len() implies has_padding(
        image,
        #[trigger] again.entries[e],
        state.files,
    ) by {
        assert(again.entries[e] == told_entry(iso, state, blocks, origins[e]));
        assert(0 <= origins[e] < primary_nodes(iso).len());
        told_padding_stands(iso, lengths, layout, blocks, origins[e]);
    }
    assert forall|offset: int|
        0 <= offset < before.len() && #[trigger] before[offset]
            != image[offset] implies exists|e: int|
        0 <= e < again.entries.len() && in_padding(
            #[trigger] again.entries[e],
            state.files,
            offset,
        ) by {
        let k = changed_padding_is_told(iso, lengths, layout, blocks, offset);
        assert(0 <= k < primary_nodes(iso).len());
        assert(origins.contains(k));
        let e = choose|e: int| 0 <= e < origins.len() && origins[e] == k;
        assert(again.entries[e] == told_entry(iso, state, blocks, origins[e]));
    }
    paddings_lead_to(image, before, again.entries, state.files, 0);
}

/// The records of an image are told as they are.
proof fn told_records_hold(
    iso: IsoModel,
    lengths: Seq<FileLengthModel>,
    layout: LayoutModel,
    blocks: Seq<Block>,
    packing: DirectoryRecordPacking,
    time: DirectoryParentRecordingTime,
    volumes: Seq<JolietModel>,
)
    requires
        is_plain_image(iso, lengths, layout, blocks),
        shows_files(iso, lengths),
        volumes.len() == iso.supplementary_volumes.len(),
        texts_end_plainly(iso.primary_volume),
        application_use_shows(iso),
        packing == iso.directory_record_packing || (packing == DirectoryRecordPacking::Fill
            && have_plain_packing(iso, places_of(iso, lengths).state, 0)),
        time == iso.directory_parent_recording_time || (time
            == DirectoryParentRecordingTime::Parent && have_times_of_parents(
            iso,
            places_of(iso, lengths).state,
            0,
        )),
    ensures
        records_are_told(
            iso,
            told_of(iso, lengths, blocks, packing, time, volumes),
            told_origins(iso, places_of(iso, lengths).state),
            places_of(iso, lengths).state,
        ),
{
    let state = places_of(iso, lengths).state;
    let origins = told_origins(iso, state);
    let again = told_of(iso, lengths, blocks, packing, time, volumes);
    image_is_retold(iso, lengths, layout, blocks, packing, time, volumes);
    assert(again.directory_record_packing == packing && again.directory_parent_recording_time
        == time) by {
        reveal(told);
    }
    assert(primary_options(again).trailing_system_use_padding == primary_options(
        iso,
    ).trailing_system_use_padding || !iso.xa_system_use) by {
        descriptor_is_told(iso, lengths, layout, blocks);
        if iso.xa_system_use {
            padding_place_is_told(
                iso,
                descriptor_of(iso, places_of(iso, lengths), size_of_volume(iso, lengths)),
            );
        }
        reveal(told);
    }
    assert forall|e: int|
        0 <= e < origins.len() && !primary_nodes(iso)[
            #[trigger] origins[e]
        ].directory implies file_spot(again.entries[e], state.files) == file_spot(
        iso.entries[origins[e]],
        state.files,
    ) by {
        assert(again.entries[e] == told_entry(iso, state, blocks, origins[e]));
        assert(0 <= origins[e] < primary_nodes(iso).len());
        file_spot_is_told(iso, lengths, layout, blocks, origins[e]);
    }
}

/// Path tables can be written, and fill their blocks alike.
pub open spec fn tables_match(
    directories: Seq<PlacementModel>,
    again: Seq<PlacementModel>,
    plan: TablePlan,
    hex: (Option<Seq<char>>, Option<Seq<char>>),
    hex_again: (Option<Seq<char>>, Option<Seq<char>>),
) -> bool {
    let bytes = table_bytes(directories, plan.size, hex.0, hex.1);
    let bytes_again = table_bytes(again, plan.size, hex_again.0, hex_again.1);
    bytes is Ok && bytes_again is Ok && fill_alike(bytes->Ok_0, bytes_again->Ok_0, plan.blocks)
}

/// The Joliet volume that is told of an image, if there is one, is written as the image
/// has it.
pub open spec fn joliet_is_rewritten(
    iso: IsoModel,
    told: IsoModel,
    placed: Placed,
    size: u32,
    labels: Seq<int>,
) -> bool {
    let state = placed.state;
    let again = with_entries(state, Seq::empty(), labels);
    placed.joliet matches Some(plan) ==> {
        let volume = iso.supplementary_volumes[0];
        let volume_again = told.supplementary_volumes[0];
        &&& svd_block(volume_again, joliet_place(again, plan.table, size)) == svd_block(
            volume,
            joliet_place(state, plan.table, size),
        )
        &&& tables_match(
            state.joliet.placements,
            again.joliet.placements,
            plan.table,
            (volume.path_table_little_hex, volume.path_table_big_hex),
            (volume_again.path_table_little_hex, volume_again.path_table_big_hex),
        )
        &&& forall|image: Seq<u8>|
            (#[trigger] with_joliet_directories_from(
                plan.nodes,
                joliet_spots(iso, state, volume),
                state.joliet.placements,
                joliet_options(iso, volume),
                image,
                0,
            )) is Ok ==> with_joliet_directories_from(
                joliet_plan(told)->Ok_0.nodes,
                joliet_spots(told, again, volume_again),
                again.joliet.placements,
                joliet_options(told, volume_again),
                image,
                0,
            ) == with_joliet_directories_from(
                plan.nodes,
                joliet_spots(iso, state, volume),
                state.joliet.placements,
                joliet_options(iso, volume),
                image,
                0,
            )
    }
}

/// The descriptors of what is told are those of the image.
proof fn told_descriptors_are_written(
    iso: IsoModel,
    lengths: Seq<FileLengthModel>,
    layout: LayoutModel,
    blocks: Seq<Block>,
    packing: DirectoryRecordPacking,
    time: DirectoryParentRecordingTime,
    volumes: Seq<JolietModel>,
    labels: Seq<int>,
    entries: Seq<int>,
    image: Seq<u8>,
)
    requires
        is_plain_image(iso, lengths, layout, blocks),
        shows_files(iso, lengths),
        volumes.len() == iso.supplementary_volumes.len(),
        texts_end_plainly(iso.primary_volume),
        entries.len() == places_of(iso, lengths).state.primary.placements.len(),
        joliet_is_rewritten(
            iso,
            told_of(iso, lengths, blocks, packing, time, volumes),
            places_of(iso, lengths),
            size_of_volume(iso, lengths),
            labels,
        ),
        joliet_is_replanned(
            told_of(iso, lengths, blocks, packing, time, volumes),
            places_of(iso, lengths),
            labels,
        ),
    ensures
        with_descriptors(
            told_of(iso, lengths, blocks, packing, time, volumes),
            placed_again(
                told_of(iso, lengths, blocks, packing, time, volumes),
                places_of(iso, lengths),
                entries,
                labels,
            ),
            size_of_volume(iso, lengths),
            image,
        ) == with_descriptors(
            iso,
            places_of(iso, lengths),
            size_of_volume(iso, lengths),
            image,
        ),
{
    let placed = places_of(iso, lengths);
    let state = placed.state;
    let size = size_of_volume(iso, lengths);
    let again = told_of(iso, lengths, blocks, packing, time, volumes);
    let origins = told_origins(iso, state);
    image_is_retold(iso, lengths, layout, blocks, packing, time, volumes);
    assert(again.entries[0] == told_entry(iso, state, blocks, origins[0]));
    assert(retells_entry(iso, again, origins[0], 0));
    assert(again.entries[0].recording_time == read_time(iso, 0));
    descriptor_is_rewritten(iso, lengths, layout, blocks, again.entries[0]);
    descriptor_is_told(iso, lengths, layout, blocks);
    assert(again.primary_volume == told_volume(iso, placed, size, blocks)) by {
        reveal(told);
    }
    assert(iso.supplementary_volumes.len() <= 1) by {
        reveal(is_plain_image);
        reveal(is_layout);
    }
    plain_image_has(iso, lengths, layout, blocks);
    tables_stand_apart(iso, lengths, placed);
    assert(state.primary.placements.len() > 0);
    let state_again = placed_again(again, placed, entries, labels).state;
    assert(primary_place(state_again, placed.table, size) == primary_place(
        state,
        placed.table,
        size,
    ));
    if let Some(plan) = placed.joliet {
        let middle = with_entries(state, Seq::empty(), labels);
        assert(joliet_place(state_again, plan.table, size) == joliet_place(
            middle,
            plan.table,
            size,
        ));
    }
    reveal(with_descriptors);
}

/// The primary path tables of what is told are those of the image, and nothing comes to
/// stand where those of the Joliet volume do.
proof fn told_primary_tables_are_written(
    iso: IsoModel,
    told: IsoModel,
    placed: Placed,
    entries: Seq<int>,
    image: Seq<u8>,
)
    requires
        are_apart(placed.state, table_blocks(placed), descriptors_end(iso)),
        placed.state.tables.len() == 4,
        placed.table.blocks > 0,
        tables_match(
            placed.state.primary.placements,
            relabelled(placed.state.primary.placements, entries),
            placed.table,
            (iso.path_table_little_hex, iso.path_table_big_hex),
            (told.path_table_little_hex, told.path_table_big_hex),
        ),
        image.len() == placed.state.next * 2048,
        tables_are_blank(
            placed.state,
            table_blocks(placed),
            MetadataVolume::Primary,
            image,
        ),
        tables_are_blank(placed.state, table_blocks(placed), MetadataVolume::Joliet, image),
    ensures
        ({
            let directories = placed.state.primary.placements;
            let extents = placed.state.tables;
            let written = with_tables(
                image,
                directories,
                extents,
                placed.table,
                iso.path_table_little_hex,
                iso.path_table_big_hex,
            );
            &&& written is Ok
            &&& written->Ok_0.len() == image.len()
            &&& with_tables(
                image,
                relabelled(directories, entries),
                extents,
                placed.table,
                told.path_table_little_hex,
                told.path_table_big_hex,
            ) == written
            &&& tables_are_blank(
                placed.state,
                table_blocks(placed),
                MetadataVolume::Joliet,
                written->Ok_0,
            )
        }),
{
    let state = placed.state;
    let tables = table_blocks(placed);
    let base = descriptors_end(iso);
    let directories = state.primary.placements;
    assert(tables_of(state, MetadataVolume::Primary) == state.tables);
    tables_are_written_alike(
        MetadataVolume::Primary,
        directories,
        relabelled(directories, entries),
        placed.table,
        (iso.path_table_little_hex, iso.path_table_big_hex),
        (told.path_table_little_hex, told.path_table_big_hex),
        state,
        tables,
        base,
        image,
    );
    tables_are_written(
        MetadataVolume::Primary,
        directories,
        placed.table,
        iso.path_table_little_hex,
        iso.path_table_big_hex,
        state,
        tables,
        base,
        image,
    );
    let written = with_tables(
        image,
        directories,
        state.tables,
        placed.table,
        iso.path_table_little_hex,
        iso.path_table_big_hex,
    )->Ok_0;
    other_tables_stay_blank(state, tables, base, image, written);
}

/// The path tables of what is told are those of the image.
proof fn told_tables_are_written(
    iso: IsoModel,
    told: IsoModel,
    placed: Placed,
    size: u32,
    entries: Seq<int>,
    labels: Seq<int>,
    image: Seq<u8>,
)
    requires
        are_apart(placed.state, table_blocks(placed), descriptors_end(iso)),
        placed.state.tables.len() == 4,
        placed.state.joliet_tables.len() == 4,
        placed.table.blocks > 0,
        placed.joliet matches Some(plan) ==> plan.table.blocks > 0,
        joliet_is_rewritten(iso, told, placed, size, labels),
        joliet_is_replanned(told, placed, labels),
        tables_match(
            placed.state.primary.placements,
            relabelled(placed.state.primary.placements, entries),
            placed.table,
            (iso.path_table_little_hex, iso.path_table_big_hex),
            (told.path_table_little_hex, told.path_table_big_hex),
        ),
        image.len() == placed.state.next * 2048,
        forall|offset: int|
            descriptors_end(iso) * 2048 <= offset < image.len() ==> #[trigger] image[offset] == 0,
    ensures
        with_all_tables(told, placed_again(told, placed, entries, labels), image)
            == with_all_tables(iso, placed, image),
{
    let state = placed.state;
    let tables = table_blocks(placed);
    let base = descriptors_end(iso);
    blank_behind_descriptors(state, tables, base, image, MetadataVolume::Primary);
    blank_behind_descriptors(state, tables, base, image, MetadataVolume::Joliet);
    told_primary_tables_are_written(iso, told, placed, entries, image);
    if let Some(plan) = placed.joliet {
        let volume = iso.supplementary_volumes[0];
        let volume_again = told.supplementary_volumes[0];
        let second = with_tables(
            image,
            state.primary.placements,
            state.tables,
            placed.table,
            iso.path_table_little_hex,
            iso.path_table_big_hex,
        )->Ok_0;
        assert(tables_of(state, MetadataVolume::Joliet) == state.joliet_tables);
        tables_are_written_alike(
            MetadataVolume::Joliet,
            state.joliet.placements,
            relabelled(state.joliet.placements, labels),
            plan.table,
            (volume.path_table_little_hex, volume.path_table_big_hex),
            (volume_again.path_table_little_hex, volume_again.path_table_big_hex),
            state,
            tables,
            base,
            second,
        );
    }
    reveal(with_all_tables);
}

/// The directories of what is told are those of the image.
proof fn told_directories_are_written(
    iso: IsoModel,
    told: IsoModel,
    origins: Seq<int>,
    placed: Placed,
    size: u32,
    entries: Seq<int>,
    labels: Seq<int>,
    image: Seq<u8>,
)
    requires
        is_tree(iso),
        are_sized(iso, placed.state.primary.placements),
        retells(iso, told, origins),
        records_are_told(iso, told, origins, placed.state),
        are_entries_of(placed.state.primary.placements, entries, origins),
        joliet_is_rewritten(iso, told, placed, size, labels),
        joliet_is_replanned(told, placed, labels),
        with_all_directories(iso, placed, image) is Ok,
    ensures
        with_all_directories(told, placed_again(told, placed, entries, labels), image)
            == with_all_directories(iso, placed, image),
{
    reveal(with_all_directories);
    let state = placed.state;
    directories_are_rewritten(iso, told, origins, state, entries, image, 0);
    let nodes = primary_nodes(told);
    let again = with_entries(state, entries, labels);
    let plain = with_entries(state, entries, Seq::empty());
    let middle = with_entries(state, Seq::empty(), labels);
    assert(primary_spots(told, again, nodes) =~= primary_spots(told, plain, nodes));
    if placed.joliet is Some {
        let volume = told.supplementary_volumes[0];
        assert(joliet_spots(told, again, volume) =~= joliet_spots(told, middle, volume));
    }
}

/// The image of what is told is the image that it is told of.
proof fn image_is_rewritten(
    iso: IsoModel,
    lengths: Seq<FileLengthModel>,
    layout: LayoutModel,
    blocks: Seq<Block>,
    packing: DirectoryRecordPacking,
    time: DirectoryParentRecordingTime,
    volumes: Seq<JolietModel>,
    labels: Seq<int>,
    entries: Seq<int>,
)
    requires
        is_plain_image(iso, lengths, layout, blocks),
        shows_files(iso, lengths),
        volumes.len() == iso.supplementary_volumes.len(),
        texts_end_plainly(iso.primary_volume),
        records_are_told(
            iso,
            told_of(iso, lengths, blocks, packing, time, volumes),
            told_origins(iso, places_of(iso, lengths).state),
            places_of(iso, lengths).state,
        ),
        are_entries_of(
            places_of(iso, lengths).state.primary.placements,
            entries,
            told_origins(iso, places_of(iso, lengths).state),
        ),
        joliet_is_rewritten(
            iso,
            told_of(iso, lengths, blocks, packing, time, volumes),
            places_of(iso, lengths),
            size_of_volume(iso, lengths),
            labels,
        ),
        joliet_is_replanned(
            told_of(iso, lengths, blocks, packing, time, volumes),
            places_of(iso, lengths),
            labels,
        ),
    ensures
        image_of(
            told_of(iso, lengths, blocks, packing, time, volumes),
            placed_again(
                told_of(iso, lengths, blocks, packing, time, volumes),
                places_of(iso, lengths),
                entries,
                labels,
            ),
            size_of_volume(iso, lengths),
        ) == Ok::<Seq<u8>, Failure>(image_of_layout(iso, lengths)),
{
    let placed = places_of(iso, lengths);
    let state = placed.state;
    let size = size_of_volume(iso, lengths);
    let again = told_of(iso, lengths, blocks, packing, time, volumes);
    let origins = told_origins(iso, state);
    let state_again = placed_again(again, placed, entries, labels).state;
    let empty = fill((state.next * 2048) as nat, 0);
    plain_image_has(iso, lengths, layout, blocks);
    image_is_retold(iso, lengths, layout, blocks, packing, time, volumes);
    told_descriptors_are_written(
        iso,
        lengths,
        layout,
        blocks,
        packing,
        time,
        volumes,
        labels,
        entries,
        empty,
    );
    assert(image_of(iso, placed, size) == Ok::<Seq<u8>, Failure>(image_of_layout(iso, lengths))) by {
        reveal(is_plain_image);
        reveal(is_layout);
        reveal(image_of_layout);
        reveal(places_of);
        reveal(size_of_volume);
    }
    let first = with_descriptors(iso, placed, size, empty)->Ok_0;
    tables_are_rewritten(iso, lengths, layout, blocks, entries);
    assert(again.path_table_little_hex == told_tables(iso, placed).little
        && again.path_table_big_hex == told_tables(iso, placed).big) by {
        reveal(told);
    }
    assert(is_layout(iso, lengths, layout)) by {
        reveal(is_plain_image);
    }
    assert(first.len() == empty.len() && forall|offset: int|
        descriptors_end(iso) * 2048 <= offset < first.len() ==> #[trigger] first[offset] == 0) by {
        parts_are_apart(iso, lengths, placed);
        layout_holds_parts(iso, lengths, layout);
        descriptors_are_written(iso, placed, size, empty);
    }
    assert(are_apart(state, table_blocks(placed), descriptors_end(iso)) && state.tables.len() == 4
        && state.joliet_tables.len() == 4 && placed.table.blocks > 0 && (placed.joliet matches Some(
        plan,
    ) ==> plan.table.blocks > 0)) by {
        parts_are_apart(iso, lengths, placed);
    }
    told_tables_are_written(iso, again, placed, size, entries, labels, first);
    let second = with_all_tables(iso, placed, first)->Ok_0;
    told_directories_are_written(
        iso,
        again,
        origins,
        placed,
        size,
        entries,
        labels,
        second,
    );
    let third = with_all_directories(iso, placed, second)->Ok_0;
    assert(third == unpadded_image(iso, placed, size)) by {
        reveal(unpadded_image);
    }
    paddings_are_rewritten(iso, lengths, layout, blocks, packing, time, volumes);
}

/// A layout is made of places, subheaders and an image.
proof fn layout_is_assembled(
    iso: IsoModel,
    lengths: Seq<FileLengthModel>,
    placed: Placed,
    size: u32,
    image: Seq<u8>,
)
    requires
        description_check(iso) is Ok,
        placed_filesystem(iso, lengths) == Ok::<Placed, Failure>(placed),
        placed.state.trailing is None,
        logical_size(iso, placed.state, placed.state.next) == Ok::<u32, Failure>(size),
        subheaders_of(
            iso,
            placed.state,
            placed.table.blocks,
            match placed.joliet {
                Some(plan) => plan.table.blocks,
                None => 0,
            },
        ) is Ok,
        placed.state.next * 2048 <= usize::MAX,
        image_of(iso, placed, size) == Ok::<Seq<u8>, Failure>(image),
    ensures
        layout_of(iso, lengths) matches Ok(layout) && layout.blocks == blocks_of(image)
            && layout.files == placed.state.files,
{
}

/// What is told of an image is placed as the image has it.
proof fn told_is_placed(
    iso: IsoModel,
    lengths: Seq<FileLengthModel>,
    layout: LayoutModel,
    blocks: Seq<Block>,
    packing: DirectoryRecordPacking,
    time: DirectoryParentRecordingTime,
    volumes: Seq<JolietModel>,
    labels: Seq<int>,
) -> (entries: Seq<int>)
    requires
        is_plain_image(iso, lengths, layout, blocks),
        shows_files(iso, lengths),
        volumes.len() == iso.supplementary_volumes.len(),
        slack_shows(iso),
        packing == iso.directory_record_packing || (packing == DirectoryRecordPacking::Fill
            && have_plain_packing(iso, places_of(iso, lengths).state, 0)),
        joliet_is_replanned(
            told_of(iso, lengths, blocks, packing, time, volumes),
            places_of(iso, lengths),
            labels,
        ),
    ensures
        are_entries_of(
            places_of(iso, lengths).state.primary.placements,
            entries,
            told_origins(iso, places_of(iso, lengths).state),
        ),
        placed_filesystem(told_of(iso, lengths, blocks, packing, time, volumes), lengths) == Ok::<
            Placed,
            Failure,
        >(placed_again(
                told_of(iso, lengths, blocks, packing, time, volumes),
                places_of(iso, lengths),
                entries,
                labels,
            )),
{
    let placed = places_of(iso, lengths);
    let again = told_of(iso, lengths, blocks, packing, time, volumes);
    let origins = told_origins(iso, placed.state);
    image_is_retold(iso, lengths, layout, blocks, packing, time, volumes);
    told_sizes_hold(iso, lengths, layout, blocks, packing);
    tables_are_rewritten(iso, lengths, layout, blocks, Seq::empty());
    assert(again.directory_record_packing == packing && again.path_table_size == told_tables(iso, placed).size) by {
        reveal(told);
    }
    assert(iso.supplementary_volumes.len() <= 1) by {
        reveal(is_plain_image);
        reveal(is_layout);
    }
    assert(placed_filesystem(iso, lengths) == Ok::<Placed, Failure>(placed)) by {
        plain_image_has(iso, lengths, layout, blocks);
    }
    places_are_retold(iso, again, origins, lengths, placed, labels)
}

/// The sectors of what is told of an image can be framed.
proof fn told_is_framed(
    iso: IsoModel,
    lengths: Seq<FileLengthModel>,
    layout: LayoutModel,
    blocks: Seq<Block>,
    packing: DirectoryRecordPacking,
    time: DirectoryParentRecordingTime,
    volumes: Seq<JolietModel>,
    labels: Seq<int>,
    entries: Seq<int>,
    joliet_blocks: u32,
)
    requires
        is_plain_image(iso, lengths, layout, blocks),
        shows_files(iso, lengths),
        volumes.len() == iso.supplementary_volumes.len(),
    ensures
        subheaders_of(
            told_of(iso, lengths, blocks, packing, time, volumes),
            with_entries(places_of(iso, lengths).state, entries, labels),
            places_of(iso, lengths).table.blocks,
            joliet_blocks,
        ) is Ok,
{
    let placed = places_of(iso, lengths);
    let again = told_of(iso, lengths, blocks, packing, time, volumes);
    let state_again = with_entries(placed.state, entries, labels);
    image_is_retold(iso, lengths, layout, blocks, packing, time, volumes);
    let none = SubheaderModel {
        data: Set::empty(),
        end_of_file: Set::empty(),
        metadata: Set::empty(),
        framing: Map::empty(),
        file_numbers: Map::empty(),
    };
    let framed = frame_tables_from(again, none, state_again.tables, placed.table.blocks, 0);
    let marks = if again.supplementary_volumes.len() > 0 {
        mark_directories_from(
            mark_tables_from(
                framed,
                state_again.joliet_tables + state_again.tables,
                state_again.joliet_tables,
                placed.table.blocks,
                joliet_blocks,
                0,
            ),
            state_again.joliet.placements,
            0,
        )
    } else {
        framed
    };
    framing_goes_on(iso, lengths, layout, blocks, packing, time, volumes, labels, entries, marks, 0);
}

/// What is told of an image is laid out as the image.
pub proof fn told_is_laid_out(
    iso: IsoModel,
    lengths: Seq<FileLengthModel>,
    layout: LayoutModel,
    blocks: Seq<Block>,
    packing: DirectoryRecordPacking,
    time: DirectoryParentRecordingTime,
    volumes: Seq<JolietModel>,
    labels: Seq<int>,
)
    requires
        is_plain_image(iso, lengths, layout, blocks),
        shows_files(iso, lengths),
        volumes.len() == iso.supplementary_volumes.len(),
        texts_end_plainly(iso.primary_volume),
        application_use_shows(iso),
        slack_shows(iso),
        packing == iso.directory_record_packing || (packing == DirectoryRecordPacking::Fill
            && have_plain_packing(iso, places_of(iso, lengths).state, 0)),
        time == iso.directory_parent_recording_time || (time
            == DirectoryParentRecordingTime::Parent && have_times_of_parents(
            iso,
            places_of(iso, lengths).state,
            0,
        )),
        volumes.len() > 0 ==> joliet_passes(iso, volumes[0]),
        joliet_is_rewritten(
            iso,
            told_of(iso, lengths, blocks, packing, time, volumes),
            places_of(iso, lengths),
            size_of_volume(iso, lengths),
            labels,
        ),
        joliet_is_replanned(
            told_of(iso, lengths, blocks, packing, time, volumes),
            places_of(iso, lengths),
            labels,
        ),
    ensures
        layout_of(told_of(iso, lengths, blocks, packing, time, volumes), lengths) matches Ok(again)
            && again.blocks == layout.blocks && again.files == layout.files,
{
    let placed = places_of(iso, lengths);
    let state = placed.state;
    let again = told_of(iso, lengths, blocks, packing, time, volumes);
    assert(description_check(again) is Ok) by {
        descriptor_is_told(iso, lengths, layout, blocks);
        told_passes(iso, lengths, layout, blocks, packing, time, volumes);
    }
    told_records_hold(iso, lengths, layout, blocks, packing, time, volumes);
    let entries = told_is_placed(iso, lengths, layout, blocks, packing, time, volumes, labels);
    image_is_rewritten(
        iso,
        lengths,
        layout,
        blocks,
        packing,
        time,
        volumes,
        labels,
        entries,
    );
    let placed_told = placed_again(again, placed, entries, labels);
    assert(state.next == blocks.len() && state.trailing is None && layout.files == state.files) by {
        plain_image_has(iso, lengths, layout, blocks);
    }
    size_is_retold(iso, lengths, layout, blocks, packing, time, volumes, placed_told.state);
    let joliet_blocks = match placed_told.joliet {
        Some(plan) => plan.table.blocks,
        None => 0,
    };
    told_is_framed(
        iso,
        lengths,
        layout,
        blocks,
        packing,
        time,
        volumes,
        labels,
        entries,
        joliet_blocks,
    );
    assert(state.next * 2048 <= usize::MAX && layout.blocks == blocks_of(
        image_of_layout(iso, lengths),
    )) by {
        image_fits(iso, lengths, layout, blocks);
    }
    layout_is_assembled(
        again,
        lengths,
        placed_told,
        size_of_volume(iso, lengths),
        image_of_layout(iso, lengths),
    );
}

proof fn image_fits(
    iso: IsoModel,
    lengths: Seq<FileLengthModel>,
    layout: LayoutModel,
    blocks: Seq<Block>,
)
    requires
        is_plain_image(iso, lengths, layout, blocks),
    ensures
        places_of(iso, lengths).state.next * 2048 <= usize::MAX,
        layout.blocks == blocks_of(image_of_layout(iso, lengths)),
{
    reveal(is_plain_image);
    layout_holds_parts(iso, lengths, layout);
    reveal(is_layout);
    reveal(places_of);
}

/// What was laid out is rebuilt from what is read of it: an image without a Joliet
/// volume is read, whatever the data of its files, and the description that is read of it
/// is laid out as the same blocks, with the files where they were, whatever the order in
/// which its entries were described, however its records are packed, whosever time its
/// parent records carry, and however its times and sectors were described. The file area
/// holds nothing but files, and the order in which they are read is the one described, as
/// it is wherever all of them have data. Directories are as long as their blocks.
///
/// Left out are images of which not everything is read: bytes behind the records of a
/// directory among which a record could begin, or that are zero to the end of a block
/// that nothing else of the directory reaches; path tables that cannot be read, or of
/// which less than there is is recorded; audio that would end past the last block that has a number; fixed extents that are not
/// read as audio; files whose records give another length than their data has, or say
/// that their sectors are of form 2; texts of the descriptor that end in NULs; and an
/// application-use field that is given by its bytes though it has a name and moves the
/// padding of records.
pub proof fn layout_is_rebuilt(
    iso: IsoModel,
    lengths: Seq<FileLengthModel>,
    layout: LayoutModel,
    blocks: Seq<Block>,
)
    requires
        is_layout(iso, lengths, layout),
        is_filled(layout, blocks),
        iso.supplementary_volumes.len() == 0,
        lengths_are_told(iso, places_of(iso, lengths)),
        forall|i: int| 0 <= i < iso.files.len() ==> (#[trigger] iso.files[i]) is Path,
        file_order(told_tally(iso, places_of(iso, lengths).state).files) == iso.files,
        extents_show(iso, places_of(iso, lengths).state),
        lengths_show(iso, places_of(iso, lengths).state),
        forms_show(iso, places_of(iso, lengths).state),
        texts_end_plainly(iso.primary_volume),
        application_use_shows(iso),
        slack_shows(iso),
        has_quiet_slack(iso, places_of(iso, lengths).state),
        has_readable_tables(iso, places_of(iso, lengths)),
        tables_show(iso, places_of(iso, lengths)),
        audio_ends(iso, places_of(iso, lengths).state),
        blocks.len() > 22,
    ensures
        parsed_iso(blocks) is Ok,
        layout_of(parsed_iso(blocks)->Ok_0.manifest, lengths) matches Ok(again) && again.blocks
            == layout.blocks && again.files == layout.files && is_filled(again, blocks),
{
    image_is_parsed(iso, lengths, layout, blocks);
    let manifest = parsed_iso(blocks)->Ok_0.manifest;
    assert(is_plain_image(iso, lengths, layout, blocks)) by {
        reveal(is_plain_image);
    }
    assert(shows_files(iso, lengths)) by {
        reveal(shows_files);
    }
    plain_image_has(iso, lengths, layout, blocks);
    assert(iso.metadata_layout =~= Seq::empty()) by {
        assert(metadata_check(iso) is Ok);
    }
    assert(manifest == told_of(
        iso,
        lengths,
        blocks,
        manifest.directory_record_packing,
        manifest.directory_parent_recording_time,
        Seq::empty(),
    )) by {
        reveal(told);
    }
    assert(places_of(iso, lengths).joliet is None);
    told_is_laid_out(
        iso,
        lengths,
        layout,
        blocks,
        manifest.directory_record_packing,
        manifest.directory_parent_recording_time,
        Seq::empty(),
        Seq::empty(),
    );
    reveal(is_filled);
}

} // verus!
