//! An image that was laid out is read as what it was laid out from.
use vstd::prelude::*;
use vstd::utf8::encode_utf8_decode_utf8;

use crate::bytes::field;
use crate::error::{ErrorKind, Failure};
use crate::iso9660::description::{
    EntryModel, IdentifierPolicy, IsoModel, PathTableCopies, VolumeModel,
};
use crate::iso9660::descriptor::parsed_volume;
use crate::iso9660::descriptor_laws::{pvd_is_read, pvd_tells, svd_tells};
use crate::iso9660::descriptor_write::{
    descriptor_signature, pvd_block, pvd_root, record_flags, root_length_check, root_name,
    root_record, root_time, svd_block, PlaceModel,
};
use crate::iso9660::directory::{directory_records, SpotModel};
use crate::iso9660::directory_laws::{node_model, parent_model, recording_time_length, shows};
use crate::iso9660::fields::{both16_round_trip, both32_round_trip};
use crate::iso9660::image_laws::{
    descriptors_lie, holds_parts, lies_at, table_data, table_part, tables_lie,
};
use crate::iso9660::layout::{
    blocks_of, joliet_place, layout_of, logical_end_from, placed_filesystem, primary_options,
    primary_place, primary_spots, table_bytes, table_plan, table_size_from, table_size_grows,
    trailing_sectors, LayoutModel, Placed, TablePlan,
};
use crate::iso9660::layout_laws::{
    extent_is_read, filled_holds_parts, filled_image, is_filled, is_layout, layout_holds_parts,
    places_of, size_of_volume,
};
use crate::iso9660::joliet_parse;
use crate::iso9660::joliet_parse::{table_inside, table_pointers, TableRecord};
use crate::iso9660::metadata::TablesModel;
use crate::iso9660::order::{comes_before, stable_order, stable_order_sorts};
use crate::iso9660::order_laws::is_held;
use crate::iso9660::parse::{
    copies_from, external_end_from, file_order, first_of, is_descriptor, parsed_iso, plain_parsed,
    present_tables, primary_head, primary_placements_from, primary_root, primary_start,
    primary_tables, sorted_extents, table_padding, volume_set, PrimaryHead, PrimaryRoot, VolumeSet,
};
use crate::iso9660::path_table::{
    extent_bytes, find_directory, has_children, has_references, parsed_path_table, path_table,
    reference_check, references_check, references_check_from, PathRecordModel, PlacementModel,
};
use crate::iso9660::path_table_laws::{path_table_survives, table_record};
use crate::iso9660::placing::{FileLengthModel, PlacingModel};
use crate::iso9660::placing_laws::{
    are_sized, descriptors_end, end_of, found_directory_is_there, parts_are_apart, primary_order,
    table_blocks, takes_blocks, Part,
};
use crate::iso9660::reading_laws::{has_quiet_slack, layout_is_walkable};
use crate::iso9660::record::{is_cdda, parsed_xa, record_layout, system_use_bytes, RecordModel};
use crate::iso9660::record_laws::record_parts;
use crate::iso9660::subheaders::referenced_file;
use crate::iso9660::table_laws::{
    alike_are_found_alike, alike_are_written_alike, are_listed_alike, joliet_tables_are_placed,
    name_is_listed, parents_are_numbered, places_are_found, size_is_found, table_has_size,
    tables_are_placed,
};
use crate::iso9660::time::{recording_time_bytes, recording_time_text};
use crate::iso9660::told_entries_laws::reference_stays;
use crate::iso9660::tree::{is_child, primary_nodes};
use crate::iso9660::tree_walk_laws::{
    all_found, directories_follow_order, found_of, have_plain_packing, have_times_of_parents, is_of,
    is_readable, is_reference, is_walkable, read_time, records_are_accepted, reference_is_empty,
    tree_entries_from, tree_tally_from, walk_finds_tree, with_told_slack,
};
use crate::iso9660::validate::{description_check, entry_check, has_child, metadata_check};
use crate::iso9660::walk::walked_from;
use crate::iso9660::walk_laws::{
    child_entries_from, children_are_written, flags_tell, is_tree, is_written, models_stay_first,
    name_is_read, read_entry, tally_of, xa_at, Tally,
};
use crate::manifest::{
    DirectoryLengthPolicy, DirectoryParentRecordingTime, DirectoryRecordPacking,
    EntrySectorSubheader, IsoMetadataSubheader, MetadataVolume, PathTableOrder,
};
use crate::model::{ceil_div, views};
use crate::raw_cd::Block;
use crate::text::{last_index_of_is_last, name_of, root_path, utf8};

verus! {

/// Where the records of the primary tree point.
pub open spec fn spots_of(iso: IsoModel, state: PlacingModel) -> Seq<SpotModel> {
    primary_spots(iso, state, primary_nodes(iso))
}

/// An entry is what is read of the one at `index`, whatever stands behind the records
/// of a directory.
pub open spec fn comes_from(
    iso: IsoModel,
    state: PlacingModel,
    blocks: Seq<Block>,
    entry: EntryModel,
    index: int,
) -> bool {
    &&& 0 <= index < iso.entries.len()
    &&& is_written(iso, spots_of(iso, state), index)
    &&& entry == (EntryModel {
        directory_slack: entry.directory_slack,
        ..read_entry(
            iso,
            spots_of(iso, state),
            primary_options(iso).trailing_system_use_padding,
            blocks,
            index,
        )
    })
}

/// An entry is what is read of one of those described.
pub open spec fn is_read_of(
    iso: IsoModel,
    state: PlacingModel,
    blocks: Seq<Block>,
    entry: EntryModel,
) -> bool {
    exists|k: int| comes_from(iso, state, blocks, entry, k)
}

/// Entries after the root are what is read of those described.
pub open spec fn are_read_of(
    iso: IsoModel,
    state: PlacingModel,
    blocks: Seq<Block>,
    entries: Seq<EntryModel>,
) -> bool {
    &&& entries.len() > 0
    &&& forall|e: int|
        1 <= e < entries.len() ==> is_read_of(iso, state, blocks, #[trigger] entries[e])
}

proof fn children_come_from(
    iso: IsoModel,
    state: PlacingModel,
    blocks: Seq<Block>,
    path: Seq<char>,
    index: int,
    read: Seq<EntryModel>,
)
    requires
        are_read_of(iso, state, blocks, read),
        children_are_written(iso, spots_of(iso, state), path),
        0 <= index,
    ensures
        ({
            let all = child_entries_from(
                iso,
                spots_of(iso, state),
                primary_options(iso).trailing_system_use_padding,
                blocks,
                path,
                index,
                read,
            );
            are_read_of(iso, state, blocks, all) && all[0] == read[0]
        }),
    decreases iso.entries.len() - index,
{
    if index < iso.entries.len() {
        let nodes = primary_nodes(iso);
        if is_child(nodes[index], path) {
            let entry = read_entry(
                iso,
                spots_of(iso, state),
                primary_options(iso).trailing_system_use_padding,
                blocks,
                index,
            );
            assert(comes_from(iso, state, blocks, entry, index));
            let more = read.push(entry);
            assert forall|e: int| 1 <= e < more.len() implies is_read_of(
                iso,
                state,
                blocks,
                #[trigger] more[e],
            ) by {
                if e < read.len() {
                    assert(more[e] == read[e]);
                }
            }
            children_come_from(iso, state, blocks, path, index + 1, more);
        } else {
            children_come_from(iso, state, blocks, path, index + 1, read);
        }
    }
}

proof fn slack_comes_from(
    iso: IsoModel,
    state: PlacingModel,
    blocks: Seq<Block>,
    directory: PlacementModel,
    read: Seq<EntryModel>,
)
    requires
        are_read_of(iso, state, blocks, read),
    ensures
        ({
            let told = with_told_slack(iso, directory, read);
            &&& are_read_of(iso, state, blocks, told)
            &&& told[0] == (EntryModel { directory_slack: told[0].directory_slack, ..read[0] })
        }),
{
    let told = with_told_slack(iso, directory, read);
    assert forall|e: int| 1 <= e < told.len() implies is_read_of(
        iso,
        state,
        blocks,
        #[trigger] told[e],
    ) by {
        assert(is_read_of(iso, state, blocks, read[e]));
        let k = choose|k: int| comes_from(iso, state, blocks, read[e], k);
        assert(comes_from(iso, state, blocks, told[e], k));
    }
}

/// Everything that a walk finds is read of something that was described.
proof fn tree_comes_from(
    iso: IsoModel,
    state: PlacingModel,
    blocks: Seq<Block>,
    index: int,
    read: Seq<EntryModel>,
)
    requires
        is_walkable(iso, state, blocks),
        are_read_of(iso, state, blocks, read),
        0 <= index,
    ensures
        ({
            let all = tree_entries_from(iso, state, blocks, index, read);
            &&& are_read_of(iso, state, blocks, all)
            &&& all[0] == (EntryModel { directory_slack: all[0].directory_slack, ..read[0] })
        }),
    decreases state.primary.placements.len() - index,
{
    let directories = state.primary.placements;
    if index < directories.len() {
        let directory = directories[index];
        if is_reference(iso, directory) {
            tree_comes_from(iso, state, blocks, index + 1, read);
        } else {
            assert(is_readable(iso, state, blocks, index));
            assert(directory_records(
                primary_nodes(iso),
                spots_of(iso, state),
                directory,
                directories[directory.parent],
                primary_options(iso),
            ) is Ok) by {
                reveal(is_readable);
            }
            records_are_accepted(iso, state, index);
            let told = with_told_slack(iso, directory, read);
            slack_comes_from(iso, state, blocks, directory, read);
            children_come_from(iso, state, blocks, directory.path, 0, told);
            let more = child_entries_from(
                iso,
                spots_of(iso, state),
                primary_options(iso).trailing_system_use_padding,
                blocks,
                directory.path,
                0,
                told,
            );
            tree_comes_from(iso, state, blocks, index + 1, more);
        }
    }
}

/// What is read as audio ends at a block that can be numbered.
pub open spec fn audio_ends(iso: IsoModel, state: PlacingModel) -> bool {
    let spots = spots_of(iso, state);
    let trailing = primary_options(iso).trailing_system_use_padding;
    forall|k: int|
        0 <= k < iso.entries.len() && is_cdda(#[trigger] xa_at(iso, spots, trailing, k))
            ==> spots[k].extent + ceil_div(spots[k].length->Ok_0 as int, 2048) <= u32::MAX
}

proof fn extents_end(
    iso: IsoModel,
    state: PlacingModel,
    blocks: Seq<Block>,
    entries: Seq<EntryModel>,
    end: u32,
    index: int,
)
    requires
        are_read_of(iso, state, blocks, entries),
        entries[0].extent is None,
        audio_ends(iso, state),
        0 <= index,
    ensures
        external_end_from(entries, end, index) is Ok,
    decreases entries.len() - index,
{
    if index < entries.len() {
        let entry = entries[index];
        if entry.extent is Some {
            assert(is_read_of(iso, state, blocks, entry));
            let k = choose|k: int| comes_from(iso, state, blocks, entry, k);
            let trailing = primary_options(iso).trailing_system_use_padding;
            assert(is_cdda(xa_at(iso, spots_of(iso, state), trailing, k)));
            let next = entry.extent->Some_0 + ceil_div(entry.length->Some_0 as int, 2048);
            extents_end(
                iso,
                state,
                blocks,
                entries,
                if next > end {
                    next as u32
                } else {
                    end
                },
                index + 1,
            );
        } else {
            extents_end(iso, state, blocks, entries, end, index + 1);
        }
    }
}

/// The path tables list a directory that is only referred to as the walk found it.
proof fn reference_is_listed(
    iso: IsoModel,
    state: PlacingModel,
    blocks: Seq<Block>,
    places: Seq<PlacementModel>,
    entry: EntryModel,
)
    requires
        is_walkable(iso, state, blocks),
        are_listed_alike(places, state.primary.placements),
        path_table(places, false) is Ok,
        is_read_of(iso, state, blocks, entry),
        entry.directory_reference is Some,
    ensures
        ({
            let records = places.map_values(|d: PlacementModel| table_record(d));
            reference_check(
                entry.path,
                entry.directory_reference->Some_0,
                places,
                records,
                records,
            ) is Ok
        }),
{
    let directories = state.primary.placements;
    let nodes = primary_nodes(iso);
    let spots = spots_of(iso, state);
    let trailing = primary_options(iso).trailing_system_use_padding;
    let records = places.map_values(|d: PlacementModel| table_record(d));
    let k = choose|k: int| comes_from(iso, state, blocks, entry, k);
    name_is_read(iso, spots, trailing, k);
    assert(nodes[k].directory);
    let at = find_directory(directories, iso.entries[k].path);
    assert(at < directories.len());
    found_directory_is_there(directories, iso.entries[k].path, 0);
    alike_are_found_alike(places, directories, entry.path, 0);
    assert(places[at].name == directories[at].name);
    parents_are_numbered(places, 0, Seq::empty(), false, at);
    assert(directories[at].length == 0);
    if !is_reference(iso, directories[at]) {
        assert(is_readable(iso, state, blocks, at));
        reveal(is_readable);
        assert(false);
    }
    reference_is_empty(iso, directories, at);
    directories_follow_order(iso, directories);
    assert(is_held(nodes, directories, at, directories.len() as int));
    assert(records[at] == table_record(places[at]));
    if has_children(records, at) {
        let child = choose|child: int|
            0 <= child < records.len() && child != at && #[trigger] records[child].parent == at + 1;
        parents_are_numbered(places, 0, Seq::empty(), false, child);
        assert(records[child] == table_record(places[child]));
        assert(places[child].name == directories[child].name);
        if child > 0 {
            assert(is_held(nodes, directories, child, directories.len() as int));
            assert(iso.entries[directories[child].entry].path == directories[child].path);
            assert(directories[child].path != directories[at].path);
            assert(has_child(iso.entries, directories[at].path));
        }
        assert(false);
    }
}

proof fn references_are_listed(
    iso: IsoModel,
    state: PlacingModel,
    blocks: Seq<Block>,
    places: Seq<PlacementModel>,
    entries: Seq<EntryModel>,
    index: int,
)
    requires
        is_walkable(iso, state, blocks),
        are_listed_alike(places, state.primary.placements),
        path_table(places, false) is Ok,
        are_read_of(iso, state, blocks, entries),
        entries[0].directory_reference is None,
        0 <= index,
    ensures
        ({
            let records = places.map_values(|d: PlacementModel| table_record(d));
            references_check_from(entries, index, places, records, records) is Ok
        }),
    decreases entries.len() - index,
{
    if index < entries.len() {
        if entries[index].directory_reference is Some {
            reference_is_listed(iso, state, blocks, places, entries[index]);
        }
        references_are_listed(iso, state, blocks, places, entries, index + 1);
    }
}

/// The path tables of a filesystem that was laid out.
pub open spec fn tables_of_layout(iso: IsoModel, placed: Placed) -> (Seq<u8>, Seq<u8>) {
    table_bytes(
        placed.state.primary.placements,
        placed.table.size,
        iso.path_table_little_hex,
        iso.path_table_big_hex,
    )->Ok_0
}

/// What is read of a path table where a size is recorded of it.
pub open spec fn table_read(data: Seq<u8>, size: u32) -> Seq<u8> {
    Seq::new(
        size as nat,
        |i: int|
            if i < data.len() {
                data[i]
            } else {
                0
            },
    )
}

/// A path table that has the size that is recorded of it is read whole.
pub proof fn whole_table_is_read(data: Seq<u8>, size: u32)
    requires
        data.len() == size,
    ensures
        table_read(data, size) == data,
{
    assert(table_read(data, size) =~= data);
}

/// The path tables can be read: those that belong to the directories can be made. Tables
/// that are given, or of which another size is recorded, list every directory that is only
/// referred to, where it is, with none in it.
pub open spec fn has_readable_tables(iso: IsoModel, placed: Placed) -> bool {
    let directories = placed.state.primary.placements;
    let size = placed.table.size;
    let made = table_size_from(primary_order(iso), 0);
    &&& path_table(directories, false) is Ok
    &&& path_table(directories, true) is Ok
    &&& iso.path_table_little_hex is Some || size != made ==> references_check(
        iso.entries,
        directories,
        table_read(tables_of_layout(iso, placed).0, size),
        table_read(tables_of_layout(iso, placed).1, size),
    ) is Ok
}

/// What is told of the path tables: their size where it is not that of the tables that
/// are made, and the tables where they are others.
pub open spec fn told_tables(iso: IsoModel, placed: Placed) -> TableRecord {
    let directories = placed.state.primary.placements;
    let bytes = tables_of_layout(iso, placed);
    joliet_parse::table_record(
        placed.table.size,
        table_size_from(primary_order(iso), 0),
        table_read(bytes.0, placed.table.size),
        table_read(bytes.1, placed.table.size),
        path_table(directories, false)->Ok_0,
        path_table(directories, true)->Ok_0,
    )
}

/// A directory has a name.
proof fn name_is_some(iso: IsoModel, directories: Seq<PlacementModel>, index: int)
    requires
        is_tree(iso),
        are_sized(iso, directories),
        0 <= index < directories.len(),
    ensures
        directories[index].name.len() > 0,
        directories[index].parent >= 0,
{
    directories_follow_order(iso, directories);
    name_is_listed(iso, directories, index);
    if index > 0 {
        assert(is_held(primary_nodes(iso), directories, index, directories.len() as int));
        let path = directories[index].path;
        assert(entry_check(iso, directories[index].entry) is Ok);
        last_index_of_is_last(path, '/');
        assert(name_of(path).len() > 0);
        encode_utf8_decode_utf8(name_of(path));
        encode_utf8_decode_utf8(Seq::empty());
        assert(utf8(Seq::empty()) =~= Seq::<u8>::empty());
        if utf8(name_of(path)).len() == 0 {
            assert(utf8(name_of(path)) =~= Seq::<u8>::empty());
            assert(false);
        }
    }
}

proof fn references_agree(
    iso: IsoModel,
    state: PlacingModel,
    blocks: Seq<Block>,
    places: Seq<PlacementModel>,
    entries: Seq<EntryModel>,
    little: Seq<u8>,
    big: Seq<u8>,
)
    requires
        is_walkable(iso, state, blocks),
        are_listed_alike(places, state.primary.placements),
        path_table(places, false) == Ok::<Seq<u8>, Failure>(little),
        path_table(places, true) == Ok::<Seq<u8>, Failure>(big),
        are_read_of(iso, state, blocks, entries),
        entries[0].directory_reference is None,
    ensures
        references_check(entries, places, little, big) is Ok,
{
    let directories = state.primary.placements;
    assert forall|i: int| 0 <= i < places.len() implies (#[trigger] places[i]).name.len() > 0
        && places[i].parent >= 0 by {
        name_is_some(iso, directories, i);
        assert(places[i].name == directories[i].name);
    }
    path_table_survives(places, little, false);
    path_table_survives(places, big, true);
    references_are_listed(iso, state, blocks, places, entries, 0);
}

/// A path table that lies in an image is read from it.
pub proof fn table_is_read(
    image: Seq<u8>,
    blocks: Seq<Block>,
    extents: Seq<u32>,
    plan: TablePlan,
    bytes: (Seq<u8>, Seq<u8>),
    k: int,
)
    requires
        views(blocks) == blocks_of(image),
        image.len() % 2048 == 0,
        tables_lie(extents, plan, bytes, image),
        0 <= k < 4,
        extents[k] != 0,
        plan.size <= plan.blocks * 2048,
    ensures
        extent_bytes(blocks, extents[k] as int, plan.size as int) == table_read(
            table_data(bytes, k),
            plan.size,
        ),
{
    let data = table_part(table_data(bytes, k), plan.blocks);
    extent_is_read(image, blocks, extents[k] as int, data, plan.size as int);
    assert(data.take(plan.size as int) =~= table_read(table_data(bytes, k), plan.size));
}

/// Directories that are only referred to are those that are described.
pub open spec fn references_lie(iso: IsoModel, directories: Seq<PlacementModel>) -> bool {
    forall|i: int|
        0 <= i < directories.len() && is_reference(iso, #[trigger] directories[i]) ==> {
            let reference = iso.entries[directories[i].entry].directory_reference->Some_0;
            directories[i].extent == reference.extent && directories[i].length == reference.length
        }
}

/// A reference that is read is one that was described.
proof fn reference_was_described(
    iso: IsoModel,
    state: PlacingModel,
    blocks: Seq<Block>,
    entry: EntryModel,
) -> (index: int)
    requires
        is_walkable(iso, state, blocks),
        is_read_of(iso, state, blocks, entry),
        references_lie(iso, state.primary.placements),
        entry.directory_reference is Some,
    ensures
        0 <= index < iso.entries.len(),
        iso.entries[index].path == entry.path,
        iso.entries[index].directory_reference == entry.directory_reference,
{
    let directories = state.primary.placements;
    let nodes = primary_nodes(iso);
    let spots = spots_of(iso, state);
    let k = choose|k: int| comes_from(iso, state, blocks, entry, k);
    name_is_read(iso, spots, primary_options(iso).trailing_system_use_padding, k);
    assert(nodes[k].directory);
    let at = find_directory(directories, iso.entries[k].path);
    found_directory_is_there(directories, iso.entries[k].path, 0);
    if !is_reference(iso, directories[at]) {
        assert(is_readable(iso, state, blocks, at));
        reveal(is_readable);
        assert(false);
    }
    reference_is_empty(iso, directories, at);
    directories_follow_order(iso, directories);
    assert(is_held(nodes, directories, at, directories.len() as int));
    directories[at].entry
}

/// Where all references agree with path tables, each does.
proof fn each_reference_agrees(
    entries: Seq<EntryModel>,
    index: int,
    directories: Seq<PlacementModel>,
    little: Seq<PathRecordModel>,
    big: Seq<PathRecordModel>,
    at: int,
)
    requires
        references_check_from(entries, index, directories, little, big) is Ok,
        0 <= index <= at < entries.len(),
        entries[at].directory_reference is Some,
    ensures
        reference_check(
            entries[at].path,
            entries[at].directory_reference->Some_0,
            directories,
            little,
            big,
        ) is Ok,
    decreases entries.len() - index,
{
    if index < at {
        each_reference_agrees(entries, index + 1, directories, little, big, at);
    }
}

/// Path tables that agree with the references that are described agree with those that
/// are read.
proof fn given_are_listed(
    iso: IsoModel,
    state: PlacingModel,
    blocks: Seq<Block>,
    places: Seq<PlacementModel>,
    entries: Seq<EntryModel>,
    little: Seq<PathRecordModel>,
    big: Seq<PathRecordModel>,
    index: int,
)
    requires
        is_walkable(iso, state, blocks),
        are_listed_alike(places, state.primary.placements),
        references_lie(iso, state.primary.placements),
        are_read_of(iso, state, blocks, entries),
        entries[0].directory_reference is None,
        references_check_from(iso.entries, 0, state.primary.placements, little, big) is Ok,
        0 <= index,
    ensures
        references_check_from(entries, index, places, little, big) is Ok,
    decreases entries.len() - index,
{
    if index < entries.len() {
        if entries[index].directory_reference is Some {
            let directories = state.primary.placements;
            let path = entries[index].path;
            assert(is_read_of(iso, state, blocks, entries[index]));
            let at = reference_was_described(iso, state, blocks, entries[index]);
            each_reference_agrees(iso.entries, 0, directories, little, big, at);
            alike_are_found_alike(places, directories, path, 0);
            let found = find_directory(directories, path);
            found_directory_is_there(directories, path, 0);
            assert(places[found].name == directories[found].name);
        }
        given_are_listed(iso, state, blocks, places, entries, little, big, index + 1);
    }
}

/// Path tables that agree with the references that are described agree with those that
/// are read.
proof fn given_tables_agree(
    iso: IsoModel,
    state: PlacingModel,
    blocks: Seq<Block>,
    places: Seq<PlacementModel>,
    entries: Seq<EntryModel>,
    little: Seq<u8>,
    big: Seq<u8>,
)
    requires
        is_walkable(iso, state, blocks),
        are_listed_alike(places, state.primary.placements),
        references_lie(iso, state.primary.placements),
        are_read_of(iso, state, blocks, entries),
        entries[0].directory_reference is None,
        references_check(iso.entries, state.primary.placements, little, big) is Ok,
    ensures
        references_check(entries, places, little, big) is Ok,
{
    if has_references(entries) {
        let e = choose|e: int|
            0 <= e < entries.len() && (#[trigger] entries[e]).directory_reference is Some;
        assert(is_read_of(iso, state, blocks, entries[e]));
        let at = reference_was_described(iso, state, blocks, entries[e]);
        assert(iso.entries[at].directory_reference is Some);
        given_are_listed(
            iso,
            state,
            blocks,
            places,
            entries,
            parsed_path_table(little, false)->Ok_0,
            parsed_path_table(big, true)->Ok_0,
            0,
        );
    }
}

/// The path tables of an image that was laid out are read.
proof fn tables_are_read(
    iso: IsoModel,
    placed: Placed,
    image: Seq<u8>,
    blocks: Seq<Block>,
    head: PrimaryHead,
    entries: Seq<EntryModel>,
)
    requires
        is_walkable(iso, placed.state, blocks),
        has_readable_tables(iso, placed),
        references_lie(iso, placed.state.primary.placements),
        table_plan(
            primary_order(iso),
            iso.path_table_size,
            ErrorKind::TableSizeZero,
            ErrorKind::TableAllocation,
        ) == Ok::<TablePlan, Failure>(placed.table),
        table_bytes(
            placed.state.primary.placements,
            placed.table.size,
            iso.path_table_little_hex,
            iso.path_table_big_hex,
        ) is Ok,
        tables_lie(
            placed.state.tables,
            placed.table,
            tables_of_layout(iso, placed),
            image,
        ),
        views(blocks) == blocks_of(image),
        image.len() % 2048 == 0,
        head.tables.extents == placed.state.tables,
        head.table_size == placed.table.size,
        placed.state.tables[0] != 0,
        placed.state.tables[2] != 0,
        are_read_of(iso, placed.state, blocks, entries),
        entries[0].directory_reference is None,
    ensures
        primary_tables(
            blocks,
            head,
            entries,
            all_found(
                placed.state.primary.placements,
                placed.state.primary.placements.len() as int,
            ),
        ) == Ok::<TableRecord, Failure>(told_tables(iso, placed)),
{
    reveal(primary_tables);
    let directories = placed.state.primary.placements;
    let tables = placed.state.tables;
    let found = all_found(directories, directories.len() as int);
    let bytes = tables_of_layout(iso, placed);
    size_is_found(iso, directories, 0);
    name_is_some(iso, directories, 0);
    table_size_grows(directories, 1);
    assert(table_size_from(directories, 0) > 0);
    assert(are_listed_alike(Seq::empty(), directories.take(0)));
    places_are_found(iso, directories, 0, Seq::empty());
    let places = primary_placements_from(found, 0, Seq::empty())->Ok_0;
    alike_are_written_alike(places, directories, 0, Seq::empty(), false);
    alike_are_written_alike(places, directories, 0, Seq::empty(), true);
    table_has_size(directories, 0, Seq::empty(), false);
    table_has_size(directories, 0, Seq::empty(), true);
    table_is_read(image, blocks, tables, placed.table, bytes, 0);
    table_is_read(image, blocks, tables, placed.table, bytes, 2);
    if tables[1] != 0 {
        table_is_read(image, blocks, tables, placed.table, bytes, 1);
    }
    if tables[3] != 0 {
        table_is_read(image, blocks, tables, placed.table, bytes, 3);
    }
    let read = (
        table_read(bytes.0, placed.table.size),
        table_read(bytes.1, placed.table.size),
    );
    if iso.path_table_little_hex is None && placed.table.size == table_size_from(
        primary_order(iso),
        0,
    ) {
        whole_table_is_read(bytes.0, placed.table.size);
        whole_table_is_read(bytes.1, placed.table.size);
        references_agree(iso, placed.state, blocks, places, entries, bytes.0, bytes.1);
    } else {
        given_tables_agree(iso, placed.state, blocks, places, entries, read.0, read.1);
    }
}

/// What lies at the start of a block of an image stands at the start of the block.
proof fn block_begins_with(image: Seq<u8>, blocks: Seq<Block>, at: int, data: Seq<u8>)
    requires
        views(blocks) == blocks_of(image),
        image.len() % 2048 == 0,
        lies_at(image, at, data),
        0 < data.len() <= 2048,
        0 <= at,
    ensures
        at < blocks.len(),
        blocks[at]@.len() == 2048,
        blocks[at]@.take(data.len() as int) == data,
{
    assert(views(blocks).len() == blocks.len());
    assert(views(blocks)[at] == blocks[at]@);
    assert(blocks[at]@ == image.subrange(at * 2048, at * 2048 + 2048));
    assert(blocks[at]@.take(data.len() as int) =~= image.subrange(
        at * 2048,
        at * 2048 + data.len(),
    ));
}

/// The copies of the primary descriptor are counted.
proof fn copies_are_counted(blocks: Seq<Block>, known: int, copies: int)
    requires
        1 <= known <= copies,
        16 + copies < blocks.len(),
        forall|k: int|
            0 <= k < copies ==> #[trigger] blocks[16 + k]@ == blocks[16]@ && is_descriptor(
                blocks[16 + k]@,
                1,
            ),
        !is_descriptor(blocks[16 + copies]@, 1),
    ensures
        copies_from(blocks, known) == Ok::<int, Failure>(copies),
    decreases copies - known,
{
    if known < copies {
        assert(blocks[16 + known]@ == blocks[16]@);
        copies_are_counted(blocks, known + 1, copies);
    }
}

/// The primary descriptor of an image that was laid out.
pub open spec fn descriptor_of(iso: IsoModel, placed: Placed, size: u32) -> Seq<u8> {
    pvd_block(
        iso.primary_volume,
        primary_place(placed.state, placed.table, size),
        iso.entries[0],
    )->Ok_0
}

/// The Joliet descriptor of an image that was laid out.
pub open spec fn joliet_descriptor_of(iso: IsoModel, placed: Placed, size: u32) -> Seq<u8> {
    svd_block(
        iso.supplementary_volumes[0],
        joliet_place(placed.state, placed.joliet->Some_0.table, size),
    )->Ok_0
}

/// The descriptors of an image that was laid out are found.
#[verifier::rlimit(60)]
#[verifier::spinoff_prover]
pub proof fn volumes_are_found(iso: IsoModel, placed: Placed, size: u32, image: Seq<u8>, blocks: Seq<Block>)
    requires
        views(blocks) == blocks_of(image),
        image.len() % 2048 == 0,
        descriptors_lie(iso, placed, size, image),
        iso.supplementary_volumes.len() <= 1,
        (placed.joliet is Some) == (iso.supplementary_volumes.len() > 0),
        1 <= iso.primary_volume_copies <= 3,
        placed.state.tables.len() == 4,
        placed.state.joliet_tables.len() == 4,
        blocks.len() > 22,
    ensures
        blocks[16]@ == descriptor_of(iso, placed, size),
        placed.joliet is Some ==> blocks[16 + iso.primary_volume_copies]@
            == joliet_descriptor_of(iso, placed, size),
        volume_set(blocks) == Ok::<VolumeSet, Failure>(
            VolumeSet {
                primary_copies: iso.primary_volume_copies,
                supplementary: placed.joliet is Some,
            },
        ),
{
    let copies = iso.primary_volume_copies as int;
    let block = descriptor_of(iso, placed, size);
    pvd_tells(
        iso.primary_volume,
        primary_place(placed.state, placed.table, size),
        iso.entries[0],
        block,
    );
    assert forall|k: int| 0 <= k < copies implies #[trigger] blocks[16 + k]@ == block by {
        assert(lies_at(image, 16 + k, block));
        block_begins_with(image, blocks, 16 + k, block);
        assert(blocks[16 + k]@.take(2048) =~= blocks[16 + k]@);
    }
    assert(blocks[16 + 0int]@ == block);
    let end = descriptor_signature(255);
    block_begins_with(image, blocks, descriptors_end(iso) - 1, end);
    if placed.joliet is Some {
        let joliet = joliet_descriptor_of(iso, placed, size);
        svd_tells(
            iso.supplementary_volumes[0],
            joliet_place(placed.state, placed.joliet->Some_0.table, size),
            joliet,
        );
        block_begins_with(image, blocks, 16 + copies, joliet);
        assert(blocks[16 + copies]@.take(2048) =~= blocks[16 + copies]@);
    }
    assert(end[0] == 255 && descriptor_signature(1)[0] == 1 && descriptor_signature(2)[0] == 2);
    copies_are_counted(blocks, 1, copies);
}

/// The root record of the primary descriptor, as it is read.
proof fn root_is_read(volume: VolumeModel, place: PlaceModel, root: EntryModel, block: Seq<u8>)
    requires
        pvd_block(volume, place, root) == Ok::<Seq<u8>, Failure>(block),
        place.pointers.len() == 4,
        place.volume_blocks > 0,
        volume.file_structure_version matches Some(version) ==> version <= 1,
    ensures
        ({
            let read = primary_root(block);
            let record = read->Ok_0.record;
            &&& read is Ok
            &&& record.extent == place.root_extent
            &&& record.length == place.root_length
            &&& record.flags == record_flags(true, root.hidden, root.associated)
            &&& record.recording_time == recording_time_bytes(
                root_time(volume, root.recording_time),
            )->Ok_0
            &&& read->Ok_0.volume == (VolumeModel {
                root_directory_record_length: volume.root_directory_record_length,
                ..parsed_volume(block, false)->Ok_0
            })
        }),
{
    pvd_is_read(volume, place, root, block);
    pvd_tells(volume, place, root, block);
    reveal(root_record);
    let record = pvd_root(volume, place, root)->Ok_0;
    let time = recording_time_bytes(root_time(volume, root.recording_time))->Ok_0;
    recording_time_length(root_time(volume, root.recording_time));
    let model = RecordModel {
        extent: place.root_extent,
        length: place.root_length,
        recording_time: time,
        flags: record_flags(true, root.hidden, root.associated),
        file_unit_size: 0,
        interleave_gap_size: 0,
        volume_sequence_number: 1,
        name: root_name(volume.root_directory_identifier),
        system_use: Seq::empty(),
        trailing_system_use_padding: false,
    };
    record_parts(model);
    assert(record == record_layout(model));
    flags_tell(true, root.hidden, root.associated);
    let bytes = block.subrange(156, 2048);
    assert forall|i: int| 1 <= i < 34 implies #[trigger] bytes[i] == record[i] by {
        assert(bytes[i] == block.subrange(157, 190)[i - 1]);
        assert(record[i] == record.subrange(1, 34)[i - 1]);
    }
    assert(field(bytes, 2, 8) =~= field(record, 2, 8));
    assert(field(bytes, 10, 8) =~= field(record, 10, 8));
    assert(field(bytes, 28, 4) =~= field(record, 28, 4));
    assert(bytes.subrange(18, 25) =~= record.subrange(18, 25));
    both32_round_trip(bytes, 2, place.root_extent);
    both32_round_trip(bytes, 10, place.root_length);
    both16_round_trip(bytes, 28, 1);
    assert(bytes[0] == block[156]);
    assert(root_length_check(volume, "primary-volume"@) is Ok);
}

proof fn extents_do_not_lower_the_end(entries: Seq<EntryModel>, end: u32, index: int)
    ensures
        logical_end_from(entries, end, index) matches Ok(last) ==> last >= end,
    decreases entries.len() - index,
{
    if 0 <= index < entries.len() {
        if entries[index].extent is None {
            extents_do_not_lower_the_end(entries, end, index + 1);
        } else {
            let file = referenced_file(entries[index]);
            let next = if file.extent + file.blocks > end {
                (file.extent + file.blocks) as u32
            } else {
                end
            };
            extents_do_not_lower_the_end(entries, next, index + 1);
        }
    }
}

/// A volume that was laid out has a size.
pub proof fn volume_has_size(iso: IsoModel, lengths: Seq<FileLengthModel>, layout: LayoutModel)
    requires
        is_layout(iso, lengths, layout),
        places_of(iso, lengths).state.next > 0,
    ensures
        size_of_volume(iso, lengths) > 0,
{
    reveal(is_layout);
    reveal(places_of);
    reveal(size_of_volume);
    let state = places_of(iso, lengths).state;
    let end = (state.next + trailing_sectors(state.trailing)) as u32;
    extents_do_not_lower_the_end(iso.entries, end, 0);
}

/// The order of the primary path tables, as their places tell it.
pub open spec fn told_order(tables: Seq<u32>) -> PathTableOrder {
    if first_of(tables[0], tables[1]) < first_of(tables[2], tables[3]) {
        PathTableOrder::LittleEndianFirst
    } else {
        PathTableOrder::BigEndianFirst
    }
}

/// The path tables are there, and each has its own place.
pub proof fn tables_stand_apart(iso: IsoModel, lengths: Seq<FileLengthModel>, placed: Placed)
    requires
        placed_filesystem(iso, lengths) == Ok::<Placed, Failure>(placed),
        iso.supplementary_volumes.len() <= 1,
        metadata_check(iso) is Ok,
    ensures
        ({
            let extents = placed.state.tables;
            let duplicate = iso.path_table_copies == PathTableCopies::Duplicate;
            &&& extents.len() == 4
            &&& extents[0] != 0 && extents[2] != 0
            &&& (extents[1] != 0) == duplicate
            &&& (extents[3] != 0) == duplicate
            &&& first_of(extents[0], extents[1]) != first_of(extents[2], extents[3])
            &&& iso.supplementary_volumes.len() == 0 ==> told_order(extents)
                == iso.path_table_order
        }),
        placed.table.blocks > 0,
        placed.table.size > 0,
        (placed.joliet is Some) == (iso.supplementary_volumes.len() > 0),
        table_plan(
            primary_order(iso),
            iso.path_table_size,
            ErrorKind::TableSizeZero,
            ErrorKind::TableAllocation,
        ) == Ok::<TablePlan, Failure>(placed.table),
{
    if iso.supplementary_volumes.len() == 0 {
        tables_are_placed(iso, lengths, placed);
        assert(placed.table.blocks > 0 && placed.table.size > 0);
        let start = 17 + iso.primary_volume_copies;
        let stride = placed.table.blocks + iso.path_table_padding;
        assert(stride * 0 == 0 && stride * 1 == stride && stride * 2 == stride + stride && stride
            * 3 == stride + stride + stride && stride * 4 == stride + stride + stride + stride)
            by (nonlinear_arith);
    } else {
        joliet_tables_are_placed(iso, lengths, placed);
        assert(placed.table.blocks > 0 && placed.table.size > 0);
        parts_are_apart(iso, lengths, placed);
        let tables = table_blocks(placed);
        let little = Part::Table { volume: MetadataVolume::Primary, index: 0 };
        let big = Part::Table { volume: MetadataVolume::Primary, index: 2 };
        assert(takes_blocks(placed.state, tables, little));
        assert(takes_blocks(placed.state, tables, big));
    }
}

/// What the primary descriptor of an image that was laid out says of it.
proof fn head_is_read(
    iso: IsoModel,
    lengths: Seq<FileLengthModel>,
    placed: Placed,
    size: u32,
    block: Seq<u8>,
)
    requires
        placed_filesystem(iso, lengths) == Ok::<Placed, Failure>(placed),
        iso.supplementary_volumes.len() <= 1,
        metadata_check(iso) is Ok,
        pvd_block(
            iso.primary_volume,
            primary_place(placed.state, placed.table, size),
            iso.entries[0],
        ) == Ok::<Seq<u8>, Failure>(block),
        size > 0,
    ensures
        primary_head(block, placed.state.next as int) == Ok::<PrimaryHead, Failure>(
            PrimaryHead {
                space_size: size,
                table_size: placed.table.size,
                tables: TablesModel {
                    extents: placed.state.tables,
                    blocks: placed.table.blocks,
                },
                copies: iso.path_table_copies,
                order: told_order(placed.state.tables),
            },
        ),
{
    tables_stand_apart(iso, lengths, placed);
    parts_are_apart(iso, lengths, placed);
    pvd_tells(
        iso.primary_volume,
        primary_place(placed.state, placed.table, size),
        iso.entries[0],
        block,
    );
    let extents = placed.state.tables;
    let tables = table_blocks(placed);
    assert forall|k: int| 0 <= k < 4 implies #[trigger] extents[k] == 0 || table_inside(
        extents[k],
        placed.table.blocks,
        placed.state.next as int,
    ) by {
        let part = Part::Table { volume: MetadataVolume::Primary, index: k };
        if extents[k] != 0 {
            assert(takes_blocks(placed.state, tables, part));
            assert(end_of(placed.state, tables, part) <= placed.state.next);
        }
    }
    assert(table_pointers(block) == extents);
}

/// What is told of the root directory.
pub open spec fn told_root(iso: IsoModel) -> EntryModel {
    let root = iso.entries[0];
    let system_use = system_use_bytes(root.path, root.xa, true, iso.xa_system_use)->Ok_0;
    EntryModel {
        path: root_path(),
        recording_time: read_time(iso, 0),
        hidden: root.hidden,
        associated: root.associated,
        unbacked: false,
        directory_reference: None,
        directory_slack: None,
        allocation_padding_hex: None,
        sector_subheader: EntrySectorSubheader::Canonical,
        xa: parsed_xa(system_use, true, iso.xa_system_use)->Ok_0,
        extent: None,
        length: None,
    }
}

/// What is told of the time in the root record of the descriptor: nothing, where it
/// is that of the root directory.
pub open spec fn told_root_time(iso: IsoModel) -> Option<Seq<char>> {
    let time = recording_time_text(
        recording_time_bytes(
            root_time(iso.primary_volume, iso.entries[0].recording_time),
        )->Ok_0,
    );
    if time == read_time(iso, 0) {
        None
    } else {
        Some(time)
    }
}

/// What is told besides entries and directories.
pub open spec fn told_tally(iso: IsoModel, state: PlacingModel) -> Tally {
    tree_tally_from(
        iso,
        state,
        0,
        Tally {
            files: Seq::empty(),
            omissions: Seq::empty(),
            policy: IdentifierPolicy::IsoLevel1,
        },
    )
}

/// What is told of the entries.
pub open spec fn told_entries(iso: IsoModel, state: PlacingModel, blocks: Seq<Block>) -> Seq<EntryModel> {
    tree_entries_from(iso, state, blocks, 0, seq![told_root(iso)])
}

/// What is told of the primary volume.
pub open spec fn told_volume(
    iso: IsoModel,
    placed: Placed,
    size: u32,
    blocks: Seq<Block>,
) -> VolumeModel {
    let end = external_end_from(
        told_entries(iso, placed.state, blocks),
        blocks.len() as u32,
        0,
    )->Ok_0;
    VolumeModel {
        volume_space_size: if size != end {
            Some(size)
        } else {
            None
        },
        root_directory_record_length: iso.primary_volume.root_directory_record_length,
        root_directory_recording_time: told_root_time(iso),
        ..parsed_volume(descriptor_of(iso, placed, size), false)->Ok_0
    }
}

/// What is told of a filesystem that was laid out, but for its Joliet volume. How its
/// directories are packed and whose time their second records have is told only
/// where it shows.
#[verifier::opaque]
pub open spec fn told(
    iso: IsoModel,
    placed: Placed,
    size: u32,
    blocks: Seq<Block>,
    packing: DirectoryRecordPacking,
    time: DirectoryParentRecordingTime,
) -> IsoModel {
    let tally = told_tally(iso, placed.state);
    IsoModel {
        primary_volume: told_volume(iso, placed, size, blocks),
        primary_volume_copies: iso.primary_volume_copies,
        supplementary_volumes: Seq::empty(),
        metadata_layout: Seq::empty(),
        xa_system_use: iso.xa_system_use,
        xa_system_use_omissions: tally.omissions,
        metadata_subheader: IsoMetadataSubheader::Canonical,
        metadata_framing_subheader: None,
        identifier_policy: tally.policy,
        directory_record_packing: packing,
        directory_parent_recording_time: time,
        directory_length_policy: DirectoryLengthPolicy::Allocated,
        path_table_size: told_tables(iso, placed).size,
        path_table_padding: iso.path_table_padding,
        path_table_little_hex: told_tables(iso, placed).little,
        path_table_big_hex: told_tables(iso, placed).big,
        path_table_copies: iso.path_table_copies,
        path_table_order: told_order(placed.state.tables),
        path_table_subheader: EntrySectorSubheader::Canonical,
        path_table_framing_subheader: None,
        entries: told_entries(iso, placed.state, blocks),
        files: file_order(tally.files),
    }
}

/// The root directory of an image that was laid out is what the walk starts from.
proof fn walk_starts(
    iso: IsoModel,
    state: PlacingModel,
    blocks: Seq<Block>,
    root: PrimaryRoot,
)
    requires
        is_walkable(iso, state, blocks),
        root.record.extent == state.primary.placements[0].extent,
        root.record.length == state.primary.placements[0].length,
        root.record.flags == record_flags(
            true,
            iso.entries[0].hidden,
            iso.entries[0].associated,
        ),
        root.record.recording_time == recording_time_bytes(
            root_time(iso.primary_volume, iso.entries[0].recording_time),
        )->Ok_0,
    ensures
        ({
            let start = primary_start(blocks, root);
            let walk = start->Ok_0.walk;
            &&& start is Ok
            &&& start->Ok_0.volume == (VolumeModel {
                root_directory_recording_time: told_root_time(iso),
                ..root.volume
            })
            &&& walk.entries == seq![told_root(iso)]
            &&& tally_of(walk) == (Tally {
                files: Seq::empty(),
                omissions: Seq::empty(),
                policy: IdentifierPolicy::IsoLevel1,
            })
            &&& start->Ok_0.xa_system_use == iso.xa_system_use
            &&& walk.directories == seq![found_of(state.primary.placements[0])]
            &&& walk.entries.len() == 1
            &&& is_of(iso, walk.entries[0], 0)
            &&& walk.entries[0].extent is None
            &&& walk.entries[0].directory_reference is None
            &&& walk.parent_time is None
            &&& shows(walk.observation, iso.directory_record_packing)
        }),
{
    let directories = state.primary.placements;
    let nodes = primary_nodes(iso);
    let options = primary_options(iso);
    directories_follow_order(iso, directories);
    if is_reference(iso, directories[0]) {
        reference_is_empty(iso, directories, 0);
    }
    assert(is_readable(iso, state, blocks, 0));
    reveal(is_readable);
    records_are_accepted(iso, state, 0);
    let own = node_model(
        nodes[0],
        directories[0].extent,
        directories[0].length,
        seq![0u8],
        true,
        options.trailing_system_use_padding,
        options.xa_system_use,
    );
    let first = seq![own, parent_model(nodes, directories[0], directories[0], options)];
    models_stay_first(
        nodes,
        spots_of(iso, state),
        directories[0].path,
        options.trailing_system_use_padding,
        0,
        first,
    );
    assert(first[0] == own);
    flags_tell(true, iso.entries[0].hidden, iso.entries[0].associated);
}

/// What the path tables are padded by is read.
proof fn padding_is_read(iso: IsoModel, lengths: Seq<FileLengthModel>, placed: Placed)
    requires
        placed_filesystem(iso, lengths) == Ok::<Placed, Failure>(placed),
        iso.supplementary_volumes.len() == 0,
        metadata_check(iso) is Ok,
        placed.table.blocks > 0,
    ensures
        table_padding(
            TablesModel { extents: placed.state.tables, blocks: placed.table.blocks },
            placed.state.primary.placements[0].extent,
            false,
        ) == iso.path_table_padding,
{
    tables_are_placed(iso, lengths, placed);
    tables_stand_apart(iso, lengths, placed);
    let start = 17 + iso.primary_volume_copies;
    let stride = placed.table.blocks + iso.path_table_padding;
    assert(stride * 0 == 0 && stride * 1 == stride && stride * 2 == stride + stride && stride * 3
        == stride + stride + stride && stride * 4 == stride + stride + stride + stride)
        by (nonlinear_arith);
    let extents = present_tables(placed.state.tables);
    let order = stable_order(extents, extents.len() as int);
    stable_order_sorts(extents, extents.len() as int);
    assert(comes_before(extents, order[0], order[1]));
    if iso.path_table_copies == PathTableCopies::Duplicate {
        assert(comes_before(extents, order[0], order[2]) && comes_before(
            extents,
            order[0],
            order[3],
        ) && comes_before(extents, order[1], order[2]) && comes_before(
            extents,
            order[1],
            order[3],
        ) && comes_before(extents, order[2], order[3]));
    }
    let sorted = sorted_extents(extents);
    assert forall|i: int| 0 <= i < sorted.len() implies #[trigger] sorted[i] == start + stride * i by {
    }
}

/// The primary tree of an image that was laid out is read back, whether or not the
/// image has a Joliet volume.
#[verifier::rlimit(100)]
#[verifier::spinoff_prover]
pub proof fn primary_is_parsed(
    iso: IsoModel,
    lengths: Seq<FileLengthModel>,
    layout: LayoutModel,
    blocks: Seq<Block>,
)
    requires
        is_layout(iso, lengths, layout),
        is_filled(layout, blocks),
        has_quiet_slack(iso, places_of(iso, lengths).state),
        has_readable_tables(iso, places_of(iso, lengths)),
        audio_ends(iso, places_of(iso, lengths).state),
        blocks.len() > 22,
    ensures
        ({
            let state = places_of(iso, lengths).state;
            let parsed = plain_parsed(blocks);
            let manifest = parsed->Ok_0.manifest;
            &&& parsed is Ok
            &&& are_read_of(iso, state, blocks, manifest.entries)
            &&& parsed->Ok_0.directories == all_found(
                state.primary.placements,
                state.primary.placements.len() as int,
            )
            &&& parsed->Ok_0.tables == (TablesModel {
                extents: state.tables,
                blocks: places_of(iso, lengths).table.blocks,
            })
            &&& parsed->Ok_0.set == (VolumeSet {
                primary_copies: iso.primary_volume_copies,
                supplementary: iso.supplementary_volumes.len() > 0,
            })
            &&& parsed->Ok_0.files == told_tally(iso, state).files
            &&& manifest == told(
                iso,
                places_of(iso, lengths),
                size_of_volume(iso, lengths),
                blocks,
                manifest.directory_record_packing,
                manifest.directory_parent_recording_time,
            )
            &&& manifest.directory_record_packing == iso.directory_record_packing
                || manifest.directory_record_packing == DirectoryRecordPacking::Fill
            &&& manifest.directory_parent_recording_time == iso.directory_parent_recording_time
                || manifest.directory_parent_recording_time == DirectoryParentRecordingTime::Parent
            &&& manifest.directory_record_packing == iso.directory_record_packing
                || have_plain_packing(iso, state, 0)
            &&& manifest.directory_parent_recording_time == iso.directory_parent_recording_time
                || have_times_of_parents(iso, state, 0)
        }),
{
    let placed = places_of(iso, lengths);
    let state = placed.state;
    let image = filled_image(blocks);
    let size = size_of_volume(iso, lengths);
    let place = primary_place(state, placed.table, size);
    assert(placed_filesystem(iso, lengths) == Ok::<Placed, Failure>(placed) && description_check(
        iso,
    ) is Ok) by {
        reveal(is_layout);
        reveal(places_of);
    }
    layout_is_walkable(iso, lengths, layout, blocks);
    layout_holds_parts(iso, lengths, layout);
    filled_holds_parts(iso, lengths, layout, blocks);
    parts_are_apart(iso, lengths, placed);
    tables_stand_apart(iso, lengths, placed);
    volume_has_size(iso, lengths, layout);
    assert(views(blocks).len() == blocks.len());
    assert(blocks.len() == state.next);
    let block = descriptor_of(iso, placed, size);
    assert(descriptors_lie(iso, placed, size, image) && table_bytes(
        state.primary.placements,
        placed.table.size,
        iso.path_table_little_hex,
        iso.path_table_big_hex,
    ) is Ok && tables_lie(
        state.tables,
        placed.table,
        tables_of_layout(iso, placed),
        image,
    )) by {
        reveal(holds_parts);
    }
    volumes_are_found(iso, placed, size, image, blocks);
    head_is_read(iso, lengths, placed, size, block);
    root_is_read(iso.primary_volume, place, iso.entries[0], block);
    let head = primary_head(block, blocks.len() as int)->Ok_0;
    let root = primary_root(block)->Ok_0;
    walk_starts(iso, state, blocks, root);
    let start = primary_start(blocks, root)->Ok_0;
    walk_finds_tree(iso, state, blocks, start.walk);
    let walk = walked_from(blocks, iso.xa_system_use, start.walk, 0, 0)->Ok_0;
    assert(are_read_of(iso, state, blocks, start.walk.entries));
    tree_comes_from(iso, state, blocks, 0, start.walk.entries);
    assert(walk.entries[0].extent is None && walk.entries[0].directory_reference is None);
    extents_end(iso, state, blocks, walk.entries, blocks.len() as u32, 0);
    assert(references_lie(iso, state.primary.placements)) by {
        assert forall|i: int|
            0 <= i < state.primary.placements.len() && is_reference(
                iso,
                #[trigger] state.primary.placements[i],
            ) implies {
            let directory = state.primary.placements[i];
            let reference = iso.entries[directory.entry].directory_reference->Some_0;
            directory.extent == reference.extent && directory.length == reference.length
        } by {
            reference_stays(iso, lengths, placed, i);
        }
    }
    tables_are_read(iso, placed, image, blocks, head, walk.entries);
    if iso.supplementary_volumes.len() == 0 {
        padding_is_read(iso, lengths, placed);
    }
    reveal(plain_parsed);
    reveal(told);
    assert(plain_parsed(blocks)->Ok_0.manifest =~= told(
        iso,
        placed,
        size,
        blocks,
        plain_parsed(blocks)->Ok_0.manifest.directory_record_packing,
        plain_parsed(blocks)->Ok_0.manifest.directory_parent_recording_time,
    ));
}

/// What was laid out is read back: an image without a Joliet volume is read as the
/// tree that its description has, each directory where it was placed, with its
/// descriptors and path tables as they were described. Left out are bytes behind the
/// records of a directory among which a record could begin, path tables that cannot be
/// read, audio that would end past the last block that has a number, and images of
/// fewer blocks than an image can have.
pub proof fn image_is_parsed(
    iso: IsoModel,
    lengths: Seq<FileLengthModel>,
    layout: LayoutModel,
    blocks: Seq<Block>,
)
    requires
        is_layout(iso, lengths, layout),
        is_filled(layout, blocks),
        iso.supplementary_volumes.len() == 0,
        has_quiet_slack(iso, places_of(iso, lengths).state),
        has_readable_tables(iso, places_of(iso, lengths)),
        audio_ends(iso, places_of(iso, lengths).state),
        blocks.len() > 22,
    ensures
        ({
            let state = places_of(iso, lengths).state;
            let parsed = parsed_iso(blocks);
            let manifest = parsed->Ok_0.manifest;
            &&& parsed is Ok
            &&& are_read_of(iso, state, blocks, manifest.entries)
            &&& parsed->Ok_0.directories == all_found(
                state.primary.placements,
                state.primary.placements.len() as int,
            )
            &&& parsed->Ok_0.path_tables == Some(
                TablesModel {
                    extents: state.tables,
                    blocks: places_of(iso, lengths).table.blocks,
                },
            )
            &&& parsed->Ok_0.files == told_tally(iso, state).files
            &&& manifest == told(
                iso,
                places_of(iso, lengths),
                size_of_volume(iso, lengths),
                blocks,
                manifest.directory_record_packing,
                manifest.directory_parent_recording_time,
            )
            &&& manifest.directory_record_packing == iso.directory_record_packing
                || manifest.directory_record_packing == DirectoryRecordPacking::Fill
            &&& manifest.directory_parent_recording_time == iso.directory_parent_recording_time
                || manifest.directory_parent_recording_time == DirectoryParentRecordingTime::Parent
            &&& manifest.directory_record_packing == iso.directory_record_packing
                || have_plain_packing(iso, state, 0)
            &&& manifest.directory_parent_recording_time == iso.directory_parent_recording_time
                || have_times_of_parents(iso, state, 0)
        }),
{
    primary_is_parsed(iso, lengths, layout, blocks);
}

/// A description without a Joliet volume that is told as it is read comes back whole:
/// an image that was laid out from it is read as that very description, and is laid out
/// from what was read with everything where it was. This holds only of such
/// descriptions, those whose entries, texts and times are the ones that reading gives;
/// files without data are among them.
pub proof fn image_is_rebuilt(
    iso: IsoModel,
    lengths: Seq<FileLengthModel>,
    layout: LayoutModel,
    blocks: Seq<Block>,
)
    requires
        is_layout(iso, lengths, layout),
        is_filled(layout, blocks),
        audio_ends(iso, places_of(iso, lengths).state),
        has_readable_tables(iso, places_of(iso, lengths)),
        blocks.len() > 22,
        iso.directory_record_packing == DirectoryRecordPacking::Fill,
        iso.directory_parent_recording_time == DirectoryParentRecordingTime::Parent,
        has_quiet_slack(iso, places_of(iso, lengths).state),
        iso == told(
            iso,
            places_of(iso, lengths),
            size_of_volume(iso, lengths),
            blocks,
            iso.directory_record_packing,
            iso.directory_parent_recording_time,
        ),
    ensures
        parsed_iso(blocks) is Ok,
        parsed_iso(blocks)->Ok_0.manifest == iso,
        layout_of(parsed_iso(blocks)->Ok_0.manifest, lengths) == Ok::<LayoutModel, Failure>(layout),
{
    assert(iso.supplementary_volumes.len() == 0) by {
        reveal(told);
    }
    image_is_parsed(iso, lengths, layout, blocks);
    reveal(is_layout);
}

} // verus!
