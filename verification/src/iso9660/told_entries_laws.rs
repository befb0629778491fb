//! The entries that are told of an image describe what those that it was laid out from
//! do, and pass the same checks.
use vstd::prelude::*;

use crate::error::{ErrorKind, Failure};
use crate::iso9660::description::{
    DirectoryReference, IdentifierPolicy, IsoModel, MetadataLayoutItem,
};
use crate::iso9660::directory::SpotModel;
use crate::iso9660::directory_laws::{recording_time_length, told_slack};
use crate::iso9660::file_order_laws::{
    audio_is_told, extents_show, files_lie_in_order, placed_files_lie_in_order,
};
use crate::iso9660::layout::{
    joliet_plan, layout_placed, nothing_placed, place_joliet_metadata, place_plain_metadata,
    placed_filesystem, primary_options, primary_spots, reference_marks, sized_directories_from,
    sized_directory, table_size_from, LayoutModel, Placed,
};
use crate::iso9660::layout_laws::{
    filled_holds_parts, is_filled, is_layout, layout_holds_parts, places_of,
};
use crate::iso9660::metadata::all_allocated;
use crate::iso9660::parse::file_order;
use crate::iso9660::parse_laws::{
    audio_ends, has_readable_tables, spots_of, told, told_entries, told_root, told_tally,
};
use crate::iso9660::path_table::{find_directory, PlacementModel};
use crate::iso9660::paths::{component_check, component_checks, is_level1, path_check};
use crate::iso9660::placing::{
    place_directory, place_group_from, place_metadata_from, place_metadata_item, FileLengthModel,
    PlacingModel,
};
use crate::iso9660::placing_laws::{are_sized, primary_order, sized_references_take_nothing};
use crate::iso9660::reading_laws::{has_quiet_slack, layout_is_walkable};
use crate::iso9660::record::{is_cdda, system_use_bytes};
use crate::iso9660::record_laws::xa_bytes_survive;
use crate::iso9660::retelling_laws::{
    all_are_listed, framed_are_listed, listed_has_entry, origins_are_complete, parent_is_listed,
    tally_is_told, tally_over, told_entry, told_origins, tree_is_told,
};
use crate::iso9660::retold_layout_laws::{directory_uses_xa, root_is_directory};
use crate::iso9660::subheaders::{
    frame_tables_from, mark_directories_from, mark_tables_from, subheaders_of, SubheaderModel,
};
use crate::iso9660::table_laws::contents_keep_tables;
use crate::iso9660::time::recording_time_bytes;
use crate::iso9660::time_laws::recording_time_survives;
use crate::iso9660::tree::{is_child, is_file, is_omitted, primary_nodes};
use crate::iso9660::tree_walk_laws::{
    all_found, directories_follow_order, is_readable, is_reference, is_walkable,
    records_are_accepted, reference_is_empty,
};
use crate::iso9660::validate::{description_check, entry_check, is_form2_xa, is_known};
use crate::iso9660::walk::uses_xa;
use crate::iso9660::walk_laws::{
    checked_is_tree, flags_tell, is_tree, is_written, model_at, name_is_last_component,
    name_is_read, written_xa_is_accepted, xa_at, Tally,
};
use crate::manifest::{DirectoryLengthPolicy, EntrySectorSubheader, MetadataVolume};
use crate::model::first_failure_ok;
use crate::raw_cd::Block;
use crate::text::{components, last_index_of, last_index_of_is_last, name_of, parent_of, root_path};

verus! {

/// All directories of an image are as long as their blocks.
pub open spec fn has_whole_lengths(iso: IsoModel, placed: Placed) -> bool {
    let primary = placed.state.primary.placements;
    let joliet = placed.state.joliet.placements;
    &&& all_allocated(all_found(primary, primary.len() as int))
    &&& iso.supplementary_volumes.len() > 0 ==> all_allocated(
        all_found(joliet, joliet.len() as int),
    )
}

/// No entry refers to blocks that are not its own.
pub open spec fn refers_to_nothing(iso: IsoModel) -> bool {
    forall|i: int|
        0 <= i < iso.entries.len() ==> (#[trigger] iso.entries[i]).extent is None
            && iso.entries[i].directory_reference is None
}

/// Which lengths directories record is told of an image: those of their blocks, or in an
/// image with a Joliet volume whose entries refer to nothing, those of their records.
pub open spec fn lengths_are_told(iso: IsoModel, placed: Placed) -> bool {
    ||| iso.directory_length_policy == DirectoryLengthPolicy::Allocated
    ||| has_whole_lengths(iso, placed)
    ||| iso.supplementary_volumes.len() > 0 && refers_to_nothing(iso)
}

/// No less of the path tables than there is is recorded where they are made.
pub open spec fn tables_show(iso: IsoModel, placed: Placed) -> bool {
    iso.path_table_little_hex is None ==> placed.table.size >= table_size_from(
        primary_order(iso),
        0,
    )
}

/// The primary tree of an image whose file area holds nothing but files, which are told
/// in their order, can be read.
#[verifier::opaque]
pub open spec fn is_plain_image(
    iso: IsoModel,
    lengths: Seq<FileLengthModel>,
    layout: LayoutModel,
    blocks: Seq<Block>,
) -> bool {
    &&& is_layout(iso, lengths, layout)
    &&& is_filled(layout, blocks)
    &&& lengths_are_told(iso, places_of(iso, lengths))
    &&& forall|i: int| 0 <= i < iso.files.len() ==> (#[trigger] iso.files[i]) is Path
    &&& file_order(told_tally(iso, places_of(iso, lengths).state).files) == iso.files
    &&& has_quiet_slack(iso, places_of(iso, lengths).state)
    &&& has_readable_tables(iso, places_of(iso, lengths))
    &&& tables_show(iso, places_of(iso, lengths))
    &&& audio_ends(iso, places_of(iso, lengths).state)
    &&& blocks.len() > 22
}

/// No file without a fixed extent is read as one whose sectors are of form 2.
pub open spec fn forms_show(iso: IsoModel, state: PlacingModel) -> bool {
    let spots = primary_spots(iso, state, primary_nodes(iso));
    let trailing = primary_options(iso).trailing_system_use_padding;
    forall|k: int|
        0 <= k < iso.entries.len() && (#[trigger] iso.entries[k]).extent is None ==> !is_form2_xa(
            xa_at(iso, spots, trailing, k),
        )
}

/// What a layout was made by.
proof fn layout_was_made(iso: IsoModel, lengths: Seq<FileLengthModel>, layout: LayoutModel)
    requires
        is_layout(iso, lengths, layout),
    ensures
        description_check(iso) is Ok,
        placed_filesystem(iso, lengths) == Ok::<Placed, Failure>(places_of(iso, lengths)),
        layout_placed(iso, places_of(iso, lengths)) == Ok::<LayoutModel, Failure>(layout),
        layout.files == places_of(iso, lengths).state.files,
        subheaders_of(
            iso,
            places_of(iso, lengths).state,
            places_of(iso, lengths).table.blocks,
            match places_of(iso, lengths).joliet {
                Some(plan) => plan.table.blocks,
                None => 0,
            },
        ) is Ok,
{
    reveal(is_layout);
    reveal(places_of);
}

/// Every directory of a filesystem that was laid out has a place.
pub proof fn all_have_places(iso: IsoModel, lengths: Seq<FileLengthModel>, layout: LayoutModel)
    requires
        is_layout(iso, lengths, layout),
    ensures
        all_are_listed(iso, places_of(iso, lengths).state.primary.placements),
{
    let placed = places_of(iso, lengths);
    let state = placed.state;
    layout_was_made(iso, lengths, layout);
    checked_is_tree(iso);
    layout_holds_parts(iso, lengths, layout);
    let none = SubheaderModel {
        data: Set::empty(),
        end_of_file: Set::empty(),
        metadata: Set::empty(),
        framing: Map::empty(),
        file_numbers: Map::empty(),
    };
    let framed = frame_tables_from(iso, none, state.tables, placed.table.blocks, 0);
    let marks = if iso.supplementary_volumes.len() > 0 {
        mark_directories_from(
            mark_tables_from(
                framed,
                state.joliet_tables + state.tables,
                state.joliet_tables,
                placed.table.blocks,
                match placed.joliet {
                    Some(plan) => plan.table.blocks,
                    None => 0,
                },
                0,
            ),
            state.joliet.placements,
            0,
        )
    } else {
        framed
    };
    framed_are_listed(iso, state, marks, 0);
}

/// What holds of an image that can be read.
pub proof fn plain_image_has(
    iso: IsoModel,
    lengths: Seq<FileLengthModel>,
    layout: LayoutModel,
    blocks: Seq<Block>,
)
    requires
        is_plain_image(iso, lengths, layout, blocks),
    ensures
        ({
            let placed = places_of(iso, lengths);
            let state = placed.state;
            &&& description_check(iso) is Ok
            &&& placed_filesystem(iso, lengths) == Ok::<Placed, Failure>(placed)
            &&& is_tree(iso)
            &&& are_sized(iso, state.primary.placements)
            &&& all_are_listed(iso, state.primary.placements)
            &&& is_walkable(iso, state, blocks)
            &&& files_lie_in_order(iso, state.files, iso.files.len() as int, state.next)
            &&& file_order(told_tally(iso, state).files) == iso.files
            &&& blocks.len() == state.next
            &&& layout.files == state.files
            &&& state.trailing is None
        }),
{
    reveal(is_plain_image);
    let placed = places_of(iso, lengths);
    let state = placed.state;
    layout_was_made(iso, lengths, layout);
    checked_is_tree(iso);
    layout_holds_parts(iso, lengths, layout);
    layout_is_walkable(iso, lengths, layout, blocks);
    placed_files_lie_in_order(iso, lengths, placed);
    filled_holds_parts(iso, lengths, layout, blocks);
    all_have_places(iso, lengths, layout);
}

/// The record of every entry can be written.
pub proof fn all_are_written(
    iso: IsoModel,
    lengths: Seq<FileLengthModel>,
    layout: LayoutModel,
    blocks: Seq<Block>,
    index: int,
)
    requires
        is_plain_image(iso, lengths, layout, blocks),
        0 <= index < iso.entries.len(),
    ensures
        is_written(iso, spots_of(iso, places_of(iso, lengths).state), index),
        index == 0 ==> spots_of(iso, places_of(iso, lengths).state)[0].length->Ok_0 > 0,
        index == 0 ==> primary_nodes(iso)[0].directory,
{
    plain_image_has(iso, lengths, layout, blocks);
    let state = places_of(iso, lengths).state;
    let directories = state.primary.placements;
    let nodes = primary_nodes(iso);
    directories_follow_order(iso, directories);
    root_is_directory(iso);
    if index == 0 {
        if is_reference(iso, directories[0]) {
            reference_is_empty(iso, directories, 0);
        }
        assert(is_readable(iso, state, blocks, 0));
        reveal(is_readable);
        directory_uses_xa(iso, 0);
        assert(find_directory(directories, directories[0].path) == 0);
    } else {
        parent_is_listed(iso, directories, index);
        let at = find_directory(directories, parent_of(iso.entries[index].path));
        assert(!is_reference(iso, directories[at]));
        assert(is_readable(iso, state, blocks, at));
        reveal(is_readable);
        records_are_accepted(iso, state, at);
        assert(is_child(nodes[index], directories[at].path));
    }
}

/// The metadata area leaves directories of the primary tree that have a place there.
proof fn group_keeps_places(state: PlacingModel, volume: MetadataVolume, index: int, at: int)
    requires
        0 <= at < state.primary.placements.len(),
        state.primary.placements.len() == state.primary.placed.len(),
        state.primary.placed[at],
        0 <= index,
    ensures
        place_group_from(state, volume, index) matches Ok(after) ==> keeps_place(state, after, at),
    decreases state.tree(volume).placements.len() - index,
{
    let tree = state.tree(volume);
    if index < tree.placements.len() {
        if volume == MetadataVolume::Joliet || !tree.placed[index] {
            let after = place_directory(state, volume, index, ErrorKind::MetadataDirectoryOverflow);
            if after is Ok {
                assert(keeps_place(state, after->Ok_0, at));
                group_keeps_places(after->Ok_0, volume, index + 1, at);
            }
        } else {
            group_keeps_places(state, volume, index + 1, at);
        }
    }
}

/// A directory of the primary tree that has a place keeps it.
spec fn keeps_place(before: PlacingModel, after: PlacingModel, at: int) -> bool {
    &&& after.primary.placements.len() == before.primary.placements.len()
    &&& after.primary.placed.len() == before.primary.placed.len()
    &&& after.primary.placed[at]
    &&& after.primary.placements[at] == before.primary.placements[at]
}

proof fn metadata_keeps_places(
    items: Seq<MetadataLayoutItem>,
    state: PlacingModel,
    blocks: u32,
    joliet_blocks: u32,
    index: int,
    at: int,
)
    requires
        0 <= at < state.primary.placements.len(),
        state.primary.placements.len() == state.primary.placed.len(),
        state.primary.placed[at],
    ensures
        place_metadata_from(items, state, blocks, joliet_blocks, index) matches Ok(after)
            ==> keeps_place(state, after, at),
    decreases items.len() - index,
{
    if 0 <= index < items.len() {
        if let MetadataLayoutItem::Directories(volume) = items[index] {
            group_keeps_places(state, volume, 0, at);
        }
        if let Ok(after) = place_metadata_item(state, items[index], blocks, joliet_blocks) {
            assert(keeps_place(state, after, at));
            metadata_keeps_places(items, after, blocks, joliet_blocks, index + 1, at);
        }
    }
}

/// The directories that are only referred to stay where they are.
pub proof fn reference_stays(iso: IsoModel, lengths: Seq<FileLengthModel>, placed: Placed, index: int)
    requires
        placed_filesystem(iso, lengths) == Ok::<Placed, Failure>(placed),
        is_tree(iso),
        are_sized(iso, placed.state.primary.placements),
        0 <= index < placed.state.primary.placements.len(),
        is_reference(iso, placed.state.primary.placements[index]),
    ensures
        ({
            let directory = placed.state.primary.placements[index];
            let reference = iso.entries[directory.entry].directory_reference->Some_0;
            directory.extent == reference.extent && directory.length == reference.length
        }),
{
    let nodes = primary_nodes(iso);
    let order = primary_order(iso);
    let sized = sized_directories_from(iso, nodes, order, 0, Seq::empty())->Ok_0;
    sized_references_take_nothing(iso, nodes, order, 0, Seq::empty());
    reference_is_empty(iso, placed.state.primary.placements, index);
    directories_follow_order(iso, placed.state.primary.placements);
    assert(sized_directory(iso, nodes, order[index]) == Ok::<PlacementModel, Failure>(
        sized[index],
    ));
    assert(reference_marks(iso, sized)[index]);
    let state = if iso.supplementary_volumes.len() > 0 {
        let plan = joliet_plan(iso)->Ok_0;
        metadata_keeps_places(
            iso.metadata_layout,
            nothing_placed(
                iso,
                sized,
                plan.directories,
                (17 + iso.primary_volume_copies + iso.supplementary_volumes.len()) as u32,
            ),
            placed.table.blocks,
            plan.table.blocks,
            0,
            index,
        );
        place_joliet_metadata(
            iso,
            sized,
            plan.directories,
            placed.table.blocks,
            plan.table.blocks,
        )->Ok_0
    } else {
        place_plain_metadata(iso, sized, placed.table.blocks)->Ok_0
    };
    contents_keep_tables(iso, lengths, state);
    assert(state.primary.placed[index]);
    assert(state.primary.placements[index] == sized[index]);
    assert(placed.state.primary.placements[index] == state.primary.placements[index]);
}

/// What is told of an entry, by its parts.
#[verifier::rlimit(40)]
pub proof fn entry_is_told(
    iso: IsoModel,
    lengths: Seq<FileLengthModel>,
    layout: LayoutModel,
    blocks: Seq<Block>,
    index: int,
)
    requires
        is_plain_image(iso, lengths, layout, blocks),
        extents_show(iso, places_of(iso, lengths).state),
        0 <= index < iso.entries.len(),
    ensures
        ({
            let state = places_of(iso, lengths).state;
            let spots = spots_of(iso, state);
            let trailing = primary_options(iso).trailing_system_use_padding;
            let entry = iso.entries[index];
            let node = primary_nodes(iso)[index];
            let again = told_entry(iso, state, blocks, index);
            &&& again.path == entry.path
            &&& again.directory_reference == entry.directory_reference
            &&& (again.extent is Some) == (entry.extent is Some)
            &&& (again.length is Some) == (entry.extent is Some)
            &&& again.extent is Some ==> again.extent->Some_0 == spots[index].extent
                && again.length->Some_0 == spots[index].length->Ok_0
            &&& again.directory_slack == told_slack(entry.directory_slack)
            &&& recording_time_bytes(again.recording_time) == recording_time_bytes(
                entry.recording_time,
            )
            &&& again.hidden == entry.hidden
            &&& again.associated == entry.associated
            &&& system_use_bytes(again.path, again.xa, node.directory, node.system_use)
                == system_use_bytes(entry.path, entry.xa, node.directory, node.system_use)
            &&& system_use_bytes(entry.path, entry.xa, node.directory, node.system_use) is Ok
            &&& again.xa == xa_at(iso, spots, trailing, index)
            &&& is_cdda(again.xa) == (entry.extent is Some)
            &&& again.allocation_padding_hex is Some ==> !node.directory && entry.extent is None
            &&& !again.unbacked
            &&& again.sector_subheader == EntrySectorSubheader::Canonical
            &&& entry.extent is Some ==> !node.directory
        }),
{
    plain_image_has(iso, lengths, layout, blocks);
    all_are_written(iso, lengths, layout, blocks, index);
    let placed = places_of(iso, lengths);
    let state = placed.state;
    let directories = state.primary.placements;
    let nodes = primary_nodes(iso);
    let node = nodes[index];
    let spots = spots_of(iso, state);
    let trailing = primary_options(iso).trailing_system_use_padding;
    let record = model_at(iso, spots, trailing, index);
    let entry = iso.entries[index];
    name_is_read(iso, spots, trailing, index);
    flags_tell(node.directory, node.hidden, node.associated);
    audio_is_told(iso, state, index);
    recording_time_length(entry.recording_time);
    recording_time_survives(recording_time_bytes(entry.recording_time)->Ok_0);
    let data = record.system_use;
    written_xa_is_accepted(node.path, node.xa, node.directory, node.system_use, data);
    assert(entry_check(iso, index) is Ok);
    if node.system_use {
        assert(uses_xa(record, iso.xa_system_use));
        xa_bytes_survive(
            node.path,
            data,
            node.directory,
            xa_at(iso, spots, trailing, index),
        );
    }
    if node.directory {
        listed_has_entry(iso, directories, index);
        let at = find_directory(directories, entry.path);
        assert(spots[index].extent == directories[at].extent && spots[index].length == Ok::<
            u32,
            Failure,
        >(directories[at].length));
        if is_reference(iso, directories[at]) {
            reference_stays(iso, lengths, placed, at);
            let reference = entry.directory_reference->Some_0;
            assert(reference == (DirectoryReference {
                extent: reference.extent,
                length: reference.length,
            }));
        } else {
            assert(is_readable(iso, state, blocks, at));
            reveal(is_readable);
        }
    }
}

/// All entries, the root among them, are told alike.
pub proof fn all_entries_are_told(
    iso: IsoModel,
    lengths: Seq<FileLengthModel>,
    layout: LayoutModel,
    blocks: Seq<Block>,
)
    requires
        is_plain_image(iso, lengths, layout, blocks),
        extents_show(iso, places_of(iso, lengths).state),
    ensures
        ({
            let state = places_of(iso, lengths).state;
            let entries = told_entries(iso, state, blocks);
            let origins = told_origins(iso, state);
            &&& entries.len() == origins.len()
            &&& forall|e: int|
                0 <= e < entries.len() ==> #[trigger] entries[e] == told_entry(
                    iso,
                    state,
                    blocks,
                    origins[e],
                )
        }),
{
    plain_image_has(iso, lengths, layout, blocks);
    let state = places_of(iso, lengths).state;
    let origins = told_origins(iso, state);
    let entries = told_entries(iso, state, blocks);
    let root = told_root(iso);
    tree_is_told(iso, state, blocks, root);
    origins_are_complete(iso, state);
    all_are_written(iso, lengths, layout, blocks, 0);
    entry_is_told(iso, lengths, layout, blocks, 0);
    let spots = spots_of(iso, state);
    let trailing = primary_options(iso).trailing_system_use_padding;
    let node = primary_nodes(iso)[0];
    let record = model_at(iso, spots, trailing, 0);
    name_is_read(iso, spots, trailing, 0);
    flags_tell(node.directory, node.hidden, node.associated);
    directory_uses_xa(iso, 0);
    written_xa_is_accepted(node.path, node.xa, node.directory, node.system_use, record.system_use);
    audio_is_told(iso, state, 0);
    assert(entries[0] =~= told_entry(iso, state, blocks, 0));
}

/// The paths that are told to have no XA data are those of the given indexes whose
/// records have none though others have.
proof fn omissions_are_tallied(
    iso: IsoModel,
    spots: Seq<SpotModel>,
    trailing: bool,
    indexes: Seq<int>,
    tally: Tally,
)
    requires
        is_tree(iso),
        tally.omissions.len() == 0,
        tally.policy == IdentifierPolicy::IsoLevel1,
        forall|i: int| 0 <= i < indexes.len() ==> 0 <= #[trigger] indexes[i] < iso.entries.len(),
        forall|i: int, j: int|
            0 <= i < j < indexes.len() ==> #[trigger] indexes[i] != #[trigger] indexes[j],
    ensures
        ({
            let told = tally_over(iso, spots, trailing, indexes, tally);
            let nodes = primary_nodes(iso);
            &&& forall|a: int| 0 <= a < told.omissions.len() ==> is_left_out(
                iso,
                indexes,
                #[trigger] told.omissions[a],
            )
            &&& forall|i: int|
                0 <= i < indexes.len() && iso.xa_system_use && !nodes[
                    #[trigger] indexes[i]
                ].system_use ==> told.omissions.contains(iso.entries[indexes[i]].path)
            &&& forall|a: int, b: int|
                0 <= a < b < told.omissions.len() ==> #[trigger] told.omissions[a]
                    != #[trigger] told.omissions[b]
            &&& told.policy == IdentifierPolicy::IsoLevel1 ==> forall|i: int|
                0 <= i < indexes.len() ==> is_level1(
                    name_of(iso.entries[#[trigger] indexes[i]].path),
                    !nodes[indexes[i]].directory,
                )
            &&& told.policy != IdentifierPolicy::IsoLevel1 ==> exists|i: int|
                0 <= i < indexes.len() && !is_level1(
                    name_of(iso.entries[#[trigger] indexes[i]].path),
                    !nodes[indexes[i]].directory,
                )
        }),
    decreases indexes.len(),
{
    if indexes.len() > 0 {
        let nodes = primary_nodes(iso);
        let init = indexes.drop_last();
        assert forall|i: int| 0 <= i < init.len() implies 0 <= #[trigger] init[i]
            < iso.entries.len() by {
            assert(init[i] == indexes[i]);
        }
        assert forall|i: int, j: int| 0 <= i < j < init.len() implies #[trigger] init[i]
            != #[trigger] init[j] by {
            assert(indexes[i] != indexes[j]);
        }
        omissions_are_tallied(iso, spots, trailing, init, tally);
        let before = tally_over(iso, spots, trailing, init, tally);
        let told = tally_over(iso, spots, trailing, indexes, tally);
        let last = indexes[indexes.len() - 1];
        assert forall|a: int| 0 <= a < told.omissions.len() implies is_left_out(
            iso,
            indexes,
            #[trigger] told.omissions[a],
        ) by {
            if a < before.omissions.len() {
                assert(told.omissions[a] == before.omissions[a]);
                assert(is_left_out(iso, init, before.omissions[a]));
                let i = choose|i: int|
                    0 <= i < init.len() && iso.xa_system_use && !nodes[
                        #[trigger] init[i]
                    ].system_use && before.omissions[a] == iso.entries[init[i]].path;
                assert(indexes[i] == init[i]);
            } else {
                assert(told.omissions[a] == iso.entries[last].path);
            }
        }
        assert forall|i: int|
            0 <= i < indexes.len() && iso.xa_system_use && !nodes[
                #[trigger] indexes[i]
            ].system_use implies told.omissions.contains(iso.entries[indexes[i]].path) by {
            let path = iso.entries[indexes[i]].path;
            if i < init.len() {
                assert(init[i] == indexes[i]);
                assert(before.omissions.contains(path));
                let a = choose|a: int|
                    0 <= a < before.omissions.len() && before.omissions[a] == path;
                assert(told.omissions[a] == path);
            } else {
                assert(told.omissions[told.omissions.len() - 1] == path);
            }
        }
        assert forall|a: int, b: int| 0 <= a < b < told.omissions.len() implies
            #[trigger] told.omissions[a] != #[trigger] told.omissions[b] by {
            assert(told.omissions[a] == before.omissions[a]);
            if b < before.omissions.len() {
                assert(told.omissions[b] == before.omissions[b]);
            } else {
                assert(is_left_out(iso, init, before.omissions[a]));
                let i = choose|i: int|
                    0 <= i < init.len() && iso.xa_system_use && !nodes[
                        #[trigger] init[i]
                    ].system_use && before.omissions[a] == iso.entries[init[i]].path;
                assert(indexes[i] != indexes[indexes.len() - 1]);
                if init[i] < last {
                    assert(iso.entries[init[i]].path != iso.entries[last].path);
                } else {
                    assert(iso.entries[last].path != iso.entries[init[i]].path);
                }
            }
        }
        if told.policy == IdentifierPolicy::IsoLevel1 {
            assert forall|i: int| 0 <= i < indexes.len() implies is_level1(
                name_of(iso.entries[#[trigger] indexes[i]].path),
                !nodes[indexes[i]].directory,
            ) by {
                if i < init.len() {
                    assert(init[i] == indexes[i]);
                }
            }
        } else {
            if is_level1(name_of(iso.entries[last].path), !nodes[last].directory) {
                let i = choose|i: int|
                    0 <= i < init.len() && !is_level1(
                        name_of(iso.entries[#[trigger] init[i]].path),
                        !nodes[init[i]].directory,
                    );
                assert(indexes[i] == init[i]);
            } else {
                assert(indexes[indexes.len() - 1] == last);
            }
        }
    }
}

/// The path is that of one of the given indexes whose record has no XA data though
/// others have.
pub open spec fn is_left_out(iso: IsoModel, indexes: Seq<int>, path: Seq<char>) -> bool {
    exists|i: int|
        0 <= i < indexes.len() && iso.xa_system_use && !primary_nodes(iso)[
            #[trigger] indexes[i]
        ].system_use && path == iso.entries[indexes[i]].path
}

/// What is told besides the entries is told of the indexes after the root's.
pub proof fn tally_has_indexes(
    iso: IsoModel,
    lengths: Seq<FileLengthModel>,
    layout: LayoutModel,
    blocks: Seq<Block>,
)
    requires
        is_plain_image(iso, lengths, layout, blocks),
    ensures
        ({
            let state = places_of(iso, lengths).state;
            let indexes = told_origins(iso, state).skip(1);
            &&& is_tree(iso)
            &&& told_tally(iso, state) == tally_over(
                iso,
                spots_of(iso, state),
                primary_options(iso).trailing_system_use_padding,
                indexes,
                Tally {
                    files: Seq::empty(),
                    omissions: Seq::empty(),
                    policy: IdentifierPolicy::IsoLevel1,
                },
            )
            &&& forall|i: int|
                0 <= i < indexes.len() ==> 0 < #[trigger] indexes[i] < iso.entries.len()
            &&& forall|i: int, j: int|
                0 <= i < j < indexes.len() ==> #[trigger] indexes[i] != #[trigger] indexes[j]
            &&& forall|k: int| 0 < k < iso.entries.len() ==> #[trigger] indexes.contains(k)
        }),
{
    plain_image_has(iso, lengths, layout, blocks);
    let state = places_of(iso, lengths).state;
    let origins = told_origins(iso, state);
    let empty = Tally {
        files: Seq::empty(),
        omissions: Seq::empty(),
        policy: IdentifierPolicy::IsoLevel1,
    };
    origins_are_complete(iso, state);
    tally_is_told(iso, state, 0, seq![0int], empty);
    assert(seq![0int].skip(1) =~= Seq::<int>::empty());
    let indexes = origins.skip(1);
    assert forall|i: int| 0 <= i < indexes.len() implies 0 < #[trigger] indexes[i]
        < iso.entries.len() by {
        assert(origins[i + 1] == indexes[i]);
    }
    assert forall|i: int, j: int| 0 <= i < j < indexes.len() implies #[trigger] indexes[i]
        != #[trigger] indexes[j] by {
        assert(origins[i + 1] != origins[j + 1]);
    }
    assert forall|k: int| 0 < k < iso.entries.len() implies #[trigger] indexes.contains(k) by {
        assert(primary_nodes(iso).len() == iso.entries.len());
        assert(origins.contains(k));
        let e = choose|e: int| 0 <= e < origins.len() && origins[e] == k;
        assert(indexes[e - 1] == k);
    }
}

/// Paths are those of the files whose records have no XA data though others have, each
/// once.
pub open spec fn are_omissions(iso: IsoModel, omissions: Seq<Seq<char>>) -> bool {
    &&& omissions.len() > 0 ==> iso.xa_system_use
    &&& forall|a: int| 0 <= a < omissions.len() ==> is_file(iso, #[trigger] omissions[a])
    &&& forall|a: int, b: int|
        0 <= a < b < omissions.len() ==> #[trigger] omissions[a] != #[trigger] omissions[b]
    &&& forall|k: int|
        0 <= k < iso.entries.len() ==> omits_rightly(iso, omissions, (#[trigger] iso.entries[k]).path, k)
}

/// The path of an entry is among those without XA data exactly where it has none though
/// others have.
pub open spec fn omits_rightly(iso: IsoModel, omissions: Seq<Seq<char>>, path: Seq<char>, index: int) -> bool {
    omissions.contains(path) <==> iso.xa_system_use && !primary_nodes(iso)[index].system_use
}

/// What is told of the files whose records have no XA data.
pub proof fn omissions_are_told(
    iso: IsoModel,
    lengths: Seq<FileLengthModel>,
    layout: LayoutModel,
    blocks: Seq<Block>,
)
    requires
        is_plain_image(iso, lengths, layout, blocks),
    ensures
        are_omissions(iso, told_tally(iso, places_of(iso, lengths).state).omissions),
{
    tally_has_indexes(iso, lengths, layout, blocks);
    let state = places_of(iso, lengths).state;
    let nodes = primary_nodes(iso);
    let spots = spots_of(iso, state);
    let trailing = primary_options(iso).trailing_system_use_padding;
    let empty = Tally {
        files: Seq::empty(),
        omissions: Seq::empty(),
        policy: IdentifierPolicy::IsoLevel1,
    };
    let indexes = told_origins(iso, state).skip(1);
    let omissions = told_tally(iso, state).omissions;
    omissions_are_tallied(iso, spots, trailing, indexes, empty);
    let told = tally_over(iso, spots, trailing, indexes, empty);
    assert(told.omissions == omissions);
    assert forall|a: int, b: int| 0 <= a < b < omissions.len() implies #[trigger] omissions[a]
        != #[trigger] omissions[b] by {
        assert(told.omissions[a] != told.omissions[b]);
    }
    assert forall|a: int| 0 <= a < omissions.len() implies is_file(
        iso,
        #[trigger] omissions[a],
    ) && iso.xa_system_use by {
        assert(is_left_out(iso, indexes, omissions[a]));
        let i = choose|i: int|
            0 <= i < indexes.len() && iso.xa_system_use && !nodes[#[trigger] indexes[i]].system_use
                && omissions[a] == iso.entries[indexes[i]].path;
        assert(is_omitted(iso, iso.entries[indexes[i]].path));
    }
    if omissions.len() > 0 {
        assert(is_file(iso, omissions[0]));
    }
    assert(nodes[0].directory && nodes[0].system_use == iso.xa_system_use) by {
        plain_image_has(iso, lengths, layout, blocks);
        root_is_directory(iso);
        directory_uses_xa(iso, 0);
    }
    assert forall|k: int| 0 <= k < iso.entries.len() implies omits_rightly(
        iso,
        omissions,
        (#[trigger] iso.entries[k]).path,
        k,
    ) by {
        let path = iso.entries[k].path;
        if omissions.contains(path) {
            let a = choose|a: int| 0 <= a < omissions.len() && omissions[a] == path;
            assert(is_left_out(iso, indexes, omissions[a]));
            let i = choose|i: int|
                0 <= i < indexes.len() && iso.xa_system_use && !nodes[
                    #[trigger] indexes[i]
                ].system_use && omissions[a] == iso.entries[indexes[i]].path;
            let other = indexes[i];
            if other < k {
                assert(iso.entries[other].path != iso.entries[k].path);
            } else if k < other {
                assert(iso.entries[k].path != iso.entries[other].path);
            }
        }
        if iso.xa_system_use && !nodes[k].system_use {
            assert(k > 0);
            assert(indexes.contains(k));
            let i = choose|i: int| 0 <= i < indexes.len() && indexes[i] == k;
            assert(omissions.contains(iso.entries[indexes[i]].path));
        }
    }
}

/// What is told of the names.
pub proof fn policy_is_told(
    iso: IsoModel,
    lengths: Seq<FileLengthModel>,
    layout: LayoutModel,
    blocks: Seq<Block>,
)
    requires
        is_plain_image(iso, lengths, layout, blocks),
    ensures
        ({
            let policy = told_tally(iso, places_of(iso, lengths).state).policy;
            let nodes = primary_nodes(iso);
            &&& policy == IdentifierPolicy::IsoLevel1 ==> forall|k: int|
                0 < k < nodes.len() ==> is_level1(
                    name_of((#[trigger] iso.entries[k]).path),
                    !nodes[k].directory,
                )
            &&& iso.identifier_policy == IdentifierPolicy::IsoLevel1 ==> policy
                == IdentifierPolicy::IsoLevel1
        }),
{
    tally_has_indexes(iso, lengths, layout, blocks);
    let state = places_of(iso, lengths).state;
    let nodes = primary_nodes(iso);
    let spots = spots_of(iso, state);
    let trailing = primary_options(iso).trailing_system_use_padding;
    let empty = Tally {
        files: Seq::empty(),
        omissions: Seq::empty(),
        policy: IdentifierPolicy::IsoLevel1,
    };
    let indexes = told_origins(iso, state).skip(1);
    let policy = told_tally(iso, state).policy;
    omissions_are_tallied(iso, spots, trailing, indexes, empty);
    if policy == IdentifierPolicy::IsoLevel1 {
        assert forall|k: int| 0 < k < nodes.len() implies is_level1(
            name_of((#[trigger] iso.entries[k]).path),
            !nodes[k].directory,
        ) by {
            assert(indexes.contains(k));
            let i = choose|i: int| 0 <= i < indexes.len() && indexes[i] == k;
            assert(is_level1(
                name_of(iso.entries[indexes[i]].path),
                !nodes[indexes[i]].directory,
            ));
        }
    } else if iso.identifier_policy == IdentifierPolicy::IsoLevel1 {
        let i = choose|i: int|
            0 <= i < indexes.len() && !is_level1(
                name_of(iso.entries[#[trigger] indexes[i]].path),
                !nodes[indexes[i]].directory,
            );
        let k = indexes[i];
        let path = iso.entries[k].path;
        let file = !nodes[k].directory;
        assert(entry_check(iso, k) is Ok);
        assert(iso.entries[0].path != iso.entries[k].path);
        name_is_last_component(path);
        let checks = component_checks(components(path), file, iso.identifier_policy);
        first_failure_ok(checks, 0, components(path).len() as int);
        assert(checks(components(path).len() - 1) is Ok);
        assert(false);
    }
}

/// The paths of entries whose names are standard pass the check of standard paths.
pub proof fn standard_path_passes(iso: IsoModel, index: int)
    requires
        is_tree(iso),
        0 < index < iso.entries.len(),
        forall|k: int|
            0 < k < iso.entries.len() ==> is_level1(
                name_of((#[trigger] iso.entries[k]).path),
                !primary_nodes(iso)[k].directory,
            ),
    ensures
        path_check(
            iso.entries[index].path,
            !primary_nodes(iso)[index].directory,
            IdentifierPolicy::IsoLevel1,
        ) is Ok,
{
    let path = iso.entries[index].path;
    let file = !primary_nodes(iso)[index].directory;
    assert(entry_check(iso, index) is Ok);
    assert(iso.entries[0].path != iso.entries[index].path);
    let parts = components(path);
    let checks = component_checks(parts, file, IdentifierPolicy::IsoLevel1);
    first_failure_ok(checks, 0, parts.len() as int);
    assert forall|i: int| 0 <= i < parts.len() implies (#[trigger] checks(i)) is Ok by {
        standard_component_passes(iso, index, i);
    }
}

proof fn standard_component_passes(iso: IsoModel, index: int, part: int)
    requires
        is_tree(iso),
        0 < index < iso.entries.len(),
        0 <= part < components(iso.entries[index].path).len(),
        forall|k: int|
            0 < k < iso.entries.len() ==> is_level1(
                name_of((#[trigger] iso.entries[k]).path),
                !primary_nodes(iso)[k].directory,
            ),
    ensures
        component_check(
            components(iso.entries[index].path)[part],
            !primary_nodes(iso)[index].directory && part + 1 == components(
                iso.entries[index].path,
            ).len(),
            IdentifierPolicy::IsoLevel1,
        ) is Ok,
    decreases iso.entries[index].path.len(),
{
    let path = iso.entries[index].path;
    let file = !primary_nodes(iso)[index].directory;
    let parts = components(path);
    assert(entry_check(iso, index) is Ok);
    assert(iso.entries[0].path != iso.entries[index].path);
    name_is_last_component(path);
    last_index_of_is_last(path, '/');
    let own = component_checks(parts, file, iso.identifier_policy);
    first_failure_ok(own, 0, parts.len() as int);
    assert(own(part) is Ok);
    if part + 1 == parts.len() {
        assert(is_level1(name_of(iso.entries[index].path), file));
    } else {
        let cut = last_index_of(path, '/');
        let parent = parent_of(path);
        assert(cut >= 0);
        assert(parent == path.subrange(0, cut));
        assert(parts == components(parent).push(name_of(path)));
        assert(components(parent)[part] == parts[part]);
        assert(is_known(iso.entries, parent) && !is_file(iso, parent));
        let k = choose|k: int|
            0 <= k < iso.entries.len() && (#[trigger] iso.entries[k]).path == parent;
        if k == 0 {
            reveal_with_fuel(components, 2);
            assert(parent == root_path());
            name_is_last_component(parent);
            last_index_of_is_last(parent, '/');
            assert(components(parent) =~= seq![root_path()]);
            assert(parts[part] == root_path());
            assert(false);
        }
        assert(primary_nodes(iso)[k].directory);
        standard_component_passes(iso, k, part);
    }
}

} // verus!
