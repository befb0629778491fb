//! Images of plain descriptions are read, and rebuilt from what is read.
use vstd::prelude::*;

use crate::error::Failure;
use crate::iso9660::description::{EntryModel, IsoModel, PathTableCopies};
use crate::iso9660::descriptor_laws::texts_end_plainly;
use crate::iso9660::file_order_laws::{
    attributes_are_told, extents_show, files_are_told, has_own_length, lengths_show,
    own_file_is_placed, placed_files_lie_in_order,
};
use crate::iso9660::image_laws::holds_parts;
use crate::iso9660::layout::{
    layout_of, placed_filesystem, primary_options, primary_spots, sized_directory, table_bytes,
    table_size_grows, LayoutModel, Placed,
};
use crate::iso9660::layout_laws::{
    filled_holds_parts, is_filled, is_layout, is_quiet, layout_holds_parts, places_of,
    records_are_some,
};
use crate::iso9660::order_laws::is_held;
use crate::iso9660::parse::{file_order, parsed_iso};
use crate::iso9660::parse_laws::{audio_ends, has_readable_tables, tables_stand_apart, told_tally};
use crate::iso9660::placing::{length_from, FileLengthModel};
use crate::iso9660::placing_laws::{
    are_sized, end_of, parts_are_apart, primary_order, same_directory, table_blocks, takes_blocks,
    Part,
};
use crate::iso9660::reading_laws::has_quiet_slack;
use crate::iso9660::rebuilding_laws::{layout_is_rebuilt, slack_shows, slack_shows_in};
use crate::iso9660::record::is_cdda;
use crate::iso9660::table_laws::tables_are_placed;
use crate::iso9660::told_entries_laws::{all_have_places, forms_show};
use crate::iso9660::tree::primary_nodes;
use crate::iso9660::tree_walk_laws::{directories_follow_order, is_reference};
use crate::iso9660::validate::{description_check, is_form2_xa};
use crate::iso9660::walk_laws::{checked_is_tree, is_tree, xa_at};
use crate::manifest::{DirectoryLengthPolicy, MetadataVolume};
use crate::raw_cd::Block;

verus! {

/// An entry that refers to no blocks, and whose record carries nothing of its own.
pub open spec fn is_plain_entry(entry: EntryModel) -> bool {
    &&& entry.directory_reference is None
    &&& entry.directory_slack is None
    &&& entry.xa is None
    &&& entry.extent is None
}

/// A description of a primary tree alone: its entries are plain, its file area holds
/// nothing but files, its path tables are made, and its descriptor has texts that end
/// plainly and an application-use field that has a name.
pub open spec fn is_plain_description(iso: IsoModel) -> bool {
    &&& iso.supplementary_volumes.len() == 0
    &&& iso.directory_length_policy == DirectoryLengthPolicy::Allocated
    &&& iso.path_table_size is None
    &&& iso.path_table_little_hex is None
    &&& texts_end_plainly(iso.primary_volume)
    &&& iso.primary_volume.application_use_hex is None
    &&& forall|i: int| 0 <= i < iso.entries.len() ==> is_plain_entry(#[trigger] iso.entries[i])
    &&& forall|i: int| 0 <= i < iso.files.len() ==> (#[trigger] iso.files[i]) is Path
}

/// Every file of the file area is given a size that a record can hold, and has data.
pub open spec fn have_data(iso: IsoModel, lengths: Seq<FileLengthModel>) -> bool {
    forall|i: int|
        0 <= i < iso.files.len() ==> (length_from(
            lengths,
            (#[trigger] iso.files[i])->Path_path,
            0,
        ) matches Some(length) && 1 <= length <= u32::MAX)
}

/// The files of a plain description are read as what they are, in their order.
proof fn plain_files_show(iso: IsoModel, lengths: Seq<FileLengthModel>, placed: Placed)
    requires
        is_plain_description(iso),
        have_data(iso, lengths),
        description_check(iso) is Ok,
        placed_filesystem(iso, lengths) == Ok::<Placed, Failure>(placed),
    ensures
        extents_show(iso, placed.state),
        lengths_show(iso, placed.state),
        forms_show(iso, placed.state),
        audio_ends(iso, placed.state),
        forall|i: int|
            0 <= i < placed.state.files.len() ==> (#[trigger] placed.state.files[i]).length > 0,
{
    let state = placed.state;
    checked_is_tree(iso);
    placed_files_lie_in_order(iso, lengths, placed);
    let spots = primary_spots(iso, state, primary_nodes(iso));
    let trailing = primary_options(iso).trailing_system_use_padding;
    assert forall|i: int| 0 <= i < state.files.len() implies 1 <= (
    #[trigger] state.files[i]).length <= u32::MAX by {
        assert(iso.files[i]->Path_path == state.files[i].path);
    }
    assert(extents_show(iso, state)) by {
        assert forall|k: int| 0 <= k < iso.entries.len() implies (
        #[trigger] iso.entries[k]).extent is None by {
            assert(is_plain_entry(iso.entries[k]));
        }
    }
    assert forall|k: int|
        0 <= k < iso.entries.len() && !(#[trigger] primary_nodes(iso)[k]).directory
            && iso.entries[k].extent is None implies has_own_length(iso, state, k) by {
        assert(is_plain_entry(iso.entries[k]));
        let at = own_file_is_placed(iso, state, k);
        assert(1 <= state.files[at].length <= u32::MAX);
    }
    assert forall|k: int| 0 <= k < iso.entries.len() implies is_plain_entry(
        #[trigger] iso.entries[k],
    ) by {}
    assert(forms_show(iso, state)) by {
        assert forall|k: int| 0 <= k < iso.entries.len() && (#[trigger] iso.entries[k]).extent is None
            implies !is_form2_xa(
            xa_at(iso, spots, trailing, k),
        ) by {
            attributes_are_told(iso, spots, trailing, k);
            assert(is_plain_entry(iso.entries[k]));
        }
    }
    assert(audio_ends(iso, state)) by {
        assert forall|k: int| 0 <= k < iso.entries.len() implies !is_cdda(
            #[trigger] xa_at(iso, spots, trailing, k),
        ) by {
            attributes_are_told(iso, spots, trailing, k);
            assert(is_plain_entry(iso.entries[k]));
        }
    }
}

/// The image of a plain description whose path tables stand twice has as many blocks as an
/// image that is read has at least.
proof fn plain_image_is_large(iso: IsoModel, lengths: Seq<FileLengthModel>, placed: Placed)
    requires
        is_plain_description(iso),
        iso.path_table_copies == PathTableCopies::Duplicate,
        description_check(iso) is Ok,
        placed_filesystem(iso, lengths) == Ok::<Placed, Failure>(placed),
    ensures
        placed.state.next > 22,
{
    let state = placed.state;
    let directories = state.primary.placements;
    checked_is_tree(iso);
    parts_are_apart(iso, lengths, placed);
    tables_are_placed(iso, lengths, placed);
    tables_stand_apart(iso, lengths, placed);
    directories_follow_order(iso, directories);
    let stride = placed.table.blocks + iso.path_table_padding;
    assert(stride * 4 == stride + stride + stride + stride) by (nonlinear_arith);
    let ordered = primary_order(iso)[0];
    let nodes = primary_nodes(iso);
    assert(same_directory(directories[0], sized_directory(iso, nodes, ordered)->Ok_0));
    assert(is_plain_entry(iso.entries[ordered.entry]));
    records_are_some(nodes, ordered.path, iso.xa_system_use, iso.directory_record_packing);
    let root = Part::Directory { volume: MetadataVolume::Primary, index: 0 };
    assert(takes_blocks(state, table_blocks(placed), root));
    assert(end_of(state, table_blocks(placed), root) <= state.next);
}

/// The files of a plain description are told in their order.
proof fn plain_order_is_told(iso: IsoModel, lengths: Seq<FileLengthModel>, layout: LayoutModel)
    requires
        is_plain_description(iso),
        have_data(iso, lengths),
        is_layout(iso, lengths, layout),
        description_check(iso) is Ok,
        placed_filesystem(iso, lengths) == Ok::<Placed, Failure>(places_of(iso, lengths)),
    ensures
        file_order(told_tally(iso, places_of(iso, lengths).state).files) == iso.files,
{
    let placed = places_of(iso, lengths);
    plain_files_show(iso, lengths, placed);
    layout_holds_parts(iso, lengths, layout);
    placed_files_lie_in_order(iso, lengths, placed);
    all_have_places(iso, lengths, layout);
    files_are_told(iso, placed.state);
}

/// The path tables of a plain description can be read.
proof fn plain_tables_are_readable(
    iso: IsoModel,
    lengths: Seq<FileLengthModel>,
    layout: LayoutModel,
)
    requires
        is_plain_description(iso),
        is_layout(iso, lengths, layout),
        description_check(iso) is Ok,
        placed_filesystem(iso, lengths) == Ok::<Placed, Failure>(places_of(iso, lengths)),
    ensures
        has_readable_tables(iso, places_of(iso, lengths)),
{
    let placed = places_of(iso, lengths);
    layout_holds_parts(iso, lengths, layout);
    tables_stand_apart(iso, lengths, placed);
    table_size_grows(primary_order(iso), 0);
    assert(table_bytes(
        placed.state.primary.placements,
        placed.table.size,
        iso.path_table_little_hex,
        iso.path_table_big_hex,
    ) is Ok) by {
        reveal(holds_parts);
    }
}

/// Nothing stands behind the records of the directories of a plain description.
proof fn plain_directories_end(iso: IsoModel, lengths: Seq<FileLengthModel>, layout: LayoutModel)
    requires
        is_plain_description(iso),
        is_layout(iso, lengths, layout),
        description_check(iso) is Ok,
    ensures
        has_quiet_slack(iso, places_of(iso, lengths).state),
        slack_shows(iso),
{
    let placed = places_of(iso, lengths);
    let state = placed.state;
    checked_is_tree(iso);
    layout_holds_parts(iso, lengths, layout);
    directories_follow_order(iso, state.primary.placements);
    assert forall|j: int|
        0 <= j < state.primary.placements.len() && !is_reference(
            iso,
            #[trigger] state.primary.placements[j],
        ) implies is_quiet(iso, state, j) by {
        entry_is_plain(iso, placed, j);
    }
    assert forall|i: int|
        0 <= i < primary_order(iso).len() && !is_reference(
            iso,
            #[trigger] primary_order(iso)[i],
        ) implies slack_shows_in(iso, primary_order(iso)[i]) by {
        entry_is_plain(iso, placed, i);
    }
}

/// What was laid out is rebuilt from what is read of it: the image of a plain description
/// whose files all have data, whatever the data, is read, and the description that is read
/// of it is laid out as the same blocks, with the files where they were. Left out are
/// images of fewer blocks than are read, which only those whose path tables stand once
/// can be.
pub proof fn plain_layout_is_rebuilt(
    iso: IsoModel,
    lengths: Seq<FileLengthModel>,
    layout: LayoutModel,
    blocks: Seq<Block>,
)
    requires
        layout_of(iso, lengths) == Ok::<LayoutModel, Failure>(layout),
        is_filled(layout, blocks),
        is_plain_description(iso),
        have_data(iso, lengths),
        iso.path_table_copies == PathTableCopies::Duplicate || blocks.len() > 22,
    ensures
        parsed_iso(blocks) is Ok,
        layout_of(parsed_iso(blocks)->Ok_0.manifest, lengths) matches Ok(again) && again.blocks
            == layout.blocks && again.files == layout.files && is_filled(again, blocks),
{
    let placed = places_of(iso, lengths);
    let state = placed.state;
    assert(is_layout(iso, lengths, layout)) by {
        reveal(is_layout);
    }
    assert(description_check(iso) is Ok && placed_filesystem(iso, lengths) == Ok::<
        Placed,
        Failure,
    >(placed)) by {
        reveal(places_of);
    }
    assert(state.next == blocks.len()) by {
        filled_holds_parts(iso, lengths, layout, blocks);
    }
    plain_files_show(iso, lengths, placed);
    if iso.path_table_copies == PathTableCopies::Duplicate {
        plain_image_is_large(iso, lengths, placed);
    }
    plain_order_is_told(iso, lengths, layout);
    plain_tables_are_readable(iso, lengths, layout);
    plain_directories_end(iso, lengths, layout);
    layout_is_rebuilt(iso, lengths, layout, blocks);
}

/// The entries of directories are plain.
proof fn entry_is_plain(iso: IsoModel, placed: Placed, index: int)
    requires
        is_plain_description(iso),
        is_tree(iso),
        are_sized(iso, placed.state.primary.placements),
        0 <= index < placed.state.primary.placements.len(),
    ensures
        is_plain_entry(iso.entries[placed.state.primary.placements[index].entry]),
        primary_order(iso)[index].entry == placed.state.primary.placements[index].entry,
{
    let directories = placed.state.primary.placements;
    let nodes = primary_nodes(iso);
    directories_follow_order(iso, directories);
    if index > 0 {
        assert(is_held(
            nodes,
            directories,
            index,
            directories.len() as int,
        ));
    }
    let entry = directories[index].entry;
    assert(0 <= entry < nodes.len());
    assert(is_plain_entry(iso.entries[entry]));
}

} // verus!
