//! What was laid out is found again.
use vstd::prelude::*;

use crate::error::Failure;
use crate::iso9660::description::IsoModel;
use crate::iso9660::image_laws::directory_is_held;
use crate::iso9660::layout::{placed_filesystem, LayoutModel, Placed};
use crate::iso9660::layout_laws::{
    directory_is_read_back, filled_holds_parts, filled_image, is_filled, is_layout, is_quiet,
    layout_holds_parts, places_of, records_are_some, records_fit, size_of_volume,
};
use crate::iso9660::order_laws::is_held;
use crate::iso9660::placing::{FileLengthModel, PlacingModel};
use crate::iso9660::placing_laws::{
    end_of, parts_are_apart, start_of, table_blocks, takes_blocks, Part,
};
use crate::iso9660::tree::primary_nodes;
use crate::iso9660::tree_walk_laws::{
    directories_follow_order, is_readable, is_reference, is_walkable,
};
use crate::iso9660::validate::description_check;
use crate::iso9660::walk_laws::checked_is_tree;
use crate::manifest::MetadataVolume;
use crate::model::views;
use crate::raw_cd::Block;

verus! {

/// Nothing that stands behind the records of any directory could be taken for a record.
pub open spec fn has_quiet_slack(iso: IsoModel, state: PlacingModel) -> bool {
    forall|j: int|
        0 <= j < state.primary.placements.len() && !is_reference(
            iso,
            #[trigger] state.primary.placements[j],
        ) ==> is_quiet(iso, state, j)
}

proof fn own_directory_is_readable(
    iso: IsoModel,
    lengths: Seq<FileLengthModel>,
    layout: LayoutModel,
    blocks: Seq<Block>,
    index: int,
)
    requires
        is_layout(iso, lengths, layout),
        is_filled(layout, blocks),
        0 <= index < places_of(iso, lengths).state.primary.placements.len(),
        ({
            let entry = iso.entries[places_of(
                iso,
                lengths,
            ).state.primary.placements[index].entry];
            entry.directory_reference is None
        }),
        is_quiet(iso, places_of(iso, lengths).state, index),
    ensures
        is_readable(iso, places_of(iso, lengths).state, blocks, index),
        places_of(iso, lengths).state.primary.placements[index].blocks > 0,
{
    let placed = places_of(iso, lengths);
    let directories = placed.state.primary.placements;
    let directory = directories[index];
    layout_holds_parts(iso, lengths, layout);
    filled_holds_parts(iso, lengths, layout, blocks);
    directory_is_read_back(iso, lengths, layout, blocks, index);
    directory_is_held(
        iso,
        placed,
        size_of_volume(iso, lengths),
        filled_image(blocks),
        index,
    );
    records_fit(iso, directories, index);
    records_are_some(
        primary_nodes(iso),
        directory.path,
        iso.xa_system_use,
        iso.directory_record_packing,
    );
    reveal(is_readable);
}

/// The tree of an image that was laid out can be walked.
pub proof fn layout_is_walkable(
    iso: IsoModel,
    lengths: Seq<FileLengthModel>,
    layout: LayoutModel,
    blocks: Seq<Block>,
)
    requires
        is_layout(iso, lengths, layout),
        is_filled(layout, blocks),
        has_quiet_slack(iso, places_of(iso, lengths).state),
    ensures
        is_walkable(iso, places_of(iso, lengths).state, blocks),
{
    let placed = places_of(iso, lengths);
    let state = placed.state;
    let directories = state.primary.placements;
    let tables = table_blocks(placed);
    assert(description_check(iso) is Ok && placed_filesystem(iso, lengths) == Ok::<
        Placed,
        Failure,
    >(placed)) by {
        reveal(is_layout);
        reveal(places_of);
    }
    checked_is_tree(iso);
    layout_holds_parts(iso, lengths, layout);
    filled_holds_parts(iso, lengths, layout, blocks);
    parts_are_apart(iso, lengths, placed);
    directories_follow_order(iso, directories);
    assert(blocks.len() == views(blocks).len());
    assert(blocks.len() == state.next);
    assert forall|j: int|
        0 <= j < directories.len() && !is_reference(
            iso,
            #[trigger] directories[j],
        ) implies is_readable(iso, state, blocks, j) && directories[j].extent < blocks.len()
        && takes_blocks(
        state,
        tables,
        Part::Directory { volume: MetadataVolume::Primary, index: j },
    ) by {
        if j > 0 {
            assert(is_held(primary_nodes(iso), directories, j, directories.len() as int));
        }
        assert(is_quiet(iso, state, j));
        own_directory_is_readable(iso, lengths, layout, blocks, j);
        let part = Part::Directory { volume: MetadataVolume::Primary, index: j };
        assert(takes_blocks(state, tables, part));
        assert(end_of(state, tables, part) <= state.next);
    }
    assert forall|i: int, j: int|
        0 <= i < j < directories.len() && !is_reference(iso, #[trigger] directories[i])
            && !is_reference(iso, #[trigger] directories[j]) implies directories[i].extent
        != directories[j].extent by {
        let left = Part::Directory { volume: MetadataVolume::Primary, index: i };
        let right = Part::Directory { volume: MetadataVolume::Primary, index: j };
        assert(takes_blocks(state, tables, left) && takes_blocks(state, tables, right));
        assert(end_of(state, tables, left) <= start_of(state, right) || end_of(
            state,
            tables,
            right,
        ) <= start_of(state, left));
    }
}

} // verus!
