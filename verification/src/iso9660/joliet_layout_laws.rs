//! The Joliet tree of an image that was laid out can be read from it.
use vstd::prelude::*;

use crate::error::Failure;
use crate::iso9660::description::{IsoModel, JolietModel};
use crate::iso9660::image_laws::{holds_parts, joliet_directory_lies};
use crate::iso9660::joliet_laws::{
    is_joliet_readable, is_joliet_tree, is_joliet_walkable, joliet_order, joliet_tree_entries_from,
    joliet_walk_finds_tree, sources_are_told, JolietTree,
};
use crate::iso9660::joliet_walk::{joliet_walked_from, JolietWalkModel};
use crate::iso9660::layout::{
    all_placed, joliet_options, joliet_spots, placed_filesystem, sized_joliet_directory,
    LayoutModel, Placed,
};
use crate::iso9660::layout_laws::{
    filled_holds_parts, filled_image, is_filled, is_layout, layout_holds_parts,
    lying_directory_is_read, places_of, records_are_some,
};
use crate::iso9660::paths::joliet_path_check;
use crate::iso9660::placing::FileLengthModel;
use crate::iso9660::placing_laws::{
    are_apart, descriptors_end, end_of, is_marked, parts_are_apart, same_directory, start_of,
    table_blocks, takes_blocks, Part,
};
use crate::iso9660::tree::{joliet_node, joliet_nodes_from, NodeModel};
use crate::iso9660::tree_walk_laws::{all_found, found_of};
use crate::iso9660::validate::{
    description_check, joliet_check, joliet_entry_check, joliet_entry_checks,
    joliet_path_before,
};
use crate::iso9660::walk::FoundModel;
use crate::manifest::MetadataVolume;
use crate::model::{first_failure_ok, views};
use crate::raw_cd::Block;
use crate::text::{last_index_of, name_of};

verus! {

/// A file of the Joliet tree that has no version in its record has none in its name.
pub open spec fn versions_are_told(volume: JolietModel) -> bool {
    forall|k: int|
        0 <= k < volume.entries.len() && (#[trigger] volume.entries[k]).omit_version
            ==> last_index_of(name_of(volume.entries[k].path), ';') < 0
}

/// The Joliet tree of a filesystem that was laid out.
pub open spec fn joliet_tree_of(iso: IsoModel, placed: Placed) -> JolietTree {
    let volume = iso.supplementary_volumes[0];
    JolietTree {
        volume,
        nodes: placed.joliet->Some_0.nodes,
        spots: joliet_spots(iso, placed.state, volume),
        directories: placed.state.joliet.placements,
        options: joliet_options(iso, volume),
    }
}

pub proof fn joliet_nodes_are_those(volume: JolietModel, index: int, read: Seq<NodeModel>)
    requires
        0 <= index <= volume.entries.len(),
        read.len() == index,
        forall|k: int|
            0 <= k < index ==> joliet_node(volume, k) == Ok::<NodeModel, Failure>(
                #[trigger] read[k],
            ),
    ensures
        joliet_nodes_from(volume, index, read) matches Ok(nodes) ==> {
            &&& nodes.len() == volume.entries.len()
            &&& forall|k: int|
                0 <= k < nodes.len() ==> joliet_node(volume, k) == Ok::<NodeModel, Failure>(
                    #[trigger] nodes[k],
                )
        },
    decreases volume.entries.len() - index,
{
    if index < volume.entries.len() {
        if let Ok(node) = joliet_node(volume, index) {
            let more = read.push(node);
            assert forall|k: int| 0 <= k < index + 1 implies joliet_node(volume, k) == Ok::<
                NodeModel,
                Failure,
            >(#[trigger] more[k]) by {
                if k < index {
                    assert(more[k] == read[k]);
                }
            }
            joliet_nodes_are_those(volume, index + 1, more);
        }
    }
}

/// A Joliet volume that passes its checks describes a tree.
proof fn checked_is_joliet_tree(iso: IsoModel, lengths: Seq<FileLengthModel>, placed: Placed)
    requires
        description_check(iso) is Ok,
        placed_filesystem(iso, lengths) == Ok::<Placed, Failure>(placed),
        iso.supplementary_volumes.len() == 1,
        versions_are_told(iso.supplementary_volumes[0]),
    ensures
        is_joliet_tree(joliet_tree_of(iso, placed)),
{
    let volume = iso.supplementary_volumes[0];
    let tree = joliet_tree_of(iso, placed);
    let entries = volume.entries;
    assert(joliet_check(iso) is Ok);
    let checks = joliet_entry_checks(iso, volume);
    first_failure_ok(checks, 0, entries.len() as int);
    assert forall|k: int| 0 <= k < entries.len() implies #[trigger] joliet_entry_check(
        iso,
        volume,
        k,
    ) is Ok by {
        assert(checks(k) is Ok);
    }
    parts_are_apart(iso, lengths, placed);
    joliet_nodes_are_those(volume, 0, Seq::empty());
    assert forall|i: int, j: int| 0 <= i < j < entries.len() implies (#[trigger] entries[i]).path
        != (#[trigger] entries[j]).path by {
        assert(joliet_entry_check(iso, volume, j) is Ok);
        assert(!joliet_path_before(entries, j, entries[j].path));
    }
    assert forall|k: int| 0 <= k < entries.len() && (
    #[trigger] entries[k]).omit_version implies entries[k].source is Some && last_index_of(
        name_of(entries[k].path),
        ';',
    ) < 0 by {
        assert(joliet_entry_check(iso, volume, k) is Ok);
    }
    assert forall|k: int| 1 <= k < entries.len() implies joliet_path_check(
        (#[trigger] entries[k]).path,
    ) is Ok by {
        assert(joliet_entry_check(iso, volume, k) is Ok);
    }
    let ordered = joliet_order(tree);
    assert forall|i: int| 0 <= i < tree.directories.len() implies (
    #[trigger] tree.directories[i]).path == ordered[i].path && tree.directories[i].name
        == ordered[i].name && tree.directories[i].parent == ordered[i].parent
        && tree.directories[i].entry == ordered[i].entry by {
        let sized = sized_joliet_directory(iso, tree.nodes, volume.xa_system_use, ordered[i]);
        assert(same_directory(tree.directories[i], sized->Ok_0));
    }
}

/// A directory of the Joliet tree of an image that was laid out is read as its
/// records.
proof fn joliet_directory_is_readable(
    iso: IsoModel,
    lengths: Seq<FileLengthModel>,
    layout: LayoutModel,
    blocks: Seq<Block>,
    index: int,
)
    requires
        is_layout(iso, lengths, layout),
        is_filled(layout, blocks),
        iso.supplementary_volumes.len() == 1,
        placed_filesystem(iso, lengths) == Ok::<Placed, Failure>(places_of(iso, lengths)),
        0 <= index < places_of(iso, lengths).state.joliet.placements.len(),
    ensures
        is_joliet_readable(joliet_tree_of(iso, places_of(iso, lengths)), blocks, index),
        places_of(iso, lengths).state.joliet.placements[index].blocks > 0,
{
    let placed = places_of(iso, lengths);
    let tree = joliet_tree_of(iso, placed);
    let image = filled_image(blocks);
    let directory = tree.directories[index];
    let parent = tree.directories[directory.parent];
    layout_holds_parts(iso, lengths, layout);
    filled_holds_parts(iso, lengths, layout, blocks);
    parts_are_apart(iso, lengths, placed);
    assert(joliet_directory_lies(
        tree.nodes,
        tree.spots,
        tree.directories,
        tree.options,
        image,
        index,
    )) by {
        reveal(holds_parts);
    }
    let ordered = joliet_order(tree);
    let sized = sized_joliet_directory(
        iso,
        tree.nodes,
        tree.volume.xa_system_use,
        ordered[index],
    )->Ok_0;
    assert(same_directory(directory, sized));
    records_are_some(
        tree.nodes,
        directory.path,
        tree.options.xa_system_use,
        tree.options.packing,
    );
    lying_directory_is_read(
        tree.nodes,
        tree.spots,
        directory,
        parent,
        None,
        tree.options,
        image,
        blocks,
    );
    reveal(is_joliet_readable);
}

/// The directories of the Joliet tree lie in the image, each at its own place.
proof fn joliet_directories_are_apart(iso: IsoModel, placed: Placed)
    requires
        are_apart(placed.state, table_blocks(placed), descriptors_end(iso)),
        is_marked(placed.state),
        all_placed(placed.state.joliet.placed),
        forall|j: int|
            0 <= j < placed.state.joliet.placements.len() ==> (
            #[trigger] placed.state.joliet.placements[j]).blocks > 0,
    ensures
        ({
            let directories = placed.state.joliet.placements;
            &&& forall|j: int|
                0 <= j < directories.len() ==> (#[trigger] directories[j]).extent < placed.state.next
            &&& forall|i: int, j: int|
                0 <= i < j < directories.len() ==> (#[trigger] directories[i]).extent != (
                #[trigger] directories[j]).extent
        }),
{
    let state = placed.state;
    let tables = table_blocks(placed);
    let directories = state.joliet.placements;
    assert forall|j: int| 0 <= j < directories.len() implies (#[trigger] directories[j]).extent
        < state.next && takes_blocks(
        state,
        tables,
        Part::Directory { volume: MetadataVolume::Joliet, index: j },
    ) by {
        let part = Part::Directory { volume: MetadataVolume::Joliet, index: j };
        assert(takes_blocks(state, tables, part));
        assert(end_of(state, tables, part) <= state.next);
    }
    assert forall|i: int, j: int| 0 <= i < j < directories.len() implies (
    #[trigger] directories[i]).extent != (#[trigger] directories[j]).extent by {
        let left = Part::Directory { volume: MetadataVolume::Joliet, index: i };
        let right = Part::Directory { volume: MetadataVolume::Joliet, index: j };
        assert(takes_blocks(state, tables, left) && takes_blocks(state, tables, right));
        assert(end_of(state, tables, left) <= start_of(state, right) || end_of(
            state,
            tables,
            right,
        ) <= start_of(state, left));
    }
}

proof fn joliet_parts_are_walkable(tree: JolietTree, blocks: Seq<Block>)
    requires
        is_joliet_tree(tree),
        forall|j: int|
            0 <= j < tree.directories.len() ==> #[trigger] is_joliet_readable(tree, blocks, j),
        forall|j: int|
            0 <= j < tree.directories.len() ==> (#[trigger] tree.directories[j]).extent
                < blocks.len(),
        forall|i: int, j: int|
            0 <= i < j < tree.directories.len() ==> (#[trigger] tree.directories[i]).extent != (
            #[trigger] tree.directories[j]).extent,
    ensures
        is_joliet_walkable(tree, blocks),
{
}

/// The Joliet tree of an image that was laid out can be walked.
pub proof fn joliet_layout_is_walkable(
    iso: IsoModel,
    lengths: Seq<FileLengthModel>,
    layout: LayoutModel,
    blocks: Seq<Block>,
)
    requires
        is_layout(iso, lengths, layout),
        is_filled(layout, blocks),
        iso.supplementary_volumes.len() == 1,
        versions_are_told(iso.supplementary_volumes[0]),
    ensures
        is_joliet_walkable(joliet_tree_of(iso, places_of(iso, lengths)), blocks),
{
    let placed = places_of(iso, lengths);
    let state = placed.state;
    let tree = joliet_tree_of(iso, placed);
    assert(description_check(iso) is Ok && placed_filesystem(iso, lengths) == Ok::<
        Placed,
        Failure,
    >(placed)) by {
        reveal(is_layout);
        reveal(places_of);
    }
    checked_is_joliet_tree(iso, lengths, placed);
    layout_holds_parts(iso, lengths, layout);
    filled_holds_parts(iso, lengths, layout, blocks);
    parts_are_apart(iso, lengths, placed);
    assert(blocks.len() == views(blocks).len());
    assert(blocks.len() == state.next);
    assert forall|j: int| 0 <= j < tree.directories.len() implies #[trigger] is_joliet_readable(
        tree,
        blocks,
        j,
    ) by {
        joliet_directory_is_readable(iso, lengths, layout, blocks, j);
    }
    assert forall|j: int| 0 <= j < tree.directories.len() implies (
    #[trigger] state.joliet.placements[j]).blocks > 0 by {
        joliet_directory_is_readable(iso, lengths, layout, blocks, j);
    }
    joliet_directories_are_apart(iso, placed);
    joliet_parts_are_walkable(tree, blocks);
}

/// The Joliet tree of an image that was laid out is found whole by a walk that begins
/// at its root: each directory where it was placed, and everything in it, in order,
/// where each file is one of the primary tree's and one only.
pub proof fn joliet_tree_is_found(
    iso: IsoModel,
    lengths: Seq<FileLengthModel>,
    layout: LayoutModel,
    blocks: Seq<Block>,
    files: Seq<FoundModel>,
    start: JolietWalkModel,
)
    requires
        is_layout(iso, lengths, layout),
        is_filled(layout, blocks),
        iso.supplementary_volumes.len() == 1,
        versions_are_told(iso.supplementary_volumes[0]),
        sources_are_told(joliet_tree_of(iso, places_of(iso, lengths)), files),
        start.directories == seq![
            found_of(places_of(iso, lengths).state.joliet.placements[0]),
        ],
    ensures
        ({
            let tree = joliet_tree_of(iso, places_of(iso, lengths));
            joliet_walked_from(
                blocks,
                files,
                iso.supplementary_volumes[0].xa_system_use,
                start,
                0,
            ) == Ok::<JolietWalkModel, Failure>(
                JolietWalkModel {
                    entries: joliet_tree_entries_from(tree, files, 0, start.entries),
                    directories: all_found(tree.directories, tree.directories.len() as int),
                },
            )
        }),
{
    joliet_layout_is_walkable(iso, lengths, layout, blocks);
    joliet_walk_finds_tree(joliet_tree_of(iso, places_of(iso, lengths)), blocks, files, start);
}

} // verus!
