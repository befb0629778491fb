//! Which entries directories are described by does not matter to where everything is
//! placed.
use vstd::prelude::*;

use crate::error::{ErrorKind, Failure};
use crate::iso9660::description::{IsoModel, ItemModel, MetadataLayoutItem};
use crate::iso9660::layout::place_contents;
use crate::iso9660::path_table::{find_directory_from, PlacementModel};
use crate::iso9660::placing::{
    flush_from, holds_reference, place_ancestors, place_directory, place_group_from, place_if_free,
    place_item, place_items_from, place_metadata_from, place_metadata_item,
    place_reference_parents_from, place_rest_from, FileLengthModel, GapPlacement, PlacingModel,
    TreeModel,
};
use crate::iso9660::placing_laws::found_directory_is_there;
use crate::manifest::MetadataVolume;
use crate::text::{parent_of, root_path};

verus! {

/// Directories with other entries.
pub open spec fn relabelled(directories: Seq<PlacementModel>, entries: Seq<int>) -> Seq<PlacementModel> {
    Seq::new(
        directories.len(),
        |i: int| PlacementModel { entry: entries[i], ..directories[i] },
    )
}

/// A tree whose directories have other entries.
pub open spec fn tree_with_entries(tree: TreeModel, entries: Seq<int>) -> TreeModel {
    TreeModel { placements: relabelled(tree.placements, entries), placed: tree.placed }
}

/// What was placed, with other entries for the directories of both trees.
pub open spec fn with_entries(state: PlacingModel, entries: Seq<int>, joliet: Seq<int>) -> PlacingModel {
    PlacingModel {
        primary: tree_with_entries(state.primary, entries),
        joliet: tree_with_entries(state.joliet, joliet),
        ..state
    }
}

/// The outcome of a step, with other entries.
pub open spec fn outcome_with_entries(
    outcome: Result<PlacingModel, Failure>,
    entries: Seq<int>,
    joliet: Seq<int>,
) -> Result<PlacingModel, Failure> {
    match outcome {
        Ok(state) => Ok(with_entries(state, entries, joliet)),
        Err(failure) => Err(failure),
    }
}

proof fn directory_is_relabelled(
    state: PlacingModel,
    volume: MetadataVolume,
    index: int,
    overflow: ErrorKind,
    entries: Seq<int>,
    joliet: Seq<int>,
)
    requires
        0 <= index < state.tree(volume).placements.len(),
    ensures
        place_directory(with_entries(state, entries, joliet), volume, index, overflow)
            == outcome_with_entries(
            place_directory(state, volume, index, overflow),
            entries,
            joliet,
        ),
{
    let labels = if volume == MetadataVolume::Primary {
        entries
    } else {
        joliet
    };
    let placements = state.tree(volume).placements;
    let directory = placements[index];
    let placed = PlacementModel { extent: state.next, ..directory };
    assert(relabelled(placements, labels).update(
        index,
        PlacementModel { extent: state.next, ..relabelled(placements, labels)[index] },
    ) =~= relabelled(placements.update(index, placed), labels));
}

/// A directory is found where it was whatever the entries are.
pub proof fn found_alike(
    directories: Seq<PlacementModel>,
    entries: Seq<int>,
    path: Seq<char>,
    index: int,
)
    requires
        0 <= index,
    ensures
        find_directory_from(relabelled(directories, entries), path, index) == find_directory_from(
            directories,
            path,
            index,
        ),
    decreases directories.len() - index,
{
    if index < directories.len() {
        found_alike(directories, entries, path, index + 1);
    }
}

proof fn free_directory_is_relabelled(
    iso: IsoModel,
    told: IsoModel,
    state: PlacingModel,
    volume: MetadataVolume,
    index: int,
    entries: Seq<int>,
    joliet: Seq<int>,
)
    requires
        told.files == iso.files,
        0 <= index < state.tree(volume).placements.len(),
    ensures
        place_if_free(told, with_entries(state, entries, joliet), volume, index)
            == outcome_with_entries(place_if_free(iso, state, volume, index), entries, joliet),
{
    directory_is_relabelled(
        state,
        volume,
        index,
        ErrorKind::PlacementOverflow,
        entries,
        joliet,
    );
}

proof fn ancestors_are_relabelled(
    iso: IsoModel,
    told: IsoModel,
    state: PlacingModel,
    volume: MetadataVolume,
    path: Seq<char>,
    entries: Seq<int>,
    joliet: Seq<int>,
)
    requires
        told.files == iso.files,
    ensures
        place_ancestors(told, with_entries(state, entries, joliet), volume, path)
            == outcome_with_entries(place_ancestors(iso, state, volume, path), entries, joliet),
    decreases path.len(),
{
    let parent = parent_of(path);
    if parent != root_path() && parent.len() < path.len() {
        ancestors_are_relabelled(iso, told, state, volume, parent, entries, joliet);
        let above = place_ancestors(iso, state, volume, parent);
        if above is Ok {
            let after = above->Ok_0;
            let labels = if volume == MetadataVolume::Primary {
                entries
            } else {
                joliet
            };
            let placements = after.tree(volume).placements;
            found_alike(placements, labels, parent, 0);
            found_directory_is_there(placements, parent, 0);
            let index = find_directory_from(placements, parent, 0);
            if index < placements.len() {
                free_directory_is_relabelled(iso, told, after, volume, index, entries, joliet);
            }
        }
    }
}

proof fn gaps_are_relabelled(
    state: PlacingModel,
    index: int,
    entries: Seq<int>,
    joliet: Seq<int>,
)
    ensures
        flush_from(with_entries(state, entries, joliet), index) == outcome_with_entries(
            flush_from(state, index),
            entries,
            joliet,
        ),
    decreases state.pending.len() - index,
{
    if 0 <= index < state.pending.len() {
        let gap = state.pending[index];
        if state.next + gap.sectors <= u32::MAX {
            let next = PlacingModel {
                next: (state.next + gap.sectors) as u32,
                gaps: state.gaps.push(
                    GapPlacement {
                        start: state.next,
                        sectors: gap.sectors,
                        kind: gap.kind,
                        subheader: gap.subheader,
                        form2_edc: gap.form2_edc,
                    },
                ),
                ..state
            };
            gaps_are_relabelled(next, index + 1, entries, joliet);
        }
    }
}

proof fn item_is_relabelled(
    iso: IsoModel,
    told: IsoModel,
    lengths: Seq<FileLengthModel>,
    state: PlacingModel,
    item: ItemModel,
    entries: Seq<int>,
    joliet: Seq<int>,
)
    requires
        told.files == iso.files,
    ensures
        place_item(told, lengths, with_entries(state, entries, joliet), item)
            == outcome_with_entries(place_item(iso, lengths, state, item), entries, joliet),
{
    match item {
        ItemModel::Directory { volume, path } => {
            ancestors_are_relabelled(iso, told, state, volume, path, entries, joliet);
            let above = place_ancestors(iso, state, volume, path);
            if above is Ok {
                gaps_are_relabelled(above->Ok_0, 0, entries, joliet);
                let flushed = flush_from(above->Ok_0, 0);
                if flushed is Ok {
                    let after = flushed->Ok_0;
                    let labels = if volume == MetadataVolume::Primary {
                        entries
                    } else {
                        joliet
                    };
                    let placements = after.tree(volume).placements;
                    found_alike(placements, labels, path, 0);
                    found_directory_is_there(placements, path, 0);
                    let index = find_directory_from(placements, path, 0);
                    if index < placements.len() {
                        directory_is_relabelled(
                            after,
                            volume,
                            index,
                            ErrorKind::PlacementOverflow,
                            entries,
                            joliet,
                        );
                    }
                }
            }
        },
        ItemModel::XaExtent { assets } => {
            gaps_are_relabelled(state, 0, entries, joliet);
        },
        ItemModel::Path { path } => {
            ancestors_are_relabelled(
                iso,
                told,
                state,
                MetadataVolume::Primary,
                path,
                entries,
                joliet,
            );
            let above = place_ancestors(iso, state, MetadataVolume::Primary, path);
            if above is Ok {
                gaps_are_relabelled(above->Ok_0, 0, entries, joliet);
            }
        },
        ItemModel::Gap { gap } => {},
    }
}

proof fn items_are_relabelled(
    iso: IsoModel,
    told: IsoModel,
    lengths: Seq<FileLengthModel>,
    state: PlacingModel,
    index: int,
    entries: Seq<int>,
    joliet: Seq<int>,
)
    requires
        told.files == iso.files,
    ensures
        place_items_from(told, lengths, with_entries(state, entries, joliet), index)
            == outcome_with_entries(
            place_items_from(iso, lengths, state, index),
            entries,
            joliet,
        ),
    decreases iso.files.len() - index,
{
    if 0 <= index < iso.files.len() {
        item_is_relabelled(iso, told, lengths, state, iso.files[index], entries, joliet);
        let next = place_item(iso, lengths, state, iso.files[index]);
        if next is Ok {
            items_are_relabelled(iso, told, lengths, next->Ok_0, index + 1, entries, joliet);
        }
    }
}

proof fn reference_parents_are_relabelled(
    iso: IsoModel,
    told: IsoModel,
    state: PlacingModel,
    index: int,
    entries: Seq<int>,
    joliet: Seq<int>,
)
    requires
        told.files == iso.files,
        forall|path: Seq<char>| #[trigger]
            holds_reference(told.entries, path) == holds_reference(iso.entries, path),
    ensures
        place_reference_parents_from(told, with_entries(state, entries, joliet), index)
            == outcome_with_entries(
            place_reference_parents_from(iso, state, index),
            entries,
            joliet,
        ),
    decreases state.primary.placements.len() - index,
{
    let directories = state.primary.placements;
    if 0 <= index < directories.len() {
        let path = directories[index].path;
        assert(holds_reference(told.entries, path) == holds_reference(iso.entries, path));
        if holds_reference(iso.entries, path) {
            free_directory_is_relabelled(
                iso,
                told,
                state,
                MetadataVolume::Primary,
                index,
                entries,
                joliet,
            );
            let next = place_if_free(iso, state, MetadataVolume::Primary, index);
            if next is Ok && next->Ok_0.primary.placements.len() == directories.len() {
                reference_parents_are_relabelled(
                    iso,
                    told,
                    next->Ok_0,
                    index + 1,
                    entries,
                    joliet,
                );
            }
        } else {
            reference_parents_are_relabelled(iso, told, state, index + 1, entries, joliet);
        }
    }
}

proof fn rest_is_relabelled(
    state: PlacingModel,
    index: int,
    entries: Seq<int>,
    joliet: Seq<int>,
)
    ensures
        place_rest_from(with_entries(state, entries, joliet), index) == outcome_with_entries(
            place_rest_from(state, index),
            entries,
            joliet,
        ),
    decreases state.primary.placements.len() - index,
{
    let directories = state.primary.placements;
    if 0 <= index < directories.len() {
        if !state.primary.placed[index] {
            directory_is_relabelled(
                state,
                MetadataVolume::Primary,
                index,
                ErrorKind::PlacementOverflow,
                entries,
                joliet,
            );
            let next = place_directory(
                state,
                MetadataVolume::Primary,
                index,
                ErrorKind::PlacementOverflow,
            );
            if next is Ok && next->Ok_0.primary.placements.len() == directories.len() {
                rest_is_relabelled(next->Ok_0, index + 1, entries, joliet);
            }
        } else {
            rest_is_relabelled(state, index + 1, entries, joliet);
        }
    }
}

/// The file area is placed alike whatever entries describe the directories.
pub proof fn contents_are_relabelled(
    iso: IsoModel,
    told: IsoModel,
    lengths: Seq<FileLengthModel>,
    state: PlacingModel,
    entries: Seq<int>,
    joliet: Seq<int>,
)
    requires
        told.files == iso.files,
        told.supplementary_volumes.len() == iso.supplementary_volumes.len(),
        forall|path: Seq<char>| #[trigger]
            holds_reference(told.entries, path) == holds_reference(iso.entries, path),
    ensures
        place_contents(told, lengths, with_entries(state, entries, joliet))
            == outcome_with_entries(place_contents(iso, lengths, state), entries, joliet),
{
    reference_parents_are_relabelled(iso, told, state, 1, entries, joliet);
    let second = place_reference_parents_from(iso, state, 1);
    if second is Ok {
        items_are_relabelled(iso, told, lengths, second->Ok_0, 0, entries, joliet);
        let third = place_items_from(iso, lengths, second->Ok_0, 0);
        if third is Ok {
            gaps_are_relabelled(third->Ok_0, 0, entries, joliet);
            rest_is_relabelled(third->Ok_0, 0, entries, joliet);
            let rest = place_rest_from(third->Ok_0, 0);
            if rest is Ok {
                gaps_are_relabelled(rest->Ok_0, 0, entries, joliet);
            }
        }
    }
}

proof fn group_is_relabelled(
    state: PlacingModel,
    volume: MetadataVolume,
    index: int,
    entries: Seq<int>,
    joliet: Seq<int>,
)
    ensures
        place_group_from(with_entries(state, entries, joliet), volume, index)
            == outcome_with_entries(place_group_from(state, volume, index), entries, joliet),
    decreases state.tree(volume).placements.len() - index,
{
    let tree = state.tree(volume);
    if 0 <= index < tree.placements.len() {
        if volume == MetadataVolume::Joliet || !tree.placed[index] {
            directory_is_relabelled(
                state,
                volume,
                index,
                ErrorKind::MetadataDirectoryOverflow,
                entries,
                joliet,
            );
            let next = place_directory(state, volume, index, ErrorKind::MetadataDirectoryOverflow);
            if next is Ok && next->Ok_0.tree(volume).placements.len() == tree.placements.len() {
                group_is_relabelled(next->Ok_0, volume, index + 1, entries, joliet);
            }
        } else {
            group_is_relabelled(state, volume, index + 1, entries, joliet);
        }
    }
}

/// The metadata area is placed alike whatever entries describe the directories.
pub proof fn metadata_is_relabelled(
    items: Seq<MetadataLayoutItem>,
    state: PlacingModel,
    blocks: u32,
    joliet_blocks: u32,
    index: int,
    entries: Seq<int>,
    joliet: Seq<int>,
)
    ensures
        place_metadata_from(
            items,
            with_entries(state, entries, joliet),
            blocks,
            joliet_blocks,
            index,
        ) == outcome_with_entries(
            place_metadata_from(items, state, blocks, joliet_blocks, index),
            entries,
            joliet,
        ),
    decreases items.len() - index,
{
    if 0 <= index < items.len() {
        if items[index] is Directories {
            group_is_relabelled(state, items[index]->Directories_0, 0, entries, joliet);
        }
        let next = place_metadata_item(state, items[index], blocks, joliet_blocks);
        if next is Ok {
            metadata_is_relabelled(
                items,
                next->Ok_0,
                blocks,
                joliet_blocks,
                index + 1,
                entries,
                joliet,
            );
        }
    }
}

/// A directory that comes first is placed alike whatever entries describe the
/// directories.
pub proof fn root_is_relabelled(
    state: PlacingModel,
    overflow: ErrorKind,
    entries: Seq<int>,
    joliet: Seq<int>,
)
    requires
        state.primary.placements.len() > 0,
    ensures
        place_directory(
            with_entries(state, entries, joliet),
            MetadataVolume::Primary,
            0,
            overflow,
        ) == outcome_with_entries(
            place_directory(state, MetadataVolume::Primary, 0, overflow),
            entries,
            joliet,
        ),
{
    directory_is_relabelled(state, MetadataVolume::Primary, 0, overflow, entries, joliet);
}

} // verus!
