//! The files of an image, in the order of their extents, are those of the file area
//! that it was laid out from.
use vstd::prelude::*;

use crate::bytes::{be16, field, from_be16};
use crate::error::{ErrorKind, Failure};
use crate::iso9660::description::{IsoModel, ItemModel, MetadataLayoutItem};
use crate::iso9660::directory::{FileModel, SpotModel};
use crate::iso9660::layout::{
    file_spot, joliet_plan, nothing_placed, place_joliet_metadata, place_plain_metadata,
    placed_filesystem, primary_options, primary_spots, sized_directories_from, Placed,
};
use crate::iso9660::order::{
    comes_before, place_in, place_in_bounds, stable_order, stable_order_sorts,
};
use crate::iso9660::parse::{extents_of, file_order};
use crate::iso9660::parse_laws::told_tally;
use crate::iso9660::placing::{
    flush, flush_from, holds_reference, length_from, place_ancestors, place_directory,
    place_group_from, place_if_free, place_item_file, place_items_from, place_metadata_from,
    place_metadata_item, place_reference_parents_from, place_rest_from, FileLengthModel,
    GapPlacement, PlacingModel,
};
use crate::iso9660::record::{attributes_of, is_cdda, permissions_of};
use crate::iso9660::retelling_laws::{
    all_are_listed, origins_are_complete, tally_is_told, tally_over, told_origins,
};
use crate::iso9660::placing_laws::are_sized;
use crate::iso9660::subheaders::find_file_from;
use crate::iso9660::tree::{directories_of, is_authored, is_referenced, primary_nodes};
use crate::iso9660::validate::{
    description_check, entry_check, file_before, file_item_check, file_item_checks, is_form2_xa,
    is_known,
};
use crate::iso9660::walk::FoundModel;
use crate::iso9660::walk_laws::{
    checked_is_tree, found_at, is_tree, model_at, written_xa_is_accepted, xa_at, Tally,
};
use crate::iso9660::description::IdentifierPolicy;
use crate::manifest::MetadataVolume;
use crate::text::{parent_of, root_path};
use crate::model::{ceil_div, first_failure_ok};

verus! {

/// The first files of the file area lie one behind the other.
pub open spec fn files_lie_in_order(
    iso: IsoModel,
    files: Seq<FileModel>,
    count: int,
    next: u32,
) -> bool {
    &&& files.len() == count <= iso.files.len()
    &&& forall|i: int|
        0 <= i < count ==> iso.files[i] == (ItemModel::Path { path: (#[trigger] files[i]).path })
            && files[i].extent + files[i].blocks <= next && files[i].blocks == ceil_div(
            files[i].length as int,
            2048,
        )
    &&& forall|i: int, j: int|
        0 <= i < j < count ==> (#[trigger] files[i]).extent + files[i].blocks <= (
        #[trigger] files[j]).extent
}

/// Files stay as they are while the next free block moves on.
pub open spec fn keeps_files(before: PlacingModel, after: PlacingModel) -> bool {
    &&& after.files == before.files
    &&& before.next <= after.next
    &&& after.trailing == before.trailing
}

pub proof fn ancestors_keep_files(
    iso: IsoModel,
    state: PlacingModel,
    volume: MetadataVolume,
    path: Seq<char>,
)
    ensures
        place_ancestors(iso, state, volume, path) matches Ok(after) ==> keeps_files(state, after),
    decreases path.len(),
{
    let parent = parent_of(path);
    if parent != root_path() && parent.len() < path.len() {
        ancestors_keep_files(iso, state, volume, parent);
    }
}

pub proof fn gaps_keep_files(state: PlacingModel, index: int)
    ensures
        flush_from(state, index) matches Ok(after) ==> keeps_files(state, after),
    decreases state.pending.len() - index,
{
    if 0 <= index < state.pending.len() {
        let gap = state.pending[index];
        if state.next + gap.sectors <= u32::MAX {
            let next = PlacingModel {
                next: (state.next + gap.sectors) as u32,
                gaps: state.gaps.push(
                    GapPlacement {
                        start: state.next,
                        sectors: gap.sectors,
                        kind: gap.kind,
                        subheader: gap.subheader,
                        form2_edc: gap.form2_edc,
                    },
                ),
                ..state
            };
            gaps_keep_files(next, index + 1);
        }
    }
}

pub proof fn reference_parents_keep_files(iso: IsoModel, state: PlacingModel, index: int)
    ensures
        place_reference_parents_from(iso, state, index) matches Ok(after) ==> keeps_files(
            state,
            after,
        ),
    decreases state.primary.placements.len() - index,
{
    let directories = state.primary.placements;
    if 0 <= index < directories.len() {
        if holds_reference(iso.entries, directories[index].path) {
            let next = place_if_free(
                iso,
                state,
                MetadataVolume::Primary,
                index,
            );
            if next is Ok && next->Ok_0.primary.placements.len() == directories.len() {
                reference_parents_keep_files(iso, next->Ok_0, index + 1);
            }
        } else {
            reference_parents_keep_files(iso, state, index + 1);
        }
    }
}

pub proof fn rest_keeps_files(state: PlacingModel, index: int)
    ensures
        place_rest_from(state, index) matches Ok(after) ==> keeps_files(state, after),
    decreases state.primary.placements.len() - index,
{
    let directories = state.primary.placements;
    if 0 <= index < directories.len() {
        if !state.primary.placed[index] {
            let next = place_directory(
                state,
                MetadataVolume::Primary,
                index,
                ErrorKind::PlacementOverflow,
            );
            if next is Ok && next->Ok_0.primary.placements.len() == directories.len() {
                rest_keeps_files(next->Ok_0, index + 1);
            }
        } else {
            rest_keeps_files(state, index + 1);
        }
    }
}

proof fn items_lie_in_order(
    iso: IsoModel,
    lengths: Seq<FileLengthModel>,
    state: PlacingModel,
    index: int,
)
    requires
        forall|i: int| 0 <= i < iso.files.len() ==> (#[trigger] iso.files[i]) is Path,
        0 <= index <= iso.files.len(),
        files_lie_in_order(iso, state.files, index, state.next),
    ensures
        place_items_from(iso, lengths, state, index) matches Ok(after) ==> files_lie_in_order(
            iso,
            after.files,
            iso.files.len() as int,
            after.next,
        ) && after.trailing == state.trailing,
    decreases iso.files.len() - index,
{
    if index < iso.files.len() {
        assert(iso.files[index] is Path);
        let path = iso.files[index]->Path_path;
        let above = place_ancestors(iso, state, MetadataVolume::Primary, path);
        ancestors_keep_files(iso, state, MetadataVolume::Primary, path);
        if above is Ok {
            gaps_keep_files(above->Ok_0, 0);
            let next = place_item_file(iso, lengths, state, path);
            if next is Ok {
                let after = next->Ok_0;
                let flushed = flush(above->Ok_0)->Ok_0;
                assert(after.files.len() == state.files.len() + 1);
                assert forall|i: int| 0 <= i < index + 1 implies iso.files[i] == (
                ItemModel::Path { path: (#[trigger] after.files[i]).path }) && after.files[i].extent
                    + after.files[i].blocks <= after.next && after.files[i].blocks == ceil_div(
                    after.files[i].length as int,
                    2048,
                ) by {
                    if i < index {
                        assert(after.files[i] == state.files[i]);
                    }
                }
                assert forall|i: int, j: int| 0 <= i < j < index + 1 implies (
                #[trigger] after.files[i]).extent + after.files[i].blocks <= (
                #[trigger] after.files[j]).extent by {
                    assert(after.files[i] == state.files[i]);
                    if j < index {
                        assert(after.files[j] == state.files[j]);
                    }
                }
                items_lie_in_order(iso, lengths, after, index + 1);
            }
        }
    }
}

proof fn group_keeps_files(state: PlacingModel, volume: MetadataVolume, index: int)
    ensures
        place_group_from(state, volume, index) matches Ok(after) ==> keeps_files(state, after),
    decreases state.tree(volume).placements.len() - index,
{
    let tree = state.tree(volume);
    if 0 <= index < tree.placements.len() {
        if volume == MetadataVolume::Joliet || !tree.placed[index] {
            let after = place_directory(state, volume, index, ErrorKind::MetadataDirectoryOverflow);
            if after is Ok && after->Ok_0.tree(volume).placements.len() == tree.placements.len() {
                group_keeps_files(after->Ok_0, volume, index + 1);
            }
        } else {
            group_keeps_files(state, volume, index + 1);
        }
    }
}

/// The metadata area holds no file.
pub proof fn metadata_keeps_files(
    items: Seq<MetadataLayoutItem>,
    state: PlacingModel,
    blocks: u32,
    joliet_blocks: u32,
    index: int,
)
    ensures
        place_metadata_from(items, state, blocks, joliet_blocks, index) matches Ok(after)
            ==> keeps_files(state, after),
    decreases items.len() - index,
{
    if 0 <= index < items.len() {
        if let MetadataLayoutItem::Directories(volume) = items[index] {
            group_keeps_files(state, volume, 0);
        }
        if let Ok(after) = place_metadata_item(state, items[index], blocks, joliet_blocks) {
            metadata_keeps_files(items, after, blocks, joliet_blocks, index + 1);
        }
    }
}

/// Files have the sizes that were given.
pub open spec fn have_given_sizes(lengths: Seq<FileLengthModel>, files: Seq<FileModel>) -> bool {
    forall|i: int|
        0 <= i < files.len() ==> length_from(lengths, (#[trigger] files[i]).path, 0) == Some(
            files[i].length,
        )
}

proof fn items_have_given_sizes(
    iso: IsoModel,
    lengths: Seq<FileLengthModel>,
    state: PlacingModel,
    index: int,
)
    requires
        forall|i: int| 0 <= i < iso.files.len() ==> (#[trigger] iso.files[i]) is Path,
        0 <= index <= iso.files.len(),
        have_given_sizes(lengths, state.files),
    ensures
        place_items_from(iso, lengths, state, index) matches Ok(after) ==> have_given_sizes(
            lengths,
            after.files,
        ),
    decreases iso.files.len() - index,
{
    if index < iso.files.len() {
        assert(iso.files[index] is Path);
        let path = iso.files[index]->Path_path;
        ancestors_keep_files(iso, state, MetadataVolume::Primary, path);
        if let Ok(above) = place_ancestors(iso, state, MetadataVolume::Primary, path) {
            gaps_keep_files(above, 0);
            if let Ok(after) = place_item_file(iso, lengths, state, path) {
                assert forall|i: int| 0 <= i < after.files.len() implies length_from(
                    lengths,
                    (#[trigger] after.files[i]).path,
                    0,
                ) == Some(after.files[i].length) by {
                    if i < state.files.len() {
                        assert(after.files[i] == state.files[i]);
                    }
                }
                items_have_given_sizes(iso, lengths, after, index + 1);
            }
        }
    }
}

/// The files of an image lie one behind the other, in the order of the file area.
pub proof fn placed_files_lie_in_order(
    iso: IsoModel,
    lengths: Seq<FileLengthModel>,
    placed: Placed,
)
    requires
        placed_filesystem(iso, lengths) == Ok::<Placed, Failure>(placed),
        forall|i: int| 0 <= i < iso.files.len() ==> (#[trigger] iso.files[i]) is Path,
    ensures
        files_lie_in_order(
            iso,
            placed.state.files,
            iso.files.len() as int,
            placed.state.next,
        ),
        placed.state.trailing is None,
        have_given_sizes(lengths, placed.state.files),
{
    let directories = sized_directories_from(
        iso,
        primary_nodes(iso),
        directories_of(
            primary_nodes(iso),
            ErrorKind::UnreachableDirectory,
        )->Ok_0,
        0,
        Seq::empty(),
    )->Ok_0;
    let start = if iso.supplementary_volumes.len() > 0 {
        let plan = joliet_plan(iso)->Ok_0;
        metadata_keeps_files(
            iso.metadata_layout,
            nothing_placed(
                iso,
                directories,
                plan.directories,
                (17 + iso.primary_volume_copies + iso.supplementary_volumes.len()) as u32,
            ),
            placed.table.blocks,
            plan.table.blocks,
            0,
        );
        place_joliet_metadata(
            iso,
            directories,
            plan.directories,
            placed.table.blocks,
            plan.table.blocks,
        )->Ok_0
    } else {
        place_plain_metadata(iso, directories, placed.table.blocks)->Ok_0
    };
    assert(start.files =~= Seq::<FileModel>::empty() && start.trailing is None);
    reference_parents_keep_files(iso, start, 1);
    let second = place_reference_parents_from(iso, start, 1)->Ok_0;
    items_lie_in_order(iso, lengths, second, 0);
    items_have_given_sizes(iso, lengths, second, 0);
    let third = place_items_from(iso, lengths, second, 0)->Ok_0;
    if iso.supplementary_volumes.len() > 0 {
        gaps_keep_files(third, 0);
    } else {
        rest_keeps_files(third, 0);
        gaps_keep_files(place_rest_from(third, 0)->Ok_0, 0);
    }
}

/// Runs of what was found whose extents rise are the same where the one holds what
/// the other does.
proof fn rising_are_alike(left: Seq<FoundModel>, right: Seq<FoundModel>)
    requires
        forall|i: int, j: int|
            0 <= i < j < left.len() ==> (#[trigger] left[i]).extent < (#[trigger] left[j]).extent,
        forall|i: int, j: int|
            0 <= i < j < right.len() ==> (#[trigger] right[i]).extent < (
            #[trigger] right[j]).extent,
        forall|i: int| 0 <= i < left.len() ==> right.contains(#[trigger] left[i]),
        forall|i: int| 0 <= i < right.len() ==> left.contains(#[trigger] right[i]),
    ensures
        left == right,
    decreases left.len() + right.len(),
{
    if left.len() == 0 {
        if right.len() > 0 {
            assert(left.contains(right[0]));
        }
        assert(left =~= right);
    } else {
        assert(right.contains(left[left.len() - 1]));
        assert(right.len() > 0);
        assert(left.contains(right[right.len() - 1]));
        let last = left.len() - 1;
        let end = right.len() - 1;
        let i = choose|i: int| 0 <= i < right.len() && right[i] == left[last];
        let j = choose|j: int| 0 <= j < left.len() && left[j] == right[end];
        if i < end {
            assert(right[i].extent < right[end].extent);
            if j < last {
                assert(left[j].extent < left[last].extent);
            }
            assert(false);
        }
        let some = left.drop_last();
        let others = right.drop_last();
        assert forall|i: int| 0 <= i < some.len() implies others.contains(#[trigger] some[i]) by {
            assert(some[i] == left[i]);
            let k = choose|k: int| 0 <= k < right.len() && right[k] == left[i];
            assert(left[i].extent < left[last].extent);
            assert(k < end);
            assert(others[k] == some[i]);
        }
        assert forall|i: int| 0 <= i < others.len() implies some.contains(#[trigger] others[i]) by {
            assert(others[i] == right[i]);
            let k = choose|k: int| 0 <= k < left.len() && left[k] == right[i];
            assert(right[i].extent < right[end].extent);
            assert(k < last);
            assert(some[k] == others[i]);
        }
        assert forall|i: int, j: int| 0 <= i < j < some.len() implies (#[trigger] some[i]).extent
            < (#[trigger] some[j]).extent by {
            assert(left[i].extent < left[j].extent);
        }
        assert forall|i: int, j: int| 0 <= i < j < others.len() implies (
        #[trigger] others[i]).extent < (#[trigger] others[j]).extent by {
            assert(right[i].extent < right[j].extent);
        }
        rising_are_alike(some, others);
        assert(left =~= some.push(left[last]));
        assert(right =~= others.push(right[end]));
    }
}

/// The files that are told are those of the given indexes that are files and no audio.
pub proof fn files_are_tallied(
    iso: IsoModel,
    spots: Seq<SpotModel>,
    trailing: bool,
    indexes: Seq<int>,
    tally: Tally,
)
    requires
        tally.files.len() == 0,
    ensures
        ({
            let files = tally_over(iso, spots, trailing, indexes, tally).files;
            &&& forall|a: int| 0 <= a < files.len() ==> is_tallied(
                iso,
                spots,
                trailing,
                indexes,
                #[trigger] files[a],
            )
            &&& forall|i: int|
                0 <= i < indexes.len() && !primary_nodes(iso)[#[trigger] indexes[i]].directory
                    && !is_cdda(xa_at(iso, spots, trailing, indexes[i])) ==> files.contains(
                    found_at(iso, spots, trailing, indexes[i]),
                )
        }),
    decreases indexes.len(),
{
    if indexes.len() > 0 {
        let init = indexes.drop_last();
        files_are_tallied(iso, spots, trailing, init, tally);
        let before = tally_over(iso, spots, trailing, init, tally).files;
        let files = tally_over(iso, spots, trailing, indexes, tally).files;
        assert forall|a: int| 0 <= a < files.len() implies is_tallied(
            iso,
            spots,
            trailing,
            indexes,
            #[trigger] files[a],
        ) by {
            if a < before.len() {
                assert(files[a] == before[a]);
                assert(is_tallied(iso, spots, trailing, init, before[a]));
                let i = choose|i: int|
                    0 <= i < init.len() && !primary_nodes(iso)[#[trigger] init[i]].directory
                        && !is_cdda(xa_at(iso, spots, trailing, init[i])) && before[a] == found_at(
                        iso,
                        spots,
                        trailing,
                        init[i],
                    );
                assert(indexes[i] == init[i]);
            } else {
                assert(indexes[indexes.len() - 1] == indexes.last());
            }
        }
        assert forall|i: int|
            0 <= i < indexes.len() && !primary_nodes(iso)[#[trigger] indexes[i]].directory
                && !is_cdda(xa_at(iso, spots, trailing, indexes[i])) implies files.contains(
            found_at(iso, spots, trailing, indexes[i]),
        ) by {
            let found = found_at(iso, spots, trailing, indexes[i]);
            if i < init.len() {
                assert(init[i] == indexes[i]);
                assert(before.contains(found));
                let a = choose|a: int| 0 <= a < before.len() && before[a] == found;
                assert(files[a] == found);
            } else {
                assert(files[files.len() - 1] == found);
            }
        }
    }
}

/// What was found is a file and no audio, and has one of the given indexes.
pub open spec fn is_tallied(
    iso: IsoModel,
    spots: Seq<SpotModel>,
    trailing: bool,
    indexes: Seq<int>,
    found: FoundModel,
) -> bool {
    exists|i: int|
        0 <= i < indexes.len() && !primary_nodes(iso)[#[trigger] indexes[i]].directory && !is_cdda(
            xa_at(iso, spots, trailing, indexes[i]),
        ) && found == found_at(iso, spots, trailing, indexes[i])
}

/// What is read of the attributes of an entry is what it has.
pub proof fn attributes_are_told(
    iso: IsoModel,
    spots: Seq<SpotModel>,
    trailing: bool,
    index: int,
)
    requires
        is_tree(iso),
        0 <= index < iso.entries.len(),
    ensures
        is_cdda(xa_at(iso, spots, trailing, index)) ==> is_cdda(iso.entries[index].xa),
        is_form2_xa(xa_at(iso, spots, trailing, index)) ==> is_form2_xa(iso.entries[index].xa),
{
    assert(entry_check(iso, index) is Ok);
    let node = primary_nodes(iso)[index];
    let record = model_at(iso, spots, trailing, index);
    let data = record.system_use;
    written_xa_is_accepted(node.path, node.xa, node.directory, node.system_use, data);
    if node.system_use {
        let attributes = attributes_of(node.xa, node.directory);
        let permissions = permissions_of(node.xa);
        let raw = permissions | attributes.0;
        let part = field(data, 4, 2);
        assert(part =~= be16(raw));
        assert(from_be16(part) == raw);
        let value = attributes.0;
        assert(permissions & 0xf800 == 0 ==> ((permissions | value) & 0xf800) & 0x4000 == value
            & 0x4000 && ((permissions | value) & 0xf800) & 0x2000 == value & 0x2000 && ((permissions
            | value) & 0xf800) & 0x1000 == value & 0x1000) by (bit_vector);
        assert(0x8800u16 & 0x4000 == 0 && 0x0800u16 & 0x4000 == 0 && 0x8800u16 & 0x2000 == 0
            && 0x0800u16 & 0x2000 == 0 && 0x8800u16 & 0x1000 == 0 && 0x0800u16 & 0x1000 == 0)
            by (bit_vector);
    }
}

/// Files with a fixed extent are read as audio.
pub open spec fn extents_show(iso: IsoModel, state: PlacingModel) -> bool {
    let spots = primary_spots(iso, state, primary_nodes(iso));
    let trailing = primary_options(iso).trailing_system_use_padding;
    forall|k: int|
        0 <= k < iso.entries.len() && (#[trigger] iso.entries[k]).extent is Some ==> is_cdda(
            xa_at(iso, spots, trailing, k),
        )
}

/// Exactly the files with a fixed extent are read as audio.
pub proof fn audio_is_told(iso: IsoModel, state: PlacingModel, index: int)
    requires
        is_tree(iso),
        extents_show(iso, state),
        0 <= index < iso.entries.len(),
    ensures
        is_cdda(
            xa_at(
                iso,
                primary_spots(iso, state, primary_nodes(iso)),
                primary_options(iso).trailing_system_use_padding,
                index,
            ),
        ) == (iso.entries[index].extent is Some),
        iso.entries[index].extent is Some ==> !primary_nodes(iso)[index].directory,
{
    let spots = primary_spots(iso, state, primary_nodes(iso));
    let trailing = primary_options(iso).trailing_system_use_padding;
    attributes_are_told(iso, spots, trailing, index);
    assert(entry_check(iso, index) is Ok);
    if iso.entries[index].extent is Some {
        assert(is_referenced(iso.entries, iso.entries[index].path));
    }
}

/// A file with a path is found where no other has the path.
proof fn file_is_found(files: Seq<FileModel>, position: int, index: int)
    requires
        0 <= index <= position < files.len(),
        forall|i: int, j: int|
            0 <= i < j < files.len() ==> (#[trigger] files[i]).path != (#[trigger] files[j]).path,
    ensures
        find_file_from(files, files[position].path, index) == Some(files[position]),
    decreases position - index,
{
    if index < position {
        assert(files[index].path != files[position].path);
        file_is_found(files, position, index + 1);
    }
}

/// The items of a file area that passes its checks.
pub proof fn checked_files(iso: IsoModel)
    requires
        description_check(iso) is Ok,
    ensures
        forall|j: int| 0 <= j < iso.files.len() ==> #[trigger] file_item_check(iso, j) is Ok,
{
    let checks = file_item_checks(iso);
    first_failure_ok(checks, 0, iso.files.len() as int);
    assert forall|j: int| 0 <= j < iso.files.len() implies #[trigger] file_item_check(
        iso,
        j,
    ) is Ok by {
        assert(checks(j) is Ok);
    }
}

/// A file without a fixed extent lies where the file area has it.
pub proof fn own_file_is_placed(iso: IsoModel, state: PlacingModel, index: int) -> (at: int)
    requires
        description_check(iso) is Ok,
        files_lie_in_order(iso, state.files, iso.files.len() as int, state.next),
        0 <= index < iso.entries.len(),
        !primary_nodes(iso)[index].directory,
        iso.entries[index].extent is None,
    ensures
        0 <= at < state.files.len(),
        state.files[at].path == iso.entries[index].path,
        find_file_from(state.files, iso.entries[index].path, 0) == Some(state.files[at]),
{
    checked_is_tree(iso);
    checked_files(iso);
    let path = iso.entries[index].path;
    if is_referenced(iso.entries, path) {
        let i = choose|i: int|
            0 <= i < iso.entries.len() && (#[trigger] iso.entries[i]).path == path
                && iso.entries[i].extent is Some;
        if i < index {
            assert(iso.entries[i].path != iso.entries[index].path);
        } else if index < i {
            assert(iso.entries[index].path != iso.entries[i].path);
        }
        assert(false);
    }
    assert(is_authored(iso.files, path));
    let at = choose|i: int| 0 <= i < iso.files.len() && #[trigger] iso.files[i] == (
    ItemModel::Path { path });
    assert(state.files[at].path == path);
    files_have_own_paths(iso, state);
    file_is_found(state.files, at, 0);
    at
}

/// No two files of the file area have one path.
pub proof fn files_have_own_paths(iso: IsoModel, state: PlacingModel)
    requires
        description_check(iso) is Ok,
        files_lie_in_order(iso, state.files, iso.files.len() as int, state.next),
    ensures
        forall|i: int, j: int|
            0 <= i < j < state.files.len() ==> (#[trigger] state.files[i]).path != (
            #[trigger] state.files[j]).path,
{
    checked_files(iso);
    let files = state.files;
    assert forall|i: int, j: int| 0 <= i < j < files.len() implies (#[trigger] files[i]).path != (
    #[trigger] files[j]).path by {
        assert(file_item_check(iso, j) is Ok);
        if files[i].path == files[j].path {
            assert(iso.files[i] == (ItemModel::Path { path: files[j].path }));
            assert(file_before(iso.files, j, files[j].path));
        }
    }
}

/// What is found of a file that was placed.
spec fn found_file(file: FileModel) -> FoundModel {
    FoundModel { path: file.path, extent: file.extent, length: file.length as u32 }
}

/// The record of each file without a fixed extent has the length of the file.
pub open spec fn lengths_show(iso: IsoModel, state: PlacingModel) -> bool {
    forall|k: int|
        0 <= k < iso.entries.len() && !(#[trigger] primary_nodes(iso)[k]).directory
            && iso.entries[k].extent is None ==> has_own_length(iso, state, k)
}

/// The record of a file has the length of the file.
pub open spec fn has_own_length(iso: IsoModel, state: PlacingModel, index: int) -> bool {
    let spot = file_spot(iso.entries[index], state.files);
    spot.length matches Ok(length) && find_file_from(state.files, iso.entries[index].path, 0)
        matches Some(file) && length == file.length
}

/// An order has all items in it.
proof fn order_has_all(keys: Seq<u32>, count: int, item: int)
    requires
        0 <= item < count <= keys.len(),
    ensures
        stable_order(keys, count).contains(item),
    decreases count,
{
    let before = stable_order(keys, count - 1);
    let order = stable_order(keys, count);
    stable_order_sorts(keys, count - 1);
    let place = place_in(keys, before, count - 1, before.len() as int);
    place_in_bounds(keys, before, count - 1, before.len() as int);
    if item == count - 1 {
        assert(order[place] == item);
    } else {
        order_has_all(keys, count - 1, item);
        let i = choose|i: int| 0 <= i < before.len() && before[i] == item;
        if i < place {
            assert(order[i] == item);
        } else {
            assert(order[i + 1] == item);
        }
    }
}

/// What was found, sorted by its extents, is the run of it whose extents rise.
proof fn sorting_gives(files: Seq<FoundModel>, placed: Seq<FoundModel>)
    requires
        forall|a: int| 0 <= a < files.len() ==> placed.contains(#[trigger] files[a]),
        forall|j: int| 0 <= j < placed.len() ==> files.contains(#[trigger] placed[j]),
        forall|a: int, b: int|
            0 <= a < b < files.len() ==> (#[trigger] files[a]).path != (#[trigger] files[b]).path,
        forall|i: int, j: int|
            0 <= i < j < placed.len() ==> (#[trigger] placed[i]).extent < (
            #[trigger] placed[j]).extent,
    ensures
        file_order(files).len() == placed.len(),
        forall|i: int|
            0 <= i < placed.len() ==> #[trigger] file_order(files)[i] == (ItemModel::Path {
                path: placed[i].path,
            }),
{
    let extents = extents_of(files);
    let order = stable_order(extents, files.len() as int);
    stable_order_sorts(extents, files.len() as int);
    let sorted = Seq::new(files.len(), |i: int| files[order[i]]);
    assert forall|i: int| 0 <= i < sorted.len() implies placed.contains(#[trigger] sorted[i]) by {
        assert(0 <= order[i] < files.len());
        assert(placed.contains(files[order[i]]));
    }
    assert forall|i: int, j: int| 0 <= i < j < sorted.len() implies (#[trigger] sorted[i]).extent
        < (#[trigger] sorted[j]).extent by {
        assert(comes_before(extents, order[i], order[j]));
        assert(0 <= order[i] < files.len() && 0 <= order[j] < files.len());
        if files[order[i]].extent == files[order[j]].extent {
            assert(placed.contains(files[order[i]]) && placed.contains(files[order[j]]));
            let a = choose|a: int| 0 <= a < placed.len() && placed[a] == files[order[i]];
            let b = choose|b: int| 0 <= b < placed.len() && placed[b] == files[order[j]];
            if a < b {
                assert(placed[a].extent < placed[b].extent);
            } else if b < a {
                assert(placed[b].extent < placed[a].extent);
            }
            assert(files[order[i]].path != files[order[j]].path);
            assert(false);
        }
    }
    assert forall|j: int| 0 <= j < placed.len() implies sorted.contains(#[trigger] placed[j]) by {
        assert(files.contains(placed[j]));
        let a = choose|a: int| 0 <= a < files.len() && files[a] == placed[j];
        order_has_all(extents, files.len() as int, a);
        let i = choose|i: int| 0 <= i < order.len() && order[i] == a;
        assert(sorted[i] == placed[j]);
    }
    rising_are_alike(sorted, placed);
    assert forall|i: int| 0 <= i < placed.len() implies #[trigger] file_order(files)[i] == (
    ItemModel::Path { path: placed[i].path }) by {
        assert(sorted[i] == placed[i]);
    }
}

/// What is found of the files that were placed.
spec fn found_files(state: PlacingModel) -> Seq<FoundModel> {
    Seq::new(state.files.len(), |j: int| found_file(state.files[j]))
}

/// What is found of a file without a fixed extent is what is found of the file that was
/// placed for it.
proof fn own_file_is_found(iso: IsoModel, state: PlacingModel, index: int)
    requires
        description_check(iso) is Ok,
        files_lie_in_order(iso, state.files, iso.files.len() as int, state.next),
        lengths_show(iso, state),
        0 <= index < iso.entries.len(),
        !primary_nodes(iso)[index].directory,
        iso.entries[index].extent is None,
    ensures
        found_files(state).contains(
            found_at(
                iso,
                primary_spots(iso, state, primary_nodes(iso)),
                primary_options(iso).trailing_system_use_padding,
                index,
            ),
        ),
        ({
            let found = found_at(
                iso,
                primary_spots(iso, state, primary_nodes(iso)),
                primary_options(iso).trailing_system_use_padding,
                index,
            );
            forall|j: int|
                0 <= j < state.files.len() && (#[trigger] state.files[j]).path
                    == iso.entries[index].path ==> found_files(state)[j] == found
        }),
{
    let nodes = primary_nodes(iso);
    let spots = primary_spots(iso, state, nodes);
    let trailing = primary_options(iso).trailing_system_use_padding;
    let at = own_file_is_placed(iso, state, index);
    assert(nodes[index].directory == false);
    assert(has_own_length(iso, state, index));
    assert(spots[index] == file_spot(iso.entries[index], state.files));
    assert(found_files(state)[at] == found_at(iso, spots, trailing, index));
    files_have_own_paths(iso, state);
    assert forall|j: int|
        0 <= j < state.files.len() && (#[trigger] state.files[j]).path
            == iso.entries[index].path implies found_files(state)[j] == found_at(
        iso,
        spots,
        trailing,
        index,
    ) by {
        if at < j {
            assert(state.files[at].path != state.files[j].path);
        } else if j < at {
            assert(state.files[j].path != state.files[at].path);
        }
    }
}

/// The files that are told are those that were placed.
proof fn placed_are_tallied(iso: IsoModel, state: PlacingModel)
    requires
        description_check(iso) is Ok,
        are_sized(iso, state.primary.placements),
        all_are_listed(iso, state.primary.placements),
        files_lie_in_order(iso, state.files, iso.files.len() as int, state.next),
        extents_show(iso, state),
        lengths_show(iso, state),
    ensures
        ({
            let files = told_tally(iso, state).files;
            let placed = found_files(state);
            &&& forall|a: int| 0 <= a < files.len() ==> placed.contains(#[trigger] files[a])
            &&& forall|j: int| 0 <= j < placed.len() ==> files.contains(#[trigger] placed[j])
            &&& forall|a: int, b: int|
                0 <= a < b < files.len() ==> (#[trigger] files[a]).path != (
                #[trigger] files[b]).path
        }),
{
    checked_is_tree(iso);
    checked_files(iso);
    let nodes = primary_nodes(iso);
    let spots = primary_spots(iso, state, nodes);
    let trailing = primary_options(iso).trailing_system_use_padding;
    let origins = told_origins(iso, state);
    let empty = Tally {
        files: Seq::empty(),
        omissions: Seq::empty(),
        policy: IdentifierPolicy::IsoLevel1,
    };
    origins_are_complete(iso, state);
    tally_is_told(iso, state, 0, seq![0int], empty);
    assert(seq![0int].skip(1) =~= Seq::<int>::empty());
    let indexes = origins.skip(1);
    let files = told_tally(iso, state).files;
    assert(files == tally_over(iso, spots, trailing, indexes, empty).files);
    files_are_tallied(iso, spots, trailing, indexes, empty);
    let placed = found_files(state);
    assert forall|i: int| 0 <= i < indexes.len() implies 0 <= #[trigger] indexes[i]
        < iso.entries.len() by {
        assert(origins[i + 1] == indexes[i]);
    }
    assert forall|i: int, j: int| 0 <= i < j < indexes.len() implies #[trigger] indexes[i]
        != #[trigger] indexes[j] by {
        assert(origins[i + 1] != origins[j + 1]);
    }
    tally_files_differ(iso, state, indexes, empty);
    assert forall|a: int| 0 <= a < files.len() implies placed.contains(#[trigger] files[a]) by {
        assert(is_tallied(iso, spots, trailing, indexes, files[a]));
        let i = choose|i: int|
            0 <= i < indexes.len() && !nodes[#[trigger] indexes[i]].directory && !is_cdda(
                xa_at(iso, spots, trailing, indexes[i]),
            ) && files[a] == found_at(iso, spots, trailing, indexes[i]);
        audio_is_told(iso, state, indexes[i]);
        own_file_is_found(iso, state, indexes[i]);
    }
    assert forall|j: int| 0 <= j < placed.len() implies files.contains(#[trigger] placed[j]) by {
        let path = state.files[j].path;
        assert(file_item_check(iso, j) is Ok);
        assert(iso.files[j] == (ItemModel::Path { path }));
        assert(is_known(iso.entries, path));
        let k = choose|k: int|
            0 <= k < iso.entries.len() && (#[trigger] iso.entries[k]).path == path;
        assert(is_authored(iso.files, path));
        assert(!nodes[k].directory);
        assert(iso.entries[k].extent is None);
        audio_is_told(iso, state, k);
        own_file_is_found(iso, state, k);
        assert(origins.contains(k));
        let e = choose|e: int| 0 <= e < origins.len() && origins[e] == k;
        assert(e > 0);
        assert(indexes[e - 1] == k);
        assert(files.contains(found_at(iso, spots, trailing, indexes[e - 1])));
    }
}

/// The files that are told, in the order of their extents, are those of the file area.
pub proof fn files_are_told(iso: IsoModel, state: PlacingModel)
    requires
        description_check(iso) is Ok,
        are_sized(iso, state.primary.placements),
        all_are_listed(iso, state.primary.placements),
        files_lie_in_order(iso, state.files, iso.files.len() as int, state.next),
        forall|i: int| 0 <= i < state.files.len() ==> (#[trigger] state.files[i]).length > 0,
        extents_show(iso, state),
        lengths_show(iso, state),
    ensures
        file_order(told_tally(iso, state).files) == iso.files,
{
    placed_are_tallied(iso, state);
    let files = told_tally(iso, state).files;
    let placed = found_files(state);
    assert forall|i: int, j: int| 0 <= i < j < placed.len() implies (#[trigger] placed[i]).extent
        < (#[trigger] placed[j]).extent by {
        assert(state.files[i].extent + state.files[i].blocks <= state.files[j].extent);
        assert(state.files[i].length > 0);
    }
    sorting_gives(files, placed);
    let told = file_order(files);
    assert forall|i: int| 0 <= i < told.len() implies told[i] == iso.files[i] by {
        assert(told[i] == (ItemModel::Path { path: placed[i].path }));
        assert(iso.files[i] == (ItemModel::Path { path: state.files[i].path }));
    }
    assert(told =~= iso.files);
}

/// No two files that are told have one path.
proof fn tally_files_differ(
    iso: IsoModel,
    state: PlacingModel,
    indexes: Seq<int>,
    tally: Tally,
)
    requires
        is_tree(iso),
        tally.files.len() == 0,
        forall|i: int| 0 <= i < indexes.len() ==> 0 <= #[trigger] indexes[i] < iso.entries.len(),
        forall|i: int, j: int|
            0 <= i < j < indexes.len() ==> #[trigger] indexes[i] != #[trigger] indexes[j],
    ensures
        ({
            let files = tally_over(
                iso,
                primary_spots(iso, state, primary_nodes(iso)),
                primary_options(iso).trailing_system_use_padding,
                indexes,
                tally,
            ).files;
            forall|a: int, b: int|
                0 <= a < b < files.len() ==> (#[trigger] files[a]).path != (#[trigger] files[b]).path
        }),
    decreases indexes.len(),
{
    if indexes.len() > 0 {
        let spots = primary_spots(iso, state, primary_nodes(iso));
        let trailing = primary_options(iso).trailing_system_use_padding;
        let init = indexes.drop_last();
        assert forall|i: int| 0 <= i < init.len() implies 0 <= #[trigger] init[i]
            < iso.entries.len() by {
            assert(init[i] == indexes[i]);
        }
        assert forall|i: int, j: int| 0 <= i < j < init.len() implies #[trigger] init[i]
            != #[trigger] init[j] by {
            assert(indexes[i] != indexes[j]);
        }
        tally_files_differ(iso, state, init, tally);
        files_are_tallied(iso, spots, trailing, init, tally);
        let before = tally_over(iso, spots, trailing, init, tally).files;
        let files = tally_over(iso, spots, trailing, indexes, tally).files;
        let last = indexes[indexes.len() - 1];
        assert forall|a: int, b: int| 0 <= a < b < files.len() implies (#[trigger] files[a]).path
            != (#[trigger] files[b]).path by {
            assert(files[a] == before[a]);
            if b < before.len() {
                assert(files[b] == before[b]);
            } else {
                assert(is_tallied(iso, spots, trailing, init, before[a]));
                let i = choose|i: int|
                    0 <= i < init.len() && !primary_nodes(iso)[#[trigger] init[i]].directory
                        && !is_cdda(xa_at(iso, spots, trailing, init[i])) && before[a] == found_at(
                        iso,
                        spots,
                        trailing,
                        init[i],
                    );
                assert(indexes[i] != indexes[indexes.len() - 1]);
                if init[i] < last {
                    assert(iso.entries[init[i]].path != iso.entries[last].path);
                } else {
                    assert(iso.entries[last].path != iso.entries[init[i]].path);
                }
            }
        }
    }
}

} // verus!
