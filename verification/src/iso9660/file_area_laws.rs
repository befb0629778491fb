//! Where the files of an image lie, whatever else the file area holds.
use vstd::prelude::*;

use crate::error::{ErrorKind, Failure};
use crate::iso9660::description::{IsoModel, ItemModel};
use crate::iso9660::directory::FileModel;
use crate::iso9660::file_order_laws::{
    ancestors_keep_files, checked_files, gaps_keep_files, metadata_keeps_files,
    reference_parents_keep_files, rest_keeps_files,
};
use crate::iso9660::layout::{
    joliet_plan, layout_of, nothing_placed, place_joliet_metadata, place_plain_metadata,
    placed_filesystem, sized_directories_from, LayoutModel, Placed,
};
use crate::iso9660::path_table::find_directory;
use crate::iso9660::placing::{
    flush, length_from, place_ancestors, place_directory, place_item, place_item_directory,
    place_item_extent, place_item_file, place_items_from, place_reference_parents_from,
    place_rest_from, FileLengthModel, PlacingModel,
};
use crate::iso9660::tree::{directories_of, primary_nodes};
use crate::iso9660::validate::{description_check, file_before, file_item_check};
use crate::manifest::MetadataVolume;

verus! {

/// A file is the one that an item of the file area names, lies before a block, and takes
/// the least number of blocks that hold it.
pub open spec fn is_placed(
    iso: IsoModel,
    lengths: Seq<FileLengthModel>,
    file: FileModel,
    count: int,
    next: u32,
) -> bool {
    &&& file_before(iso.files, count, file.path)
    &&& length_from(lengths, file.path, 0) == Some(file.length)
    &&& file.extent + file.blocks <= next
    &&& file.length <= file.blocks * 2048
    &&& file.blocks > 0 ==> (file.blocks - 1) * 2048 < file.length
}

/// The files that the first items of the file area name are placed, each once, one behind
/// the other.
spec fn are_placed(
    iso: IsoModel,
    lengths: Seq<FileLengthModel>,
    files: Seq<FileModel>,
    count: int,
    next: u32,
) -> bool {
    &&& forall|f: int|
        0 <= f < files.len() ==> is_placed(iso, lengths, #[trigger] files[f], count, next)
    &&& forall|f: int, g: int|
        0 <= f < g < files.len() ==> (#[trigger] files[f]).path != (#[trigger] files[g]).path
            && files[f].extent + files[f].blocks <= files[g].extent
    &&& forall|i: int|
        0 <= i < count && i < iso.files.len() ==> (#[trigger] iso.files[i] matches ItemModel::Path {
            path,
        } ==> has_path(files, path))
}

/// One of the files has a path.
pub open spec fn has_path(files: Seq<FileModel>, path: Seq<char>) -> bool {
    exists|f: int| 0 <= f < files.len() && (#[trigger] files[f]).path == path
}

/// What is no file leaves the files as they are.
proof fn others_keep_files(
    iso: IsoModel,
    lengths: Seq<FileLengthModel>,
    state: PlacingModel,
    item: ItemModel,
)
    ensures
        !(item is Path) ==> (place_item(iso, lengths, state, item) matches Ok(after) ==> after.files
            == state.files && state.next <= after.next),
{
    match item {
        ItemModel::Directory { volume, path } => {
            ancestors_keep_files(iso, state, volume, path);
            if let Ok(above) = place_ancestors(iso, state, volume, path) {
                gaps_keep_files(above, 0);
                if let Ok(flushed) = flush(above) {
                    let index = find_directory(flushed.tree(volume).placements, path);
                    let after = place_directory(
                        flushed,
                        volume,
                        index,
                        ErrorKind::PlacementOverflow,
                    );
                    assert(place_item_directory(iso, state, volume, path) is Ok
                        ==> place_item_directory(iso, state, volume, path) == after);
                }
            }
        },
        ItemModel::XaExtent { assets } => {
            gaps_keep_files(state, 0);
            assert(place_item(iso, lengths, state, item) == place_item_extent(
                lengths,
                state,
                assets.index,
            ));
        },
        _ => {},
    }
}

proof fn items_are_placed(
    iso: IsoModel,
    lengths: Seq<FileLengthModel>,
    state: PlacingModel,
    index: int,
)
    requires
        forall|j: int| 0 <= j < iso.files.len() ==> #[trigger] file_item_check(iso, j) is Ok,
        0 <= index <= iso.files.len(),
        are_placed(iso, lengths, state.files, index, state.next),
    ensures
        place_items_from(iso, lengths, state, index) matches Ok(after) ==> are_placed(
            iso,
            lengths,
            after.files,
            iso.files.len() as int,
            after.next,
        ),
    decreases iso.files.len() - index,
{
    if index < iso.files.len() {
        let item = iso.files[index];
        let next = place_item(iso, lengths, state, item);
        if next is Ok {
            let after = next->Ok_0;
            others_keep_files(iso, lengths, state, item);
            if let ItemModel::Path { path } = item {
                ancestors_keep_files(iso, state, MetadataVolume::Primary, path);
                let above = place_ancestors(iso, state, MetadataVolume::Primary, path)->Ok_0;
                gaps_keep_files(above, 0);
                assert(next == place_item_file(iso, lengths, state, path));
                assert(after.files.drop_last() =~= state.files);
                assert(file_item_check(iso, index) is Ok);
            }
            assert forall|f: int| 0 <= f < after.files.len() implies is_placed(
                iso,
                lengths,
                #[trigger] after.files[f],
                index + 1,
                after.next,
            ) by {
                if f < state.files.len() {
                    let file = state.files[f];
                    assert(after.files[f] == file);
                    assert(is_placed(iso, lengths, file, index, state.next));
                    let j = choose|j: int|
                        0 <= j < index && j < iso.files.len() && #[trigger] iso.files[j] == (
                        ItemModel::Path { path: file.path });
                    assert(iso.files[j] == (ItemModel::Path { path: file.path }));
                } else {
                    assert(iso.files[index] == (ItemModel::Path { path: after.files[f].path }));
                }
            }
            assert forall|f: int, g: int| 0 <= f < g < after.files.len() implies (
            #[trigger] after.files[f]).path != (#[trigger] after.files[g]).path
                && after.files[f].extent + after.files[f].blocks <= after.files[g].extent by {
                assert(after.files[f] == state.files[f]);
                assert(is_placed(iso, lengths, state.files[f], index, state.next));
                if g < state.files.len() {
                    assert(after.files[g] == state.files[g]);
                }
            }
            assert forall|i: int| 0 <= i < index + 1 && i < iso.files.len() implies (
            #[trigger] iso.files[i] matches ItemModel::Path { path } ==> has_path(
                after.files,
                path,
            )) by {
                if let ItemModel::Path { path } = iso.files[i] {
                    if i < index {
                        assert(has_path(state.files, path));
                        let f = choose|f: int|
                            0 <= f < state.files.len() && (#[trigger] state.files[f]).path == path;
                        assert(after.files[f] == state.files[f]);
                    } else {
                        assert(after.files[after.files.len() - 1].path == path);
                    }
                }
            }
            items_are_placed(iso, lengths, after, index + 1);
        }
    }
}

/// The files of a layout are those that the file area names, each once, and in the order
/// of the file area one behind the other; each has the size that was given for it, and
/// takes the least number of blocks that hold it.
pub proof fn each_file_is_placed_once(
    iso: IsoModel,
    lengths: Seq<FileLengthModel>,
    layout: LayoutModel,
)
    requires
        layout_of(iso, lengths) == Ok::<LayoutModel, Failure>(layout),
    ensures
        forall|i: int|
            0 <= i < iso.files.len() ==> (#[trigger] iso.files[i] matches ItemModel::Path { path }
                ==> has_path(layout.files, path)),
        forall|f: int|
            0 <= f < layout.files.len() ==> iso.files.contains(
                ItemModel::Path { path: (#[trigger] layout.files[f]).path },
            ),
        forall|f: int, g: int|
            0 <= f < g < layout.files.len() ==> (#[trigger] layout.files[f]).path != (
            #[trigger] layout.files[g]).path && layout.files[f].extent + layout.files[f].blocks
                <= layout.files[g].extent,
        forall|f: int|
            0 <= f < layout.files.len() ==> (#[trigger] layout.files[f]).length
                <= layout.files[f].blocks * 2048 && (layout.files[f].blocks == 0 || (
            layout.files[f].blocks - 1) * 2048 < layout.files[f].length),
        forall|f: int|
            0 <= f < layout.files.len() ==> length_from(
                lengths,
                (#[trigger] layout.files[f]).path,
                0,
            ) == Some(layout.files[f].length),
        forall|f: int|
            0 <= f < layout.files.len() ==> (#[trigger] layout.files[f]).extent
                + layout.files[f].blocks <= layout.volume_blocks,
{
    assert(description_check(iso) is Ok);
    checked_files(iso);
    let placed = placed_filesystem(iso, lengths)->Ok_0;
    placed_files_are_placed(iso, lengths, placed);
    let files = layout.files;
    assert(files == placed.state.files);
    assert forall|f: int| 0 <= f < files.len() implies iso.files.contains(
        ItemModel::Path { path: (#[trigger] files[f]).path },
    ) by {
        assert(is_placed(iso, lengths, files[f], iso.files.len() as int, placed.state.next));
        let j = choose|j: int|
            0 <= j < iso.files.len() && #[trigger] iso.files[j] == (ItemModel::Path {
                path: files[f].path,
            });
        assert(iso.files[j] == (ItemModel::Path { path: files[f].path }));
    }
    assert forall|f: int| 0 <= f < files.len() implies is_placed(
        iso,
        lengths,
        #[trigger] files[f],
        iso.files.len() as int,
        placed.state.next,
    ) by {}
    assert(placed.state.next <= layout.volume_blocks);
}

proof fn placed_files_are_placed(iso: IsoModel, lengths: Seq<FileLengthModel>, placed: Placed)
    requires
        forall|j: int| 0 <= j < iso.files.len() ==> #[trigger] file_item_check(iso, j) is Ok,
        placed_filesystem(iso, lengths) == Ok::<Placed, Failure>(placed),
    ensures
        are_placed(iso, lengths, placed.state.files, iso.files.len() as int, placed.state.next),
{
    let directories = sized_directories_from(
        iso,
        primary_nodes(iso),
        directories_of(primary_nodes(iso), ErrorKind::UnreachableDirectory)->Ok_0,
        0,
        Seq::empty(),
    )->Ok_0;
    let start = if iso.supplementary_volumes.len() > 0 {
        let plan = joliet_plan(iso)->Ok_0;
        metadata_keeps_files(
            iso.metadata_layout,
            nothing_placed(
                iso,
                directories,
                plan.directories,
                (17 + iso.primary_volume_copies + iso.supplementary_volumes.len()) as u32,
            ),
            placed.table.blocks,
            plan.table.blocks,
            0,
        );
        place_joliet_metadata(
            iso,
            directories,
            plan.directories,
            placed.table.blocks,
            plan.table.blocks,
        )->Ok_0
    } else {
        place_plain_metadata(iso, directories, placed.table.blocks)->Ok_0
    };
    assert(start.files =~= Seq::<FileModel>::empty());
    reference_parents_keep_files(iso, start, 1);
    let second = place_reference_parents_from(iso, start, 1)->Ok_0;
    assert(are_placed(iso, lengths, second.files, 0, second.next));
    items_are_placed(iso, lengths, second, 0);
    let third = place_items_from(iso, lengths, second, 0)->Ok_0;
    let files = third.files;
    if iso.supplementary_volumes.len() > 0 {
        gaps_keep_files(third, 0);
    } else {
        rest_keeps_files(third, 0);
        gaps_keep_files(place_rest_from(third, 0)->Ok_0, 0);
    }
    assert forall|f: int| 0 <= f < files.len() implies is_placed(
        iso,
        lengths,
        #[trigger] files[f],
        iso.files.len() as int,
        placed.state.next,
    ) by {
        assert(is_placed(iso, lengths, files[f], iso.files.len() as int, third.next));
    }
}

/// The size of a file is the first that is given for its path.
pub proof fn first_length_counts(lengths: Seq<FileLengthModel>, path: Seq<char>, at: int)
    requires
        0 <= at < lengths.len(),
        lengths[at].path == path,
        forall|i: int| 0 <= i < at ==> (#[trigger] lengths[i]).path != path,
    ensures
        length_from(lengths, path, 0) == Some(lengths[at].length),
{
    length_is_found(lengths, path, at, 0);
}

proof fn length_is_found(lengths: Seq<FileLengthModel>, path: Seq<char>, at: int, index: int)
    requires
        0 <= index <= at < lengths.len(),
        lengths[at].path == path,
        forall|i: int| 0 <= i < at ==> (#[trigger] lengths[i]).path != path,
    ensures
        length_from(lengths, path, index) == Some(lengths[at].length),
    decreases at - index,
{
    if index < at {
        assert(lengths[index].path != path);
        length_is_found(lengths, path, at, index + 1);
    }
}

} // verus!
