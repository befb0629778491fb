//! A gap in the file area moves what follows it, and nothing else.
use vstd::prelude::*;

use crate::error::{ErrorKind, Failure};
use crate::iso9660::description::{GapItem, IsoModel, ItemModel};
use crate::iso9660::directory::FileModel;
use crate::iso9660::file_order_laws::{
    ancestors_keep_files, gaps_keep_files, metadata_keeps_files, reference_parents_keep_files,
};
use crate::iso9660::layout::{
    layout_of, nothing_placed, place_contents, place_joliet_metadata, place_plain_metadata,
    reference_marks, sized_directories_from, sized_directory, LayoutModel, sized_joliet_from,
    sized_joliet_directory, joliet_plan, table_plan, table_count,
};
use crate::iso9660::path_table::{find_directory_from, PlacementModel};
use crate::iso9660::placing::{
    flush, flush_from, is_explicit, place_ancestors, place_directory, place_if_free, place_item,
    place_item_file, place_items_from, place_reference_parents_from, place_rest_from,
    holds_reference, FileLengthModel, GapPlacement, PlacingModel, TreeModel,
};
use crate::iso9660::placing_laws::{found_directory_is_there, same_directories, same_directory};
use crate::iso9660::tree::{
    directories_of, joliet_nodes, NodeModel, is_authored, is_file, primary_node, primary_nodes,
};
use crate::manifest::{GapKind, MetadataVolume};
use crate::text::{parent_of, root_path};

verus! {

/// The description with one more gap in its file area.
pub open spec fn with_gap(iso: IsoModel, at: int, gap: GapItem) -> IsoModel {
    IsoModel { files: iso.files.insert(at, ItemModel::Gap { gap }), ..iso }
}

/// The number of files among the first items of a file area.
pub open spec fn files_before(files: Seq<ItemModel>, at: int) -> int
    decreases at,
{
    if at <= 0 {
        0
    } else {
        files_before(files, at - 1) + if files[at - 1] is Path {
            1int
        } else {
            0
        }
    }
}

/// Directories are the same but for where they lie, and the same of them have places.
spec fn trees_match(left: TreeModel, right: TreeModel) -> bool {
    &&& right.placed == left.placed
    &&& same_directories(left, right)
}

/// Files from one on are moved.
pub open spec fn files_are_moved(
    before: Seq<FileModel>,
    after: Seq<FileModel>,
    from: int,
    by: int,
) -> bool {
    &&& after.len() == before.len()
    &&& forall|j: int| 0 <= j < before.len() && j < from ==> #[trigger] after[j] == before[j]
    &&& forall|j: int|
        0 <= j < before.len() && from <= j ==> (#[trigger] after[j]).extent == before[j].extent + by
            && after[j] == (FileModel { extent: after[j].extent, ..before[j] })
}

/// What was placed is moved from one file on.
spec fn is_moved(before: PlacingModel, after: PlacingModel, from: int, by: int) -> bool {
    &&& after.next == before.next + by
    &&& trees_match(before.primary, after.primary)
    &&& trees_match(before.joliet, after.joliet)
    &&& after.pending == before.pending
    &&& files_are_moved(before.files, after.files, from, by)
    &&& from <= before.files.len()
}

/// The file area places the same directories itself.
proof fn explicit_stays(
    iso: IsoModel,
    at: int,
    gap: GapItem,
    volume: MetadataVolume,
    path: Seq<char>,
)
    requires
        0 <= at <= iso.files.len(),
    ensures
        is_explicit(with_gap(iso, at, gap), volume, path) == is_explicit(iso, volume, path),
{
    let item = ItemModel::Directory { volume, path };
    let more = with_gap(iso, at, gap).files;
    if is_explicit(iso, volume, path) {
        let j = choose|j: int| 0 <= j < iso.files.len() && #[trigger] iso.files[j] == item;
        assert(more[if j < at {
            j
        } else {
            j + 1
        }] == item);
    }
    if is_explicit(with_gap(iso, at, gap), volume, path) {
        let j = choose|j: int| 0 <= j < more.len() && #[trigger] more[j] == item;
        assert(iso.files[if j < at {
            j
        } else {
            j - 1
        }] == item);
    }
}

/// The same paths are those of files.
proof fn nodes_stay(iso: IsoModel, at: int, gap: GapItem)
    requires
        0 <= at <= iso.files.len(),
    ensures
        primary_nodes(with_gap(iso, at, gap)) == primary_nodes(iso),
{
    let again = with_gap(iso, at, gap);
    assert forall|path: Seq<char>| #[trigger] is_authored(again.files, path) == is_authored(
        iso.files,
        path,
    ) by {
        let item = ItemModel::Path { path };
        if is_authored(iso.files, path) {
            let j = choose|j: int| 0 <= j < iso.files.len() && #[trigger] iso.files[j] == item;
            assert(again.files[if j < at {
                j
            } else {
                j + 1
            }] == item);
        }
        if is_authored(again.files, path) {
            let j = choose|j: int| 0 <= j < again.files.len() && #[trigger] again.files[j] == item;
            assert(iso.files[if j < at {
                j
            } else {
                j - 1
            }] == item);
        }
    }
    assert forall|i: int| 0 <= i < iso.entries.len() implies #[trigger] primary_nodes(again)[i]
        == primary_nodes(iso)[i] by {
        assert(is_file(again, iso.entries[i].path) == is_file(iso, iso.entries[i].path));
        assert(primary_node(again, iso.entries[i]) == primary_node(iso, iso.entries[i]));
    }
    assert(primary_nodes(again) =~= primary_nodes(iso));
}

proof fn free_directory_stays(
    iso: IsoModel,
    at: int,
    gap: GapItem,
    state: PlacingModel,
    volume: MetadataVolume,
    index: int,
)
    requires
        0 <= at <= iso.files.len(),
    ensures
        place_if_free(with_gap(iso, at, gap), state, volume, index) == place_if_free(
            iso,
            state,
            volume,
            index,
        ),
{
    explicit_stays(iso, at, gap, volume, state.tree(volume).placements[index].path);
}

proof fn ancestors_stay(
    iso: IsoModel,
    at: int,
    gap: GapItem,
    state: PlacingModel,
    volume: MetadataVolume,
    path: Seq<char>,
)
    requires
        0 <= at <= iso.files.len(),
    ensures
        place_ancestors(with_gap(iso, at, gap), state, volume, path) == place_ancestors(
            iso,
            state,
            volume,
            path,
        ),
    decreases path.len(),
{
    let parent = parent_of(path);
    if parent != root_path() && parent.len() < path.len() {
        ancestors_stay(iso, at, gap, state, volume, parent);
        let above = place_ancestors(iso, state, volume, parent);
        if above is Ok {
            let placements = above->Ok_0.tree(volume).placements;
            free_directory_stays(
                iso,
                at,
                gap,
                above->Ok_0,
                volume,
                find_directory_from(placements, parent, 0),
            );
        }
    }
}

proof fn item_stays(
    iso: IsoModel,
    at: int,
    gap: GapItem,
    lengths: Seq<FileLengthModel>,
    state: PlacingModel,
    item: ItemModel,
)
    requires
        0 <= at <= iso.files.len(),
    ensures
        place_item(with_gap(iso, at, gap), lengths, state, item) == place_item(
            iso,
            lengths,
            state,
            item,
        ),
{
    match item {
        ItemModel::Directory { volume, path } => {
            ancestors_stay(iso, at, gap, state, volume, path);
        },
        ItemModel::Path { path } => {
            ancestors_stay(iso, at, gap, state, MetadataVolume::Primary, path);
        },
        _ => {},
    }
}

proof fn reference_parents_stay(
    iso: IsoModel,
    at: int,
    gap: GapItem,
    state: PlacingModel,
    index: int,
)
    requires
        0 <= at <= iso.files.len(),
    ensures
        place_reference_parents_from(with_gap(iso, at, gap), state, index)
            == place_reference_parents_from(iso, state, index),
    decreases state.primary.placements.len() - index,
{
    let directories = state.primary.placements;
    if 0 <= index < directories.len() {
        free_directory_stays(iso, at, gap, state, MetadataVolume::Primary, index);
        if holds_reference(iso.entries, directories[index].path) {
            let next = place_if_free(iso, state, MetadataVolume::Primary, index);
            if next is Ok && next->Ok_0.primary.placements.len() == directories.len() {
                reference_parents_stay(iso, at, gap, next->Ok_0, index + 1);
            }
        } else {
            reference_parents_stay(iso, at, gap, state, index + 1);
        }
    }
}

proof fn directory_is_moved(
    before: PlacingModel,
    after: PlacingModel,
    from: int,
    by: int,
    volume: MetadataVolume,
    index: int,
    overflow: ErrorKind,
)
    requires
        is_moved(before, after, from, by),
        0 <= index < before.tree(volume).placements.len(),
        place_directory(before, volume, index, overflow) is Ok,
        place_directory(after, volume, index, overflow) is Ok,
    ensures
        is_moved(
            place_directory(before, volume, index, overflow)->Ok_0,
            place_directory(after, volume, index, overflow)->Ok_0,
            from,
            by,
        ),
{
    let left = before.tree(volume);
    let right = after.tree(volume);
    let first = place_directory(before, volume, index, overflow)->Ok_0;
    let second = place_directory(after, volume, index, overflow)->Ok_0;
    assert(trees_match(left, right));
    assert(first.tree(volume).placed =~= second.tree(volume).placed);
    assert forall|i: int| 0 <= i < left.placements.len() implies
        same_directory(
        #[trigger] second.tree(volume).placements[i],
        first.tree(volume).placements[i],
    ) by {
        assert(same_directory(
            right.placements[i],
            left.placements[i],
        ));
    }
}

proof fn found_in_both(left: TreeModel, right: TreeModel, path: Seq<char>, index: int)
    requires
        trees_match(left, right),
        0 <= index,
    ensures
        find_directory_from(right.placements, path, index) == find_directory_from(
            left.placements,
            path,
            index,
        ),
    decreases left.placements.len() - index,
{
    if index < left.placements.len() {
        assert(same_directory(
            right.placements[index],
            left.placements[index],
        ));
        found_in_both(left, right, path, index + 1);
    }
}

proof fn free_directory_is_moved(
    iso: IsoModel,
    before: PlacingModel,
    after: PlacingModel,
    from: int,
    by: int,
    volume: MetadataVolume,
    index: int,
)
    requires
        is_moved(before, after, from, by),
        0 <= index < before.tree(volume).placements.len(),
        place_if_free(iso, before, volume, index) is Ok,
        place_if_free(iso, after, volume, index) is Ok,
    ensures
        is_moved(
            place_if_free(iso, before, volume, index)->Ok_0,
            place_if_free(iso, after, volume, index)->Ok_0,
            from,
            by,
        ),
{
    let left = before.tree(volume);
    let right = after.tree(volume);
    assert(same_directory(
        right.placements[index],
        left.placements[index],
    ));
    if !left.placed[index] && !is_explicit(iso, volume, left.placements[index].path) {
        directory_is_moved(
            before,
            after,
            from,
            by,
            volume,
            index,
            ErrorKind::PlacementOverflow,
        );
    }
}

proof fn ancestors_are_moved(
    iso: IsoModel,
    before: PlacingModel,
    after: PlacingModel,
    from: int,
    by: int,
    volume: MetadataVolume,
    path: Seq<char>,
)
    requires
        is_moved(before, after, from, by),
        place_ancestors(iso, before, volume, path) is Ok,
        place_ancestors(iso, after, volume, path) is Ok,
    ensures
        is_moved(
            place_ancestors(iso, before, volume, path)->Ok_0,
            place_ancestors(iso, after, volume, path)->Ok_0,
            from,
            by,
        ),
    decreases path.len(),
{
    let parent = parent_of(path);
    if parent != root_path() && parent.len() < path.len() {
        ancestors_are_moved(iso, before, after, from, by, volume, parent);
        let first = place_ancestors(iso, before, volume, parent)->Ok_0;
        let second = place_ancestors(iso, after, volume, parent)->Ok_0;
        found_in_both(first.tree(volume), second.tree(volume), parent, 0);
        found_directory_is_there(first.tree(volume).placements, parent, 0);
        let index = find_directory_from(first.tree(volume).placements, parent, 0);
        free_directory_is_moved(iso, first, second, from, by, volume, index);
    }
}

proof fn gaps_are_moved(
    before: PlacingModel,
    after: PlacingModel,
    from: int,
    by: int,
    index: int,
)
    requires
        is_moved(before, after, from, by),
        flush_from(before, index) is Ok,
        flush_from(after, index) is Ok,
    ensures
        is_moved(flush_from(before, index)->Ok_0, flush_from(after, index)->Ok_0, from, by),
    decreases before.pending.len() - index,
{
    if 0 <= index < before.pending.len() {
        gaps_are_moved(gap_placed(before, index), gap_placed(after, index), from, by, index + 1);
    }
}

/// What has been placed once a waiting gap is.
spec fn gap_placed(state: PlacingModel, index: int) -> PlacingModel {
    let gap = state.pending[index];
    PlacingModel {
        next: (state.next + gap.sectors) as u32,
        gaps: state.gaps.push(
            GapPlacement {
                start: state.next,
                sectors: gap.sectors,
                kind: gap.kind,
                subheader: gap.subheader,
                form2_edc: gap.form2_edc,
            },
        ),
        ..state
    }
}

proof fn item_is_moved(
    iso: IsoModel,
    lengths: Seq<FileLengthModel>,
    before: PlacingModel,
    after: PlacingModel,
    from: int,
    by: int,
    item: ItemModel,
)
    requires
        is_moved(before, after, from, by),
        place_item(iso, lengths, before, item) is Ok,
        place_item(iso, lengths, after, item) is Ok,
    ensures
        is_moved(
            place_item(iso, lengths, before, item)->Ok_0,
            place_item(iso, lengths, after, item)->Ok_0,
            from,
            by,
        ),
{
    match item {
        ItemModel::Directory { volume, path } => {
            ancestors_are_moved(iso, before, after, from, by, volume, path);
            let first = place_ancestors(iso, before, volume, path)->Ok_0;
            let second = place_ancestors(iso, after, volume, path)->Ok_0;
            gaps_are_moved(first, second, from, by, 0);
            let third = flush(first)->Ok_0;
            let fourth = flush(second)->Ok_0;
            found_in_both(third.tree(volume), fourth.tree(volume), path, 0);
            found_directory_is_there(third.tree(volume).placements, path, 0);
            directory_is_moved(
                third,
                fourth,
                from,
                by,
                volume,
                find_directory_from(third.tree(volume).placements, path, 0),
                ErrorKind::PlacementOverflow,
            );
        },
        ItemModel::XaExtent { assets } => {
            gaps_are_moved(before, after, from, by, 0);
        },
        ItemModel::Path { path } => {
            ancestors_are_moved(iso, before, after, from, by, MetadataVolume::Primary, path);
            let first = place_ancestors(iso, before, MetadataVolume::Primary, path)->Ok_0;
            let second = place_ancestors(iso, after, MetadataVolume::Primary, path)->Ok_0;
            gaps_are_moved(first, second, from, by, 0);
            let third = flush(first)->Ok_0;
            let fourth = flush(second)->Ok_0;
            file_is_moved(iso, lengths, before, after, from, by, path, third, fourth);
        },
        ItemModel::Gap { gap } => {},
    }
}

proof fn file_is_moved(
    iso: IsoModel,
    lengths: Seq<FileLengthModel>,
    before: PlacingModel,
    after: PlacingModel,
    from: int,
    by: int,
    path: Seq<char>,
    third: PlacingModel,
    fourth: PlacingModel,
)
    requires
        is_moved(third, fourth, from, by),
        place_item_file(iso, lengths, before, path) is Ok,
        place_item_file(iso, lengths, after, path) is Ok,
        place_ancestors(iso, before, MetadataVolume::Primary, path) is Ok,
        place_ancestors(iso, after, MetadataVolume::Primary, path) is Ok,
        flush(place_ancestors(iso, before, MetadataVolume::Primary, path)->Ok_0) == Ok::<
            PlacingModel,
            Failure,
        >(third),
        flush(place_ancestors(iso, after, MetadataVolume::Primary, path)->Ok_0) == Ok::<
            PlacingModel,
            Failure,
        >(fourth),
    ensures
        is_moved(
            place_item_file(iso, lengths, before, path)->Ok_0,
            place_item_file(iso, lengths, after, path)->Ok_0,
            from,
            by,
        ),
{
    let fifth = place_item_file(iso, lengths, before, path)->Ok_0;
    let sixth = place_item_file(iso, lengths, after, path)->Ok_0;
    let n = third.files.len() as int;
    assert forall|j: int| 0 <= j < fifth.files.len() && j < from implies #[trigger] sixth.files[j]
        == fifth.files[j] by {
        assert(sixth.files[j] == fourth.files[j] && fifth.files[j] == third.files[j]);
    }
    assert forall|j: int| 0 <= j < fifth.files.len() && from <= j implies (
    #[trigger] sixth.files[j]).extent == fifth.files[j].extent + by && sixth.files[j] == (
    FileModel { extent: sixth.files[j].extent, ..fifth.files[j] }) by {
        if j < n {
            assert(sixth.files[j] == fourth.files[j] && fifth.files[j] == third.files[j]);
        }
    }
}

proof fn rest_is_moved(before: PlacingModel, after: PlacingModel, from: int, by: int, index: int)
    requires
        is_moved(before, after, from, by),
        place_rest_from(before, index) is Ok,
        place_rest_from(after, index) is Ok,
    ensures
        is_moved(place_rest_from(before, index)->Ok_0, place_rest_from(after, index)->Ok_0, from, by),
    decreases before.primary.placements.len() - index,
{
    let directories = before.primary.placements;
    if 0 <= index < directories.len() {
        if !before.primary.placed[index] {
            directory_is_moved(
                before,
                after,
                from,
                by,
                MetadataVolume::Primary,
                index,
                ErrorKind::PlacementOverflow,
            );
            let first = place_directory(
                before,
                MetadataVolume::Primary,
                index,
                ErrorKind::PlacementOverflow,
            )->Ok_0;
            let second = place_directory(
                after,
                MetadataVolume::Primary,
                index,
                ErrorKind::PlacementOverflow,
            )->Ok_0;
            rest_is_moved(first, second, from, by, index + 1);
        } else {
            rest_is_moved(before, after, from, by, index + 1);
        }
    }
}

/// The items behind the gap are moved.
proof fn items_are_moved(
    iso: IsoModel,
    at: int,
    gap: GapItem,
    lengths: Seq<FileLengthModel>,
    before: PlacingModel,
    after: PlacingModel,
    from: int,
    by: int,
    index: int,
)
    requires
        0 <= at <= index,
        at <= iso.files.len(),
        is_moved(before, after, from, by),
        place_items_from(iso, lengths, before, index) is Ok,
        place_items_from(with_gap(iso, at, gap), lengths, after, index + 1) is Ok,
    ensures
        is_moved(
            place_items_from(iso, lengths, before, index)->Ok_0,
            place_items_from(with_gap(iso, at, gap), lengths, after, index + 1)->Ok_0,
            from,
            by,
        ),
    decreases iso.files.len() - index,
{
    let again = with_gap(iso, at, gap);
    if index < iso.files.len() {
        let item = iso.files[index];
        assert(again.files[index + 1] == item);
        item_stays(iso, at, gap, lengths, after, item);
        item_is_moved(iso, lengths, before, after, from, by, item);
        items_are_moved(
            iso,
            at,
            gap,
            lengths,
            place_item(iso, lengths, before, item)->Ok_0,
            place_item(iso, lengths, after, item)->Ok_0,
            from,
            by,
            index + 1,
        );
    }
}

/// Waiting gaps do not matter to the directories that hold a path.
proof fn ancestors_leave_gaps(
    iso: IsoModel,
    state: PlacingModel,
    volume: MetadataVolume,
    path: Seq<char>,
    pending: Seq<GapItem>,
)
    ensures
        place_ancestors(iso, PlacingModel { pending, ..state }, volume, path) == match place_ancestors(
            iso,
            state,
            volume,
            path,
        ) {
            Ok(after) => Ok(PlacingModel { pending, ..after }),
            Err(failure) => Err(failure),
        },
        place_ancestors(iso, state, volume, path) matches Ok(after) ==> after.pending
            == state.pending && after.files == state.files,
    decreases path.len(),
{
    let parent = parent_of(path);
    if parent != root_path() && parent.len() < path.len() {
        ancestors_leave_gaps(iso, state, volume, parent, pending);
    }
}

/// One more waiting gap is placed behind the others.
proof fn last_gap_moves(state: PlacingModel, gap: GapItem, index: int)
    requires
        0 <= index <= state.pending.len(),
        flush_from(state, index) is Ok,
        flush_from(PlacingModel { pending: state.pending.push(gap), ..state }, index) is Ok,
    ensures
        ({
            let first = flush_from(state, index)->Ok_0;
            let second = flush_from(
                PlacingModel { pending: state.pending.push(gap), ..state },
                index,
            )->Ok_0;
            &&& second.next == first.next + gap.sectors
            &&& second.primary == first.primary && first.primary == state.primary
            &&& second.joliet == first.joliet && first.joliet == state.joliet
            &&& second.files == first.files && first.files == state.files
            &&& second.pending == first.pending
        }),
    decreases state.pending.len() - index,
{
    let more = PlacingModel { pending: state.pending.push(gap), ..state };
    assert(more.pending.len() == state.pending.len() + 1);
    if index < state.pending.len() {
        assert(more.pending[index] == state.pending[index]);
        assert(gap_placed(more, index) == (PlacingModel {
            pending: gap_placed(state, index).pending.push(gap),
            ..gap_placed(state, index)
        }));
        last_gap_moves(gap_placed(state, index), gap, index + 1);
    } else {
        assert(more.pending[index] == gap);
        let next = gap_placed(more, index);
        assert(flush_from(more, index) == flush_from(next, index + 1));
    }
}

/// The file behind the gap is moved by it.
proof fn next_file_moves(
    iso: IsoModel,
    lengths: Seq<FileLengthModel>,
    state: PlacingModel,
    gap: GapItem,
    path: Seq<char>,
)
    requires
        place_item_file(iso, lengths, state, path) is Ok,
        place_item_file(
            iso,
            lengths,
            PlacingModel { pending: state.pending.push(gap), ..state },
            path,
        ) is Ok,
    ensures
        is_moved(
            place_item_file(iso, lengths, state, path)->Ok_0,
            place_item_file(
                iso,
                lengths,
                PlacingModel { pending: state.pending.push(gap), ..state },
                path,
            )->Ok_0,
            state.files.len() as int,
            gap.sectors as int,
        ),
{
    let volume = MetadataVolume::Primary;
    let more = state.pending.push(gap);
    ancestors_leave_gaps(iso, state, volume, path, more);
    let above = place_ancestors(iso, state, volume, path)->Ok_0;
    last_gap_moves(above, gap, 0);
    let first = place_item_file(iso, lengths, state, path)->Ok_0;
    let second = place_item_file(
        iso,
        lengths,
        PlacingModel { pending: more, ..state },
        path,
    )->Ok_0;
    assert(first.primary == second.primary && first.joliet == second.joliet);
    assert forall|j: int| 0 <= j < state.files.len() implies #[trigger] second.files[j]
        == first.files[j] by {
        assert(second.files[j] == state.files[j]);
    }
}

/// Only a file adds to the files.
proof fn item_counts(
    iso: IsoModel,
    lengths: Seq<FileLengthModel>,
    state: PlacingModel,
    item: ItemModel,
)
    requires
        place_item(iso, lengths, state, item) is Ok,
    ensures
        place_item(iso, lengths, state, item)->Ok_0.files.len() == state.files.len() + if item is Path {
            1int
        } else {
            0
        },
{
    match item {
        ItemModel::Directory { volume, path } => {
            ancestors_keep_files(iso, state, volume, path);
            let above = place_ancestors(iso, state, volume, path)->Ok_0;
            gaps_keep_files(above, 0);
        },
        ItemModel::XaExtent { assets } => {
            gaps_keep_files(state, 0);
        },
        ItemModel::Path { path } => {
            let volume = MetadataVolume::Primary;
            ancestors_keep_files(iso, state, volume, path);
            let above = place_ancestors(iso, state, volume, path)->Ok_0;
            gaps_keep_files(above, 0);
        },
        ItemModel::Gap { gap } => {},
    }
}

/// The gap moves what the file area holds behind it.
proof fn area_is_moved(
    iso: IsoModel,
    at: int,
    gap: GapItem,
    lengths: Seq<FileLengthModel>,
    state: PlacingModel,
    index: int,
    from: int,
)
    requires
        0 <= index <= at < iso.files.len(),
        iso.files[at] is Path,
        gap.kind != GapKind::Xa && gap.kind != GapKind::RawZero,
        from == state.files.len() + files_before(iso.files, at) - files_before(iso.files, index),
        place_items_from(iso, lengths, state, index) is Ok,
        place_items_from(with_gap(iso, at, gap), lengths, state, index) is Ok,
    ensures
        is_moved(
            place_items_from(iso, lengths, state, index)->Ok_0,
            place_items_from(with_gap(iso, at, gap), lengths, state, index)->Ok_0,
            from,
            gap.sectors as int,
        ),
    decreases at - index,
{
    let again = with_gap(iso, at, gap);
    let item = iso.files[index];
    if index < at {
        assert(again.files[index] == item);
        item_stays(iso, at, gap, lengths, state, item);
        item_counts(iso, lengths, state, item);
        area_is_moved(
            iso,
            at,
            gap,
            lengths,
            place_item(iso, lengths, state, item)->Ok_0,
            index + 1,
            from,
        );
    } else {
        let more = PlacingModel { pending: state.pending.push(gap), ..state };
        assert(again.files[at] == ItemModel::Gap { gap });
        assert(again.files[at + 1] == item);
        assert(place_items_from(again, lengths, state, at) == place_items_from(
            again,
            lengths,
            more,
            at + 1,
        ));
        item_stays(iso, at, gap, lengths, more, item);
        let path = item->Path_path;
        next_file_moves(iso, lengths, state, gap, path);
        items_are_moved(
            iso,
            at,
            gap,
            lengths,
            place_item(iso, lengths, state, item)->Ok_0,
            place_item(iso, lengths, more, item)->Ok_0,
            from,
            gap.sectors as int,
            at + 1,
        );
    }
}

proof fn contents_are_moved(
    iso: IsoModel,
    at: int,
    gap: GapItem,
    lengths: Seq<FileLengthModel>,
    state: PlacingModel,
)
    requires
        0 <= at < iso.files.len(),
        iso.files[at] is Path,
        gap.kind != GapKind::Xa && gap.kind != GapKind::RawZero,
        state.files.len() == 0,
        place_contents(iso, lengths, state) is Ok,
        place_contents(with_gap(iso, at, gap), lengths, state) is Ok,
    ensures
        files_are_moved(
            place_contents(iso, lengths, state)->Ok_0.files,
            place_contents(with_gap(iso, at, gap), lengths, state)->Ok_0.files,
            files_before(iso.files, at),
            gap.sectors as int,
        ),
{
    let from = files_before(iso.files, at);
    let by = gap.sectors as int;
    reference_parents_stay(iso, at, gap, state, 1);
    reference_parents_keep_files(iso, state, 1);
    let first = place_reference_parents_from(iso, state, 1)->Ok_0;
    area_is_moved(iso, at, gap, lengths, first, 0, from);
    let second = place_items_from(iso, lengths, first, 0)->Ok_0;
    let third = place_items_from(with_gap(iso, at, gap), lengths, first, 0)->Ok_0;
    if iso.supplementary_volumes.len() > 0 {
        gaps_are_moved(second, third, from, by, 0);
    } else {
        rest_is_moved(second, third, from, by, 0);
        gaps_are_moved(
            place_rest_from(second, 0)->Ok_0,
            place_rest_from(third, 0)->Ok_0,
            from,
            by,
            0,
        );
    }
}

proof fn sizes_stay(
    iso: IsoModel,
    at: int,
    gap: GapItem,
    nodes: Seq<NodeModel>,
    directories: Seq<PlacementModel>,
    index: int,
    sized: Seq<PlacementModel>,
)
    ensures
        sized_directories_from(with_gap(iso, at, gap), nodes, directories, index, sized)
            == sized_directories_from(iso, nodes, directories, index, sized),
    decreases directories.len() - index,
{
    if 0 <= index < directories.len() {
        let size = sized_directory(iso, nodes, directories[index]);
        if size is Ok {
            sizes_stay(iso, at, gap, nodes, directories, index + 1, sized.push(size->Ok_0));
        }
    }
}

proof fn joliet_sizes_stay(
    iso: IsoModel,
    at: int,
    gap: GapItem,
    nodes: Seq<NodeModel>,
    system_use: bool,
    directories: Seq<PlacementModel>,
    index: int,
    sized: Seq<PlacementModel>,
)
    ensures
        sized_joliet_from(with_gap(iso, at, gap), nodes, system_use, directories, index, sized)
            == sized_joliet_from(iso, nodes, system_use, directories, index, sized),
    decreases directories.len() - index,
{
    if 0 <= index < directories.len() {
        let size = sized_joliet_directory(iso, nodes, system_use, directories[index]);
        if size is Ok {
            joliet_sizes_stay(
                iso,
                at,
                gap,
                nodes,
                system_use,
                directories,
                index + 1,
                sized.push(size->Ok_0),
            );
        }
    }
}

proof fn joliet_plan_stays(iso: IsoModel, at: int, gap: GapItem)
    ensures
        joliet_plan(with_gap(iso, at, gap)) == joliet_plan(iso),
{
    let volume = iso.supplementary_volumes[0];
    if let Ok(nodes) = joliet_nodes(volume) {
        if let Ok(ordered) = directories_of(nodes, ErrorKind::UnreachableJolietDirectory) {
            joliet_sizes_stay(
                iso,
                at,
                gap,
                nodes,
                volume.xa_system_use,
                ordered,
                0,
                Seq::empty(),
            );
        }
    }
}

proof fn start_stays(
    iso: IsoModel,
    at: int,
    gap: GapItem,
    directories: Seq<PlacementModel>,
    joliet: Seq<PlacementModel>,
    next: u32,
)
    ensures
        nothing_placed(with_gap(iso, at, gap), directories, joliet, next) == nothing_placed(
            iso,
            directories,
            joliet,
            next,
        ),
{
    assert(reference_marks(with_gap(iso, at, gap), directories) =~= reference_marks(
        iso,
        directories,
    ));
}

/// A gap moves the files behind it: where a gap of the kind that lies between files is put right
/// before a file, that file and all later ones lie further on by the length of the gap, and the
/// files before it stay where they were. No file changes its path, its length or its blocks.
pub proof fn gap_moves_what_follows(
    iso: IsoModel,
    at: int,
    gap: GapItem,
    lengths: Seq<FileLengthModel>,
    before: LayoutModel,
    after: LayoutModel,
)
    requires
        0 <= at < iso.files.len(),
        iso.files[at] is Path,
        gap.kind != GapKind::Xa && gap.kind != GapKind::RawZero,
        layout_of(iso, lengths) == Ok::<LayoutModel, Failure>(before),
        layout_of(with_gap(iso, at, gap), lengths) == Ok::<LayoutModel, Failure>(after),
    ensures
        files_are_moved(
            before.files,
            after.files,
            files_before(iso.files, at),
            gap.sectors as int,
        ),
{
    let again = with_gap(iso, at, gap);
    let nodes = primary_nodes(iso);
    let ordered = directories_of(nodes, ErrorKind::UnreachableDirectory)->Ok_0;
    nodes_stay(iso, at, gap);
    sizes_stay(iso, at, gap, nodes, ordered, 0, Seq::empty());
    let directories = sized_directories_from(iso, nodes, ordered, 0, Seq::empty())->Ok_0;
    let table = table_plan(
        ordered,
        iso.path_table_size,
        ErrorKind::TableSizeZero,
        ErrorKind::TableAllocation,
    )->Ok_0;
    if iso.supplementary_volumes.len() > 0 {
        joliet_plan_stays(iso, at, gap);
        let plan = joliet_plan(iso)->Ok_0;
        let next = (17 + iso.primary_volume_copies + iso.supplementary_volumes.len()) as u32;
        start_stays(iso, at, gap, directories, plan.directories, next);
        metadata_keeps_files(
            iso.metadata_layout,
            nothing_placed(iso, directories, plan.directories, next),
            table.blocks,
            plan.table.blocks,
            0,
        );
        let state = place_joliet_metadata(
            iso,
            directories,
            plan.directories,
            table.blocks,
            plan.table.blocks,
        )->Ok_0;
        contents_are_moved(iso, at, gap, lengths, state);
    } else {
        let next = (17 + iso.primary_volume_copies + (table.blocks + iso.path_table_padding)
            * table_count(iso.path_table_copies)) as u32;
        start_stays(iso, at, gap, directories, Seq::empty(), next);
        let state = place_plain_metadata(iso, directories, table.blocks)->Ok_0;
        contents_are_moved(iso, at, gap, lengths, state);
    }
}

} // verus!
