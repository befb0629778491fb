//! The path tables of an image that was laid out are where its descriptor says, and
//! list its directories.
use vstd::prelude::*;

use crate::error::{ErrorKind, Failure};
use crate::iso9660::description::{IsoModel, ItemModel, MetadataLayoutItem, MetadataPathTable};
use crate::iso9660::layout::{
    joliet_plan, nothing_placed, place_contents, place_joliet_metadata, place_plain_metadata,
    placed_filesystem, sized_directories_from, sized_directory, table_count, table_extents,
    table_plan, table_size_from, Placed, TablePlan,
};
use crate::iso9660::joliet_walk::{found_placement, last_found};
use crate::iso9660::order_laws::is_held;
use crate::iso9660::parse::{found_table_size, primary_placements_from, table_name_length};
use crate::iso9660::path_table::{
    find_directory, find_directory_from, path_record, path_table_from, PlacementModel,
};
use crate::iso9660::placing::{
    flush, flush_from, place_ancestors, place_directory, place_if_free, place_item,
    place_items_from, place_metadata_from, place_metadata_item, place_reference_parents_from,
    place_rest_from, FileLengthModel, GapPlacement, PlacingModel, TreeModel,
};
use crate::iso9660::placing_laws::{
    are_apart, are_sized, descriptors_end, found_directory_is_there, group_keeps_tables, is_marked,
    metadata_item_is_added, nothing_is_apart, parts_are_apart, primary_order, same_directory,
    sized_references_take_nothing, table_blocks, TableBlocks,
};
use crate::iso9660::tree::primary_nodes;
use crate::iso9660::tree_walk_laws::{all_found, directories_follow_order};
use crate::iso9660::validate::places_all_tables;
use crate::iso9660::walk::FoundModel;
use crate::iso9660::walk_laws::is_tree;
use crate::manifest::MetadataVolume;
use crate::text::{name_of, parent_of, root_path, utf8};

verus! {

/// The root directory has its place.
pub open spec fn root_is_placed(state: PlacingModel) -> bool {
    &&& state.primary.placements.len() > 0
    &&& state.primary.placements.len() == state.primary.placed.len()
    &&& state.primary.placed[0]
}

/// Directories that have their places keep them.
pub open spec fn directories_stay(before: TreeModel, after: TreeModel) -> bool {
    before.placements.len() == before.placed.len() ==> {
        &&& after.placements.len() == before.placements.len()
        &&& after.placed.len() == before.placed.len()
        &&& forall|i: int|
            0 <= i < before.placed.len() && before.placed[i] ==> #[trigger] after.placed[i]
        &&& forall|i: int|
            0 <= i < before.placements.len() && before.placed[i]
                ==> #[trigger] after.placements[i] == before.placements[i]
    }
}

/// Files that have their places keep them, and others lie behind what was placed.
pub open spec fn files_follow(before: PlacingModel, after: PlacingModel) -> bool {
    &&& before.next <= after.next
    &&& forall|i: int|
        0 <= i < after.files.len() ==> (i < before.files.len() && before.files[i]
            == #[trigger] after.files[i]) || before.next <= after.files[i].extent
}

/// The path tables stay where they are, and so do the directories that have their
/// places; files are placed behind them.
pub open spec fn are_kept(before: PlacingModel, after: PlacingModel) -> bool {
    &&& before.tables == after.tables
    &&& before.joliet_tables == after.joliet_tables
    &&& directories_stay(before.primary, after.primary)
    &&& directories_stay(before.joliet, after.joliet)
    &&& files_follow(before, after)
}

proof fn stay_on(first: TreeModel, second: TreeModel, third: TreeModel)
    requires
        directories_stay(first, second),
        directories_stay(second, third),
    ensures
        directories_stay(first, third),
{
    if first.placements.len() == first.placed.len() {
        assert(second.placements.len() == second.placed.len());
        assert forall|i: int| 0 <= i < first.placed.len() && first.placed[i] implies
            #[trigger] third.placed[i] by {
            assert(second.placed[i]);
        }
        assert forall|i: int| 0 <= i < first.placements.len() && first.placed[i] implies
            #[trigger] third.placements[i] == first.placements[i] by {
            assert(second.placed[i]);
            assert(second.placements[i] == first.placements[i]);
        }
    }
}

/// What is kept twice is kept.
proof fn kept_on(first: PlacingModel, second: PlacingModel, third: PlacingModel)
    requires
        are_kept(first, second),
        are_kept(second, third),
    ensures
        are_kept(first, third),
{
    assert forall|i: int| 0 <= i < third.files.len() implies (i < first.files.len()
        && first.files[i] == #[trigger] third.files[i]) || first.next <= third.files[i].extent by {
        if i < second.files.len() && second.files[i] == third.files[i] {
            assert(second.files[i] == third.files[i]);
        }
    }
    stay_on(first.primary, second.primary, third.primary);
    stay_on(first.joliet, second.joliet, third.joliet);
}

/// A directory that has no place gets one, and nothing else is moved.
proof fn directory_keeps_others(
    state: PlacingModel,
    volume: MetadataVolume,
    index: int,
    overflow: ErrorKind,
)
    requires
        0 <= index < state.tree(volume).placements.len(),
        !state.tree(volume).placed[index],
    ensures
        place_directory(state, volume, index, overflow) matches Ok(after) ==> are_kept(
            state,
            after,
        ),
{
}

proof fn gaps_keep_tables(state: PlacingModel, index: int)
    ensures
        flush_from(state, index) matches Ok(after) ==> are_kept(state, after),
    decreases state.pending.len() - index,
{
    if 0 <= index < state.pending.len() && flush_from(state, index) is Ok {
        let gap = state.pending[index];
        let next = PlacingModel {
            next: (state.next + gap.sectors) as u32,
            gaps: state.gaps.push(
                GapPlacement {
                    start: state.next,
                    sectors: gap.sectors,
                    kind: gap.kind,
                    subheader: gap.subheader,
                    form2_edc: gap.form2_edc,
                },
            ),
            ..state
        };
        gaps_keep_tables(next, index + 1);
    }
}

proof fn ancestors_keep_tables(iso: IsoModel, state: PlacingModel, volume: MetadataVolume, path: Seq<char>)
    ensures
        place_ancestors(iso, state, volume, path) matches Ok(after) ==> are_kept(
            state,
            after,
        ),
    decreases path.len(),
{
    let parent = parent_of(path);
    if parent.len() < path.len() {
        ancestors_keep_tables(iso, state, volume, parent);
        if let Ok(next) = place_ancestors(iso, state, volume, parent) {
            let tree = next.tree(volume);
            found_directory_is_there(tree.placements, parent, 0);
            let index = find_directory(tree.placements, parent);
            if index < tree.placements.len() && !tree.placed[index] {
                directory_keeps_others(next, volume, index, ErrorKind::PlacementOverflow);
            }
            if let Ok(after) = place_if_free(iso, next, volume, index) {
                if index < tree.placements.len() {
                    kept_on(state, next, after);
                }
            }
        }
    }
}

proof fn item_keeps_tables(
    iso: IsoModel,
    lengths: Seq<FileLengthModel>,
    state: PlacingModel,
    item: ItemModel,
)
    ensures
        place_item(iso, lengths, state, item) matches Ok(after) ==> are_kept(state, after),
{
    match item {
        ItemModel::Directory { volume, path } => {
            ancestors_keep_tables(iso, state, volume, path);
            if let Ok(next) = place_ancestors(iso, state, volume, path) {
                gaps_keep_tables(next, 0);
                if let Ok(last) = flush(next) {
                    kept_on(state, next, last);
                    let tree = last.tree(volume);
                    found_directory_is_there(tree.placements, path, 0);
                    let index = find_directory(tree.placements, path);
                    if index < tree.placements.len() && !tree.placed[index] {
                        directory_keeps_others(last, volume, index, ErrorKind::PlacementOverflow);
                        if let Ok(after) = place_directory(
                            last,
                            volume,
                            index,
                            ErrorKind::PlacementOverflow,
                        ) {
                            kept_on(state, last, after);
                        }
                    }
                }
            }
        },
        ItemModel::Path { path } => {
            ancestors_keep_tables(iso, state, MetadataVolume::Primary, path);
            if let Ok(next) = place_ancestors(iso, state, MetadataVolume::Primary, path) {
                gaps_keep_tables(next, 0);
                if let Ok(last) = flush(next) {
                    kept_on(state, next, last);
                    if let Ok(after) = place_item(iso, lengths, state, item) {
                        assert(are_kept(last, after));
                        kept_on(state, last, after);
                    }
                }
            }
        },
        _ => {
            gaps_keep_tables(state, 0);
        },
    }
}

proof fn items_keep_tables(
    iso: IsoModel,
    lengths: Seq<FileLengthModel>,
    state: PlacingModel,
    index: int,
)
    ensures
        place_items_from(iso, lengths, state, index) matches Ok(after) ==> are_kept(
            state,
            after,
        ),
    decreases iso.files.len() - index,
{
    if 0 <= index < iso.files.len() {
        item_keeps_tables(iso, lengths, state, iso.files[index]);
        if let Ok(next) = place_item(iso, lengths, state, iso.files[index]) {
            items_keep_tables(iso, lengths, next, index + 1);
            if let Ok(after) = place_items_from(iso, lengths, next, index + 1) {
                kept_on(state, next, after);
            }
        }
    }
}

proof fn reference_parents_keep_tables(iso: IsoModel, state: PlacingModel, index: int)
    ensures
        place_reference_parents_from(iso, state, index) matches Ok(after) ==> are_kept(
            state,
            after,
        ),
    decreases state.primary.placements.len() - index,
{
    if 0 <= index < state.primary.placements.len() {
        if !state.primary.placed[index] {
            directory_keeps_others(
                state,
                MetadataVolume::Primary,
                index,
                ErrorKind::PlacementOverflow,
            );
        }
        if let Ok(next) = place_if_free(iso, state, MetadataVolume::Primary, index) {
            if next.primary.placements.len() == state.primary.placements.len() {
                reference_parents_keep_tables(iso, next, index + 1);
                if let Ok(after) = place_reference_parents_from(iso, next, index + 1) {
                    kept_on(state, next, after);
                }
            }
        }
        reference_parents_keep_tables(iso, state, index + 1);
    }
}

proof fn rest_keeps_tables(state: PlacingModel, index: int)
    ensures
        place_rest_from(state, index) matches Ok(after) ==> are_kept(state, after),
    decreases state.primary.placements.len() - index,
{
    if 0 <= index < state.primary.placements.len() {
        if !state.primary.placed[index] {
            directory_keeps_others(
                state,
                MetadataVolume::Primary,
                index,
                ErrorKind::PlacementOverflow,
            );
            if let Ok(next) = place_directory(
                state,
                MetadataVolume::Primary,
                index,
                ErrorKind::PlacementOverflow,
            ) {
                if next.primary.placements.len() == state.primary.placements.len() {
                    rest_keeps_tables(next, index + 1);
                    if let Ok(after) = place_rest_from(next, index + 1) {
                        kept_on(state, next, after);
                    }
                }
            }
        }
        rest_keeps_tables(state, index + 1);
    }
}

/// What is placed in the file area leaves the metadata where it is.
pub proof fn contents_keep_tables(iso: IsoModel, lengths: Seq<FileLengthModel>, state: PlacingModel)
    ensures
        place_contents(iso, lengths, state) matches Ok(after) ==> are_kept(state, after),
{
    reference_parents_keep_tables(iso, state, 1);
    if let Ok(first) = place_reference_parents_from(iso, state, 1) {
        items_keep_tables(iso, lengths, first, 0);
        if let Ok(second) = place_items_from(iso, lengths, first, 0) {
            kept_on(state, first, second);
            gaps_keep_tables(second, 0);
            rest_keeps_tables(second, 0);
            if let Ok(last) = flush(second) {
                kept_on(state, second, last);
            }
            if let Ok(third) = place_rest_from(second, 0) {
                kept_on(state, second, third);
                gaps_keep_tables(third, 0);
                if let Ok(last) = flush(third) {
                    kept_on(state, third, last);
                }
            }
        }
    }
}

/// The path tables of an image without a Joliet volume lie one stride apart behind
/// its descriptors.
pub proof fn tables_are_placed(iso: IsoModel, lengths: Seq<FileLengthModel>, placed: Placed)
    requires
        placed_filesystem(iso, lengths) == Ok::<Placed, Failure>(placed),
        iso.supplementary_volumes.len() == 0,
    ensures
        ({
            let start = 17 + iso.primary_volume_copies;
            let stride = placed.table.blocks + iso.path_table_padding;
            &&& start + stride * table_count(iso.path_table_copies) <= u32::MAX
            &&& placed.state.tables == table_extents(
                start,
                stride,
                iso.path_table_copies,
                iso.path_table_order,
            )
            &&& placed.state.primary.placements[0].extent == start + stride * table_count(
                iso.path_table_copies,
            )
        }),
        placed.joliet is None,
        table_plan(
            primary_order(iso),
            iso.path_table_size,
            ErrorKind::TableSizeZero,
            ErrorKind::TableAllocation,
        ) == Ok::<TablePlan, Failure>(placed.table),
{
    let directories = sized_directories_from(
        iso,
        primary_nodes(iso),
        primary_order(iso),
        0,
        Seq::empty(),
    )->Ok_0;
    let state = place_plain_metadata(iso, directories, placed.table.blocks)->Ok_0;
    parts_are_apart(iso, lengths, placed);
    contents_keep_tables(iso, lengths, state);
    sized_references_take_nothing(iso, primary_nodes(iso), primary_order(iso), 0, Seq::empty());
    assert(root_is_placed(state));
}

/// Where a path table was put; nowhere, where that is zero.
pub open spec fn slot_of(state: PlacingModel, table: MetadataPathTable) -> u32 {
    match table {
        MetadataPathTable::PrimaryLittle => state.tables[0],
        MetadataPathTable::PrimaryBig => state.tables[2],
        MetadataPathTable::JolietLittle => state.joliet_tables[0],
        MetadataPathTable::JolietBig => state.joliet_tables[2],
    }
}

/// A path table among the items of the metadata area that are still to be placed gets
/// a place, one that has its place keeps one, and no copies are made.
proof fn metadata_has_table(
    items: Seq<MetadataLayoutItem>,
    state: PlacingModel,
    index: int,
    tables: TableBlocks,
    base: int,
    table: MetadataPathTable,
)
    requires
        are_apart(state, tables, base),
        is_marked(state),
        state.tables.len() == 4,
        state.joliet_tables.len() == 4,
        0 < base,
        0 <= index <= items.len(),
    ensures
        place_metadata_from(items, state, tables.primary, tables.joliet, index) matches Ok(after)
            ==> {
            &&& slot_of(state, table) != 0 || items.skip(index).contains(
                MetadataLayoutItem::PathTable(table),
            ) ==> slot_of(after, table) != 0
            &&& after.tables.len() == 4 && after.joliet_tables.len() == 4
            &&& after.tables[1] == state.tables[1] && after.tables[3] == state.tables[3]
            &&& after.joliet_tables[1] == state.joliet_tables[1]
            &&& after.joliet_tables[3] == state.joliet_tables[3]
        },
    decreases items.len() - index,
{
    let wanted = MetadataLayoutItem::PathTable(table);
    if index < items.len() {
        metadata_item_is_added(state, items[index], tables, base);
        if let Ok(next) = place_metadata_item(
            state,
            items[index],
            tables.primary,
            tables.joliet,
        ) {
            if let MetadataLayoutItem::Directories(volume) = items[index] {
                group_keeps_tables(state, volume, 0);
            }
            assert(state.next > 0);
            assert(slot_of(state, table) != 0 || items[index] == wanted ==> slot_of(next, table)
                != 0);
            metadata_has_table(items, next, index + 1, tables, base, table);
            if items.skip(index).contains(wanted) && items[index] != wanted {
                let at = choose|at: int|
                    0 <= at < items.skip(index).len() && items.skip(index)[at] == wanted;
                assert(items.skip(index + 1)[at - 1] == wanted);
            }
        }
    }
}

/// Both trees of an image with a Joliet volume have two path tables each.
pub proof fn joliet_tables_are_placed(iso: IsoModel, lengths: Seq<FileLengthModel>, placed: Placed)
    requires
        placed_filesystem(iso, lengths) == Ok::<Placed, Failure>(placed),
        iso.supplementary_volumes.len() == 1,
        places_all_tables(iso.metadata_layout),
    ensures
        ({
            let primary = placed.state.tables;
            let joliet = placed.state.joliet_tables;
            &&& primary.len() == 4 && joliet.len() == 4
            &&& primary[0] != 0 && primary[1] == 0 && primary[2] != 0 && primary[3] == 0
            &&& joliet[0] != 0 && joliet[1] == 0 && joliet[2] != 0 && joliet[3] == 0
        }),
        placed.joliet is Some,
        table_plan(
            primary_order(iso),
            iso.path_table_size,
            ErrorKind::TableSizeZero,
            ErrorKind::TableAllocation,
        ) == Ok::<TablePlan, Failure>(placed.table),
{
    let plan = joliet_plan(iso)->Ok_0;
    let items = iso.metadata_layout;
    let tables = table_blocks(placed);
    let base = descriptors_end(iso);
    let directories = sized_directories_from(
        iso,
        primary_nodes(iso),
        primary_order(iso),
        0,
        Seq::empty(),
    )->Ok_0;
    let first = nothing_placed(iso, directories, plan.directories, base as u32);
    sized_references_take_nothing(iso, primary_nodes(iso), primary_order(iso), 0, Seq::empty());
    nothing_is_apart(iso, directories, plan.directories, tables, base);
    assert(items.skip(0) =~= items);
    metadata_has_table(items, first, 0, tables, base, MetadataPathTable::PrimaryLittle);
    metadata_has_table(items, first, 0, tables, base, MetadataPathTable::PrimaryBig);
    metadata_has_table(items, first, 0, tables, base, MetadataPathTable::JolietLittle);
    metadata_has_table(items, first, 0, tables, base, MetadataPathTable::JolietBig);
    let state = place_joliet_metadata(
        iso,
        directories,
        plan.directories,
        tables.primary,
        tables.joliet,
    )->Ok_0;
    contents_keep_tables(iso, lengths, state);
}

/// The size of a path table is reckoned from the names in it.
pub proof fn table_has_size(directories: Seq<PlacementModel>, index: int, written: Seq<u8>, big: bool)
    requires
        0 <= index <= directories.len(),
    ensures
        path_table_from(directories, index, written, big) matches Ok(table) ==> table.len()
            == written.len() + table_size_from(directories, index),
    decreases directories.len() - index,
{
    if index < directories.len() {
        if let Ok(record) = path_record(directories[index], big) {
            table_has_size(directories, index + 1, written + record, big);
        }
    }
}

/// Path tables are the same where names, parents and extents are.
pub open spec fn are_listed_alike(left: Seq<PlacementModel>, right: Seq<PlacementModel>) -> bool {
    &&& left.len() == right.len()
    &&& forall|i: int|
        0 <= i < left.len() ==> (#[trigger] left[i]).name == right[i].name && left[i].path
            == right[i].path && left[i].parent == right[i].parent && left[i].extent
            == right[i].extent
}

pub proof fn alike_are_written_alike(
    left: Seq<PlacementModel>,
    right: Seq<PlacementModel>,
    index: int,
    written: Seq<u8>,
    big: bool,
)
    requires
        are_listed_alike(left, right),
        0 <= index <= left.len(),
    ensures
        path_table_from(left, index, written, big) == path_table_from(right, index, written, big),
    decreases left.len() - index,
{
    if index < left.len() {
        assert(left[index].name == right[index].name);
        assert(path_record(left[index], big) == path_record(right[index], big));
        if let Ok(record) = path_record(left[index], big) {
            alike_are_written_alike(left, right, index + 1, written + record, big);
        }
    }
}

pub proof fn alike_are_found_alike(
    left: Seq<PlacementModel>,
    right: Seq<PlacementModel>,
    path: Seq<char>,
    index: int,
)
    requires
        are_listed_alike(left, right),
        0 <= index <= left.len(),
    ensures
        find_directory_from(left, path, index) == find_directory_from(right, path, index),
    decreases left.len() - index,
{
    if index < left.len() {
        assert(left[index].path == right[index].path);
        alike_are_found_alike(left, right, path, index + 1);
    }
}

/// Every directory of a path table that can be written has a parent that can be
/// numbered.
pub proof fn parents_are_numbered(
    directories: Seq<PlacementModel>,
    index: int,
    written: Seq<u8>,
    big: bool,
    at: int,
)
    requires
        path_table_from(directories, index, written, big) is Ok,
        0 <= index <= at < directories.len(),
    ensures
        directories[at].parent + 1 <= 0xffff,
    decreases at - index,
{
    let record = path_record(directories[index], big)->Ok_0;
    if index < at {
        parents_are_numbered(directories, index + 1, written + record, big, at);
    }
}

/// The last of the directories that were found with a path is the only one.
pub proof fn only_one_is_last(found: Seq<FoundModel>, count: int, at: int)
    requires
        0 <= at < count <= found.len(),
        forall|i: int, j: int|
            0 <= i < j < found.len() ==> (#[trigger] found[i]).path != (#[trigger] found[j]).path,
    ensures
        last_found(found, found[at].path, count) == at,
    decreases count,
{
    if at < count - 1 {
        assert(found[count - 1].path != found[at].path);
        only_one_is_last(found, count - 1, at);
    }
}

/// The name of a directory in the path table is that of its path.
pub proof fn name_is_listed(iso: IsoModel, directories: Seq<PlacementModel>, index: int)
    requires
        is_tree(iso),
        are_sized(iso, directories),
        0 <= index < directories.len(),
    ensures
        directories[index].name == (if directories[index].path == root_path() {
            seq![0u8]
        } else {
            utf8(name_of(directories[index].path))
        }),
        directories[index].name.len() == table_name_length(directories[index].path),
        (directories[index].path == root_path()) == (index == 0),
{
    directories_follow_order(iso, directories);
    if index > 0 {
        assert(is_held(primary_nodes(iso), directories, index, directories.len() as int));
    }
}

/// The size of the path table is reckoned from what was found as from the
/// description.
pub proof fn size_is_found(iso: IsoModel, directories: Seq<PlacementModel>, index: int)
    requires
        is_tree(iso),
        are_sized(iso, directories),
        0 <= index <= directories.len(),
    ensures
        ({
            let found = all_found(directories, directories.len() as int);
            &&& found_table_size(found, index) == table_size_from(primary_order(iso), index)
            &&& found_table_size(found, index) == table_size_from(directories, index)
        }),
    decreases directories.len() - index,
{
    if index < directories.len() {
        name_is_listed(iso, directories, index);
        let ordered = primary_order(iso);
        let sized = sized_directory(iso, primary_nodes(iso), ordered[index])->Ok_0;
        assert(same_directory(directories[index], sized));
        size_is_found(iso, directories, index + 1);
    }
}

/// The places of the directories that were found are those that they were given.
pub proof fn places_are_found(
    iso: IsoModel,
    directories: Seq<PlacementModel>,
    index: int,
    placed: Seq<PlacementModel>,
)
    requires
        is_tree(iso),
        are_sized(iso, directories),
        0 <= index <= directories.len(),
        are_listed_alike(placed, directories.take(index)),
    ensures
        ({
            let found = all_found(directories, directories.len() as int);
            let places = primary_placements_from(found, index, placed);
            places is Ok && are_listed_alike(places->Ok_0, directories)
        }),
    decreases directories.len() - index,
{
    let found = all_found(directories, directories.len() as int);
    if index < directories.len() {
        directories_follow_order(iso, directories);
        name_is_listed(iso, directories, index);
        let directory = directories[index];
        assert forall|i: int, j: int| 0 <= i < j < found.len() implies (#[trigger] found[i]).path
            != (#[trigger] found[j]).path by {
            assert(directories[i].path != directories[j].path);
        }
        if index > 0 {
            assert(is_held(primary_nodes(iso), directories, index, directories.len() as int));
            assert(found[directory.parent].path == parent_of(directory.path));
            only_one_is_last(found, found.len() as int, directory.parent);
        }
        let place = found_placement(
            found,
            index,
            utf8(name_of(directory.path)),
            ErrorKind::TableParent,
        )->Ok_0;
        let more = placed.push(place);
        assert forall|i: int| 0 <= i < more.len() implies (#[trigger] more[i]).name
            == directories.take(index + 1)[i].name && more[i].path == directories.take(
            index + 1,
        )[i].path && more[i].parent == directories.take(index + 1)[i].parent && more[i].extent
            == directories.take(index + 1)[i].extent by {
            if i < index {
                assert(placed[i].name == directories.take(index)[i].name);
            }
        }
        places_are_found(iso, directories, index + 1, more);
    } else {
        assert(directories.take(index) =~= directories);
    }
}

} // verus!
