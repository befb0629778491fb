//! No two parts of an image share a block.
use vstd::prelude::*;

use crate::error::{ErrorKind, Failure};
use crate::iso9660::description::{
    IsoModel, ItemModel, MetadataLayoutItem, MetadataPathTable, PathTableCopies,
};
use crate::iso9660::layout::{
    all_placed, joliet_plan, nothing_placed, place_contents, place_joliet_metadata,
    place_plain_metadata, placed_filesystem, sized_directories_from, sized_directory,
    sized_joliet_directory, sized_joliet_from, table_count, table_extents, table_gaps, JolietPlan,
    Placed,
};
use crate::iso9660::path_table::{find_directory, find_directory_from, PlacementModel};
use crate::iso9660::placing::{
    flush, flush_from, place_ancestors, place_directory, place_group_from, place_if_free,
    place_item, place_item_extent, place_item_file, place_items_from, place_metadata_from,
    place_metadata_item, place_reference_parents_from, place_rest_from, place_table,
    FileLengthModel, GapPlacement, PlacingModel, TreeModel,
};
use crate::iso9660::tree::{
    count_directories, directories_of, directory_order_from, is_subdirectory, primary_nodes,
    subdirectories_from, unplaced, NodeModel,
};
use crate::manifest::{MetadataVolume, PathTableOrder};
use crate::text::{parent_of, root_path};

verus! {

/// Something that takes blocks of an image.
pub enum Part {
    Table { volume: MetadataVolume, index: int },
    Directory { volume: MetadataVolume, index: int },
    File { index: int },
    Extent { index: int },
    Gap { index: int },
}

/// The sizes of the path tables of both trees, in blocks.
pub struct TableBlocks {
    pub primary: u32,
    pub joliet: u32,
}

/// The path tables of a tree.
pub open spec fn tables_of(state: PlacingModel, volume: MetadataVolume) -> Seq<u32> {
    if volume == MetadataVolume::Primary {
        state.tables
    } else {
        state.joliet_tables
    }
}

/// A part has a place.
pub open spec fn has_place(state: PlacingModel, part: Part) -> bool {
    match part {
        Part::Table { volume, index } => 0 <= index < tables_of(state, volume).len() && tables_of(
            state,
            volume,
        )[index] != 0,
        Part::Directory { volume, index } => 0 <= index < state.tree(volume).placements.len()
            && state.tree(volume).placed[index],
        Part::File { index } => 0 <= index < state.files.len(),
        Part::Extent { index } => 0 <= index < state.xa_extents.len(),
        Part::Gap { index } => 0 <= index < state.gaps.len(),
    }
}

/// The first block of a part.
pub open spec fn start_of(state: PlacingModel, part: Part) -> int {
    match part {
        Part::Table { volume, index } => tables_of(state, volume)[index] as int,
        Part::Directory { volume, index } => state.tree(volume).placements[index].extent as int,
        Part::File { index } => state.files[index].extent as int,
        Part::Extent { index } => state.xa_extents[index].start as int,
        Part::Gap { index } => state.gaps[index].start as int,
    }
}

/// The number of blocks of a part.
pub open spec fn size_of_part(state: PlacingModel, tables: TableBlocks, part: Part) -> int {
    match part {
        Part::Table { volume, index } => if volume == MetadataVolume::Primary {
            tables.primary as int
        } else {
            tables.joliet as int
        },
        Part::Directory { volume, index } => state.tree(volume).placements[index].blocks as int,
        Part::File { index } => state.files[index].blocks as int,
        Part::Extent { index } => state.xa_extents[index].sectors as int,
        Part::Gap { index } => state.gaps[index].sectors as int,
    }
}

/// A part takes blocks.
pub open spec fn takes_blocks(state: PlacingModel, tables: TableBlocks, part: Part) -> bool {
    has_place(state, part) && size_of_part(state, tables, part) > 0
}

/// The first block past a part.
pub open spec fn end_of(state: PlacingModel, tables: TableBlocks, part: Part) -> int {
    start_of(state, part) + size_of_part(state, tables, part)
}

/// All parts lie from `base` on and before the next free block, and no two of them
/// share a block.
pub open spec fn are_apart(state: PlacingModel, tables: TableBlocks, base: int) -> bool {
    &&& base <= state.next
    &&& forall|part: Part|
        #[trigger] takes_blocks(state, tables, part) ==> base <= start_of(state, part) && end_of(
            state,
            tables,
            part,
        ) <= state.next
    &&& forall|left: Part, right: Part|
        left != right && #[trigger] takes_blocks(state, tables, left) && #[trigger] takes_blocks(
            state,
            tables,
            right,
        ) ==> end_of(state, tables, left) <= start_of(state, right) || end_of(state, tables, right)
            <= start_of(state, left)
}

/// A directory is the same but for where it lies.
pub open spec fn same_directory(left: PlacementModel, right: PlacementModel) -> bool {
    left == (PlacementModel { extent: left.extent, ..right })
}

/// The directories of a tree are the same but for where they lie.
pub open spec fn same_directories(before: TreeModel, after: TreeModel) -> bool {
    &&& before.placements.len() == after.placements.len()
    &&& before.placed.len() == after.placed.len()
    &&& forall|i: int|
        0 <= i < before.placements.len() ==> same_directory(
            #[trigger] after.placements[i],
            before.placements[i],
        )
}

/// Placing went on from one state to another: nothing but places changed.
pub open spec fn went_on(before: PlacingModel, after: PlacingModel) -> bool {
    &&& before.next <= after.next
    &&& same_directories(before.primary, after.primary)
    &&& same_directories(before.joliet, after.joliet)
    &&& before.primary.placements.len() == before.primary.placed.len()
    &&& before.joliet.placements.len() == before.joliet.placed.len()
    &&& before.tables.len() == after.tables.len()
    &&& before.joliet_tables.len() == after.joliet_tables.len()
}

/// Every directory has a mark that tells whether it has a place.
pub open spec fn is_marked(state: PlacingModel) -> bool {
    &&& state.primary.placements.len() == state.primary.placed.len()
    &&& state.joliet.placements.len() == state.joliet.placed.len()
}

/// One more part at the next free block keeps the parts apart.
proof fn part_is_added(
    before: PlacingModel,
    after: PlacingModel,
    part: Part,
    tables: TableBlocks,
    base: int,
)
    requires
        are_apart(before, tables, base),
        before.next <= after.next,
        forall|other: Part|
            other != part && #[trigger] takes_blocks(after, tables, other) ==> takes_blocks(
                before,
                tables,
                other,
            ) && start_of(after, other) == start_of(before, other) && end_of(after, tables, other)
                == end_of(before, tables, other),
        start_of(after, part) == before.next,
        end_of(after, tables, part) == after.next,
    ensures
        are_apart(after, tables, base),
{
    assert forall|left: Part, right: Part|
        left != right && #[trigger] takes_blocks(after, tables, left) && #[trigger] takes_blocks(
            after,
            tables,
            right,
        ) implies end_of(after, tables, left) <= start_of(after, right) || end_of(
        after,
        tables,
        right,
    ) <= start_of(after, left) by {
        if left == part {
            assert(takes_blocks(before, tables, right));
        } else if right == part {
            assert(takes_blocks(before, tables, left));
        } else {
            assert(takes_blocks(before, tables, left) && takes_blocks(before, tables, right));
        }
    }
}

proof fn directory_is_added(
    state: PlacingModel,
    volume: MetadataVolume,
    index: int,
    overflow: ErrorKind,
    tables: TableBlocks,
    base: int,
)
    requires
        are_apart(state, tables, base),
        is_marked(state),
        0 <= index < state.tree(volume).placements.len(),
    ensures
        place_directory(state, volume, index, overflow) matches Ok(after) ==> are_apart(
            after,
            tables,
            base,
        ) && went_on(state, after) && is_marked(after),
{
    if let Ok(after) = place_directory(state, volume, index, overflow) {
        part_is_added(state, after, Part::Directory { volume, index }, tables, base);
    }
}

proof fn gaps_are_added(state: PlacingModel, index: int, tables: TableBlocks, base: int)
    requires
        are_apart(state, tables, base),
        is_marked(state),
        0 <= index,
    ensures
        flush_from(state, index) matches Ok(after) ==> are_apart(after, tables, base) && went_on(
            state,
            after,
        ) && is_marked(after),
    decreases state.pending.len() - index,
{
    if index < state.pending.len() {
        let gap = state.pending[index];
        if state.next + gap.sectors <= u32::MAX {
            let after = PlacingModel {
                next: (state.next + gap.sectors) as u32,
                gaps: state.gaps.push(
                    GapPlacement {
                        start: state.next,
                        sectors: gap.sectors,
                        kind: gap.kind,
                        subheader: gap.subheader,
                        form2_edc: gap.form2_edc,
                    },
                ),
                ..state
            };
            part_is_added(
                state,
                after,
                Part::Gap { index: state.gaps.len() as int },
                tables,
                base,
            );
            gaps_are_added(after, index + 1, tables, base);
        }
    } else {
        let after = PlacingModel { pending: Seq::empty(), ..state };
        nothing_is_added(state, after, tables, base);
    }
}

/// What does not concern the places keeps the parts apart.
proof fn nothing_is_added(before: PlacingModel, after: PlacingModel, tables: TableBlocks, base: int)
    requires
        are_apart(before, tables, base),
        is_marked(before),
        after == (PlacingModel { pending: after.pending, trailing: after.trailing, ..before }),
    ensures
        are_apart(after, tables, base),
        went_on(before, after),
        is_marked(after),
{
    assert forall|part: Part| takes_blocks(after, tables, part) == takes_blocks(
        before,
        tables,
        part,
    ) by {}
    assert forall|left: Part, right: Part|
        left != right && #[trigger] takes_blocks(after, tables, left) && #[trigger] takes_blocks(
            after,
            tables,
            right,
        ) implies end_of(after, tables, left) <= start_of(after, right) || end_of(
        after,
        tables,
        right,
    ) <= start_of(after, left) by {
        assert(takes_blocks(before, tables, left) && takes_blocks(before, tables, right));
    }
}

proof fn free_directory_is_added(
    iso: IsoModel,
    state: PlacingModel,
    volume: MetadataVolume,
    index: int,
    tables: TableBlocks,
    base: int,
)
    requires
        are_apart(state, tables, base),
        is_marked(state),
        0 <= index < state.tree(volume).placements.len(),
    ensures
        place_if_free(iso, state, volume, index) matches Ok(after) ==> are_apart(
            after,
            tables,
            base,
        ) && went_on(state, after) && is_marked(after),
{
    directory_is_added(state, volume, index, ErrorKind::PlacementOverflow, tables, base);
}

/// A directory that is found is one of those that are searched.
pub proof fn found_directory_is_there(directories: Seq<PlacementModel>, path: Seq<char>, index: int)
    requires
        0 <= index <= directories.len(),
    ensures
        index <= find_directory_from(directories, path, index) <= directories.len(),
        find_directory_from(directories, path, index) < directories.len() ==> directories[
            find_directory_from(directories, path, index)
        ].path == path,
    decreases directories.len() - index,
{
    if index < directories.len() && directories[index].path != path {
        found_directory_is_there(directories, path, index + 1);
    }
}

proof fn ancestors_are_added(
    iso: IsoModel,
    state: PlacingModel,
    volume: MetadataVolume,
    path: Seq<char>,
    tables: TableBlocks,
    base: int,
)
    requires
        are_apart(state, tables, base),
        is_marked(state),
    ensures
        place_ancestors(iso, state, volume, path) matches Ok(after) ==> are_apart(
            after,
            tables,
            base,
        ) && went_on(state, after) && is_marked(after),
    decreases path.len(),
{
    let parent = parent_of(path);
    if parent != root_path() && parent.len() < path.len() {
        ancestors_are_added(iso, state, volume, parent, tables, base);
        if let Ok(middle) = place_ancestors(iso, state, volume, parent) {
            let index = find_directory(middle.tree(volume).placements, parent);
            found_directory_is_there(middle.tree(volume).placements, parent, 0);
            if index < middle.tree(volume).placements.len() {
                free_directory_is_added(iso, middle, volume, index, tables, base);
            }
        }
    }
}

proof fn item_is_added(
    iso: IsoModel,
    lengths: Seq<FileLengthModel>,
    state: PlacingModel,
    item: ItemModel,
    tables: TableBlocks,
    base: int,
)
    requires
        are_apart(state, tables, base),
        is_marked(state),
    ensures
        place_item(iso, lengths, state, item) matches Ok(after) ==> are_apart(after, tables, base)
            && went_on(state, after) && is_marked(after),
{
    match item {
        ItemModel::Directory { volume, path } => {
            ancestors_are_added(iso, state, volume, path, tables, base);
            if let Ok(middle) = place_ancestors(iso, state, volume, path) {
                gaps_are_added(middle, 0, tables, base);
                if let Ok(last) = flush(middle) {
                    let placements = last.tree(volume).placements;
                    let index = find_directory(placements, path);
                    found_directory_is_there(placements, path, 0);
                    if index < placements.len() {
                        directory_is_added(
                            last,
                            volume,
                            index,
                            ErrorKind::PlacementOverflow,
                            tables,
                            base,
                        );
                    }
                }
            }
        },
        ItemModel::XaExtent { assets } => {
            gaps_are_added(state, 0, tables, base);
            if let Ok(middle) = flush(state) {
                if let Ok(after) = place_item_extent(lengths, state, assets.index) {
                    part_is_added(
                        middle,
                        after,
                        Part::Extent { index: middle.xa_extents.len() as int },
                        tables,
                        base,
                    );
                }
            }
        },
        ItemModel::Path { path } => {
            ancestors_are_added(iso, state, MetadataVolume::Primary, path, tables, base);
            if let Ok(middle) = place_ancestors(iso, state, MetadataVolume::Primary, path) {
                gaps_are_added(middle, 0, tables, base);
                if let Ok(last) = flush(middle) {
                    if let Ok(after) = place_item_file(iso, lengths, state, path) {
                        part_is_added(
                            last,
                            after,
                            Part::File { index: last.files.len() as int },
                            tables,
                            base,
                        );
                    }
                }
            }
        },
        ItemModel::Gap { gap } => {
            if let Ok(after) = place_item(iso, lengths, state, item) {
                nothing_is_added(state, after, tables, base);
            }
        },
    }
}

proof fn items_are_added(
    iso: IsoModel,
    lengths: Seq<FileLengthModel>,
    state: PlacingModel,
    index: int,
    tables: TableBlocks,
    base: int,
)
    requires
        are_apart(state, tables, base),
        is_marked(state),
        0 <= index,
    ensures
        place_items_from(iso, lengths, state, index) matches Ok(after) ==> are_apart(
            after,
            tables,
            base,
        ) && went_on(state, after) && is_marked(after),
    decreases iso.files.len() - index,
{
    if index < iso.files.len() {
        item_is_added(iso, lengths, state, iso.files[index], tables, base);
        if let Ok(after) = place_item(iso, lengths, state, iso.files[index]) {
            items_are_added(iso, lengths, after, index + 1, tables, base);
        }
    }
}

proof fn reference_parents_are_added(
    iso: IsoModel,
    state: PlacingModel,
    index: int,
    tables: TableBlocks,
    base: int,
)
    requires
        are_apart(state, tables, base),
        is_marked(state),
        0 <= index,
    ensures
        place_reference_parents_from(iso, state, index) matches Ok(after) ==> are_apart(
            after,
            tables,
            base,
        ) && went_on(state, after) && is_marked(after),
    decreases state.primary.placements.len() - index,
{
    if index < state.primary.placements.len() {
        free_directory_is_added(iso, state, MetadataVolume::Primary, index, tables, base);
        reference_parents_are_added(iso, state, index + 1, tables, base);
        if let Ok(after) = place_if_free(iso, state, MetadataVolume::Primary, index) {
            reference_parents_are_added(iso, after, index + 1, tables, base);
        }
    }
}

proof fn rest_is_added(state: PlacingModel, index: int, tables: TableBlocks, base: int)
    requires
        are_apart(state, tables, base),
        is_marked(state),
        0 <= index,
        forall|i: int| 0 <= i < index && i < state.primary.placed.len() ==> state.primary.placed[i],
    ensures
        place_rest_from(state, index) matches Ok(after) ==> are_apart(after, tables, base)
            && went_on(state, after) && is_marked(after) && forall|i: int|
            0 <= i < after.primary.placed.len() ==> after.primary.placed[i],
    decreases state.primary.placements.len() - index,
{
    if index < state.primary.placements.len() {
        directory_is_added(
            state,
            MetadataVolume::Primary,
            index,
            ErrorKind::PlacementOverflow,
            tables,
            base,
        );
        if state.primary.placed[index] {
            rest_is_added(state, index + 1, tables, base);
        } else if let Ok(after) = place_directory(
            state,
            MetadataVolume::Primary,
            index,
            ErrorKind::PlacementOverflow,
        ) {
            rest_is_added(after, index + 1, tables, base);
        }
    }
}

proof fn group_is_added(state: PlacingModel, volume: MetadataVolume, index: int, tables: TableBlocks, base: int)
    requires
        are_apart(state, tables, base),
        is_marked(state),
        0 <= index,
    ensures
        place_group_from(state, volume, index) matches Ok(after) ==> are_apart(after, tables, base)
            && went_on(state, after) && is_marked(after),
    decreases state.tree(volume).placements.len() - index,
{
    if index < state.tree(volume).placements.len() {
        directory_is_added(
            state,
            volume,
            index,
            ErrorKind::MetadataDirectoryOverflow,
            tables,
            base,
        );
        group_is_added(state, volume, index + 1, tables, base);
        if let Ok(after) = place_directory(
            state,
            volume,
            index,
            ErrorKind::MetadataDirectoryOverflow,
        ) {
            group_is_added(after, volume, index + 1, tables, base);
        }
    }
}

/// One more item of the metadata area keeps the parts apart.
pub proof fn metadata_item_is_added(
    state: PlacingModel,
    item: MetadataLayoutItem,
    tables: TableBlocks,
    base: int,
)
    requires
        are_apart(state, tables, base),
        is_marked(state),
        state.tables.len() == 4,
        state.joliet_tables.len() == 4,
    ensures
        place_metadata_item(state, item, tables.primary, tables.joliet) matches Ok(after)
            ==> are_apart(after, tables, base) && went_on(state, after) && is_marked(after)
            && after.tables.len() == 4 && after.joliet_tables.len() == 4,
{
    match item {
        MetadataLayoutItem::PathTable(table) => {
            let volume = if table == MetadataPathTable::PrimaryLittle || table
                == MetadataPathTable::PrimaryBig {
                MetadataVolume::Primary
            } else {
                MetadataVolume::Joliet
            };
            let index = if table == MetadataPathTable::PrimaryLittle || table
                == MetadataPathTable::JolietLittle {
                0int
            } else {
                2
            };
            if let Ok(after) = place_table(state, table, tables.primary, tables.joliet) {
                part_is_added(state, after, Part::Table { volume, index }, tables, base);
            }
        },
        MetadataLayoutItem::Directories(volume) => {
            group_is_added(state, volume, 0, tables, base);
            group_keeps_tables(state, volume, 0);
        },
        MetadataLayoutItem::Gap { gap, kind } => {
            if let Ok(after) = place_metadata_item(state, item, tables.primary, tables.joliet) {
                part_is_added(
                    state,
                    after,
                    Part::Gap { index: state.gaps.len() as int },
                    tables,
                    base,
                );
            }
        },
    }
}

/// Placing a group of directories leaves the path tables where they are.
pub proof fn group_keeps_tables(state: PlacingModel, volume: MetadataVolume, index: int)
    requires
        0 <= index,
    ensures
        place_group_from(state, volume, index) matches Ok(after) ==> after.tables == state.tables
            && after.joliet_tables == state.joliet_tables,
    decreases state.tree(volume).placements.len() - index,
{
    if index < state.tree(volume).placements.len() {
        group_keeps_tables(state, volume, index + 1);
        if let Ok(after) = place_directory(
            state,
            volume,
            index,
            ErrorKind::MetadataDirectoryOverflow,
        ) {
            group_keeps_tables(after, volume, index + 1);
        }
    }
}

/// Placing the metadata area keeps the parts apart.
pub proof fn metadata_is_added(
    items: Seq<MetadataLayoutItem>,
    state: PlacingModel,
    index: int,
    tables: TableBlocks,
    base: int,
)
    requires
        are_apart(state, tables, base),
        is_marked(state),
        state.tables.len() == 4,
        state.joliet_tables.len() == 4,
        0 <= index,
    ensures
        place_metadata_from(items, state, tables.primary, tables.joliet, index) matches Ok(after)
            ==> are_apart(after, tables, base) && went_on(state, after) && is_marked(after),
    decreases items.len() - index,
{
    if index < items.len() {
        metadata_item_is_added(state, items[index], tables, base);
        if let Ok(after) = place_metadata_item(
            state,
            items[index],
            tables.primary,
            tables.joliet,
        ) {
            metadata_is_added(items, after, index + 1, tables, base);
        }
    }
}

proof fn contents_are_added(
    iso: IsoModel,
    lengths: Seq<FileLengthModel>,
    state: PlacingModel,
    tables: TableBlocks,
    base: int,
)
    requires
        are_apart(state, tables, base),
        is_marked(state),
    ensures
        place_contents(iso, lengths, state) matches Ok(after) ==> {
            &&& are_apart(after, tables, base)
            &&& went_on(state, after)
            &&& is_marked(after)
            &&& all_placed(after.primary.placed)
            &&& iso.supplementary_volumes.len() > 0 ==> all_placed(after.joliet.placed)
        },
{
    reference_parents_are_added(iso, state, 1, tables, base);
    if let Ok(first) = place_reference_parents_from(iso, state, 1) {
        items_are_added(iso, lengths, first, 0, tables, base);
        if let Ok(second) = place_items_from(iso, lengths, first, 0) {
            gaps_are_added(second, 0, tables, base);
            flush_keeps_directories(second, 0);
            rest_is_added(second, 0, tables, base);
            if let Ok(third) = place_rest_from(second, 0) {
                gaps_are_added(third, 0, tables, base);
                flush_keeps_directories(third, 0);
            }
        }
    }
}

proof fn flush_keeps_directories(state: PlacingModel, index: int)
    requires
        0 <= index,
    ensures
        flush_from(state, index) matches Ok(after) ==> after.primary == state.primary
            && after.joliet == state.joliet,
    decreases state.pending.len() - index,
{
    if index < state.pending.len() {
        let gap = state.pending[index];
        if state.next + gap.sectors <= u32::MAX {
            flush_keeps_directories(
                PlacingModel {
                    next: (state.next + gap.sectors) as u32,
                    gaps: state.gaps.push(
                        GapPlacement {
                            start: state.next,
                            sectors: gap.sectors,
                            kind: gap.kind,
                            subheader: gap.subheader,
                            form2_edc: gap.form2_edc,
                        },
                    ),
                    ..state
                },
                index + 1,
            );
        }
    }
}

/// Which of the path tables, in the order in which they lie, a path table is.
spec fn slot(copies: PathTableCopies, order: PathTableOrder, index: int) -> int {
    match (copies, order) {
        (PathTableCopies::Duplicate, PathTableOrder::LittleEndianFirst) => index,
        (PathTableCopies::Duplicate, PathTableOrder::BigEndianFirst) => (index + 2) % 4,
        (PathTableCopies::Single, PathTableOrder::LittleEndianFirst) => index / 2,
        (PathTableCopies::Single, PathTableOrder::BigEndianFirst) => 1 - index / 2,
    }
}

/// Where a part of the path table area lies: its slot, and how far into it.
spec fn slot_of(iso: IsoModel, blocks: u32, part: Part) -> (int, int) {
    match part {
        Part::Table { volume, index } => (
            slot(iso.path_table_copies, iso.path_table_order, index),
            0,
        ),
        Part::Gap { index } => (index, blocks as int),
        _ => (0, 0),
    }
}

/// Directories that are only referred to take no blocks.
pub open spec fn references_take_nothing(iso: IsoModel, directories: Seq<PlacementModel>) -> bool {
    forall|i: int|
        0 <= i < directories.len() ==> (iso.entries[(
        #[trigger] directories[i]).entry].directory_reference is Some ==> directories[i].blocks
            == 0)
}

/// The path tables and what pads them lie apart.
#[verifier::rlimit(40)]
proof fn tables_are_apart(iso: IsoModel, directories: Seq<PlacementModel>, blocks: u32, state: PlacingModel)
    requires
        references_take_nothing(iso, directories),
        ({
            let start = 17 + iso.primary_volume_copies;
            let stride = blocks + iso.path_table_padding;
            let count = table_count(iso.path_table_copies);
            &&& start + stride * count <= u32::MAX
            &&& state == (PlacingModel {
                tables: table_extents(start, stride, iso.path_table_copies, iso.path_table_order),
                gaps: table_gaps(start, stride, blocks, iso.path_table_padding, count),
                ..nothing_placed(
                    iso,
                    directories,
                    Seq::empty(),
                    (start + stride * count) as u32,
                )
            })
        }),
    ensures
        are_apart(state, TableBlocks { primary: blocks, joliet: 0 }, 17 + iso.primary_volume_copies),
{
    let tables = TableBlocks { primary: blocks, joliet: 0 };
    let start = 17 + iso.primary_volume_copies;
    let stride = blocks + iso.path_table_padding;
    let count = table_count(iso.path_table_copies);
    assert forall|part: Part| #[trigger] takes_blocks(state, tables, part) implies {
        let (k, inside) = slot_of(iso, blocks, part);
        &&& part is Table || part is Gap
        &&& 0 <= k < count
        &&& 0 <= inside
        &&& start_of(state, part) == start + stride * k + inside
        &&& end_of(state, tables, part) <= start + stride * k + stride
        &&& part is Table ==> part->Table_volume == MetadataVolume::Primary && end_of(
            state,
            tables,
            part,
        ) == start + stride * k + blocks
    } by {
        let (k, inside) = slot_of(iso, blocks, part);
        match part {
            Part::Table { volume, index } => {
                assert(volume == MetadataVolume::Primary);
                assert(index == 0 || index == 1 || index == 2 || index == 3);
                assert(k == 0 || k == 1 || k == 2 || k == 3);
            },
            Part::Gap { index } => {
                assert(iso.path_table_padding > 0);
                assert(index == 0 || index == 1 || index == 2 || index == 3);
                assert(state.gaps[index].start == start + stride * index + blocks);
            },
            Part::Directory { volume, index } => {
                if volume == MetadataVolume::Primary {
                    assert(state.primary.placements[index] == directories[index]);
                }
                assert(false);
            },
            Part::File { index } => {
                assert(false);
            },
            Part::Extent { index } => {
                assert(false);
            },
        }
    }
    assert forall|part: Part| #[trigger] takes_blocks(state, tables, part) implies start
        <= start_of(state, part) && end_of(state, tables, part) <= state.next by {
        let (k, inside) = slot_of(iso, blocks, part);
        assert(stride * k + stride <= stride * count) by (nonlinear_arith)
            requires
                k + 1 <= count,
                stride >= 0,
        ;
        assert(stride * k >= 0) by (nonlinear_arith)
            requires
                k >= 0,
                stride >= 0,
        ;
    }
    assert forall|left: Part, right: Part|
        left != right && #[trigger] takes_blocks(state, tables, left) && #[trigger] takes_blocks(
            state,
            tables,
            right,
        ) implies end_of(state, tables, left) <= start_of(state, right) || end_of(
        state,
        tables,
        right,
    ) <= start_of(state, left) by {
        let (a, _) = slot_of(iso, blocks, left);
        let (b, _) = slot_of(iso, blocks, right);
        if a < b {
            assert(stride * a + stride <= stride * b) by (nonlinear_arith)
                requires
                    a + 1 <= b,
                    stride >= 0,
            ;
        } else if b < a {
            assert(stride * b + stride <= stride * a) by (nonlinear_arith)
                requires
                    b + 1 <= a,
                    stride >= 0,
            ;
        } else {
            match (left, right) {
                (Part::Table { volume: _, index: i }, Part::Table { volume: _, index: j }) => {
                    assert(i == 0 || i == 1 || i == 2 || i == 3);
                    assert(j == 0 || j == 1 || j == 2 || j == 3);
                },
                _ => {},
            }
        }
    }
}

/// Sizing directories makes those take nothing that are only referred to.
pub proof fn sized_references_take_nothing(
    iso: IsoModel,
    nodes: Seq<NodeModel>,
    directories: Seq<PlacementModel>,
    index: int,
    sized: Seq<PlacementModel>,
)
    requires
        0 <= index <= directories.len(),
        sized.len() == index,
        references_take_nothing(iso, sized),
        forall|i: int|
            0 <= i < index ==> sized_directory(iso, nodes, directories[i]) == Ok::<
                PlacementModel,
                Failure,
            >(#[trigger] sized[i]),
    ensures
        sized_directories_from(iso, nodes, directories, index, sized) matches Ok(all) ==> {
            &&& references_take_nothing(iso, all)
            &&& all.len() == directories.len()
            &&& forall|i: int|
                0 <= i < all.len() ==> sized_directory(iso, nodes, directories[i]) == Ok::<
                    PlacementModel,
                    Failure,
                >(#[trigger] all[i])
        },
    decreases directories.len() - index,
{
    if index < directories.len() {
        if let Ok(directory) = sized_directory(iso, nodes, directories[index]) {
            let more = sized.push(directory);
            assert forall|i: int|
                0 <= i < more.len() && iso.entries[(
                #[trigger] more[i]).entry].directory_reference is Some implies more[i].blocks
                == 0 by {
                if i < index {
                    assert(more[i] == sized[i]);
                }
            }
            sized_references_take_nothing(iso, nodes, directories, index + 1, more);
        }
    }
}

/// The sizes of the path tables of a filesystem whose parts have their places.
pub open spec fn table_blocks(placed: Placed) -> TableBlocks {
    TableBlocks {
        primary: placed.table.blocks,
        joliet: match placed.joliet {
            Some(plan) => plan.table.blocks,
            None => 0,
        },
    }
}

/// The first block past the descriptors of an image.
pub open spec fn descriptors_end(iso: IsoModel) -> int {
    17 + iso.primary_volume_copies + iso.supplementary_volumes.len()
}

/// The directories of the primary tree, in order.
pub open spec fn primary_order(iso: IsoModel) -> Seq<PlacementModel> {
    directories_of(primary_nodes(iso), ErrorKind::UnreachableDirectory)->Ok_0
}

/// The directories of the primary tree are in order, and each has its size.
pub open spec fn are_sized(iso: IsoModel, directories: Seq<PlacementModel>) -> bool {
    let ordered = primary_order(iso);
    &&& directories_of(primary_nodes(iso), ErrorKind::UnreachableDirectory) is Ok
    &&& directories.len() == ordered.len()
    &&& directories.len() > 0
    &&& forall|i: int|
        0 <= i < directories.len() ==> {
            let sized = sized_directory(iso, primary_nodes(iso), ordered[i]);
            sized is Ok && same_directory(#[trigger] directories[i], sized->Ok_0)
        }
}

/// Joliet directories have the sizes that their records give.
pub open spec fn are_joliet_sized(iso: IsoModel, plan: JolietPlan, directories: Seq<PlacementModel>) -> bool {
    let system_use = iso.supplementary_volumes[0].xa_system_use;
    let order = directories_of(plan.nodes, ErrorKind::UnreachableJolietDirectory);
    &&& order is Ok
    &&& directories.len() == order->Ok_0.len()
    &&& forall|i: int|
        0 <= i < directories.len() ==> {
            let sized = sized_joliet_directory(iso, plan.nodes, system_use, order->Ok_0[i]);
            sized is Ok && same_directory(#[trigger] directories[i], sized->Ok_0)
        }
}

pub proof fn joliet_directories_are_sized(
    iso: IsoModel,
    nodes: Seq<NodeModel>,
    system_use: bool,
    directories: Seq<PlacementModel>,
    index: int,
    sized: Seq<PlacementModel>,
)
    requires
        0 <= index <= directories.len(),
        sized.len() == index,
        forall|i: int|
            0 <= i < index ==> sized_joliet_directory(iso, nodes, system_use, directories[i])
                == Ok::<PlacementModel, Failure>(#[trigger] sized[i]),
    ensures
        sized_joliet_from(iso, nodes, system_use, directories, index, sized) matches Ok(all) ==> {
            &&& all.len() == directories.len()
            &&& forall|i: int|
                0 <= i < all.len() ==> sized_joliet_directory(
                    iso,
                    nodes,
                    system_use,
                    directories[i],
                ) == Ok::<PlacementModel, Failure>(#[trigger] all[i])
        },
    decreases directories.len() - index,
{
    if index < directories.len() {
        if let Ok(directory) = sized_joliet_directory(iso, nodes, system_use, directories[index]) {
            let more = sized.push(directory);
            assert forall|i: int| 0 <= i < index + 1 implies sized_joliet_directory(
                iso,
                nodes,
                system_use,
                directories[i],
            ) == Ok::<PlacementModel, Failure>(#[trigger] more[i]) by {
                if i < index {
                    assert(more[i] == sized[i]);
                }
            }
            joliet_directories_are_sized(iso, nodes, system_use, directories, index + 1, more);
        }
    }
}

proof fn joliet_directories_keep_sizes(
    iso: IsoModel,
    plan: JolietPlan,
    first: PlacingModel,
    second: PlacingModel,
    third: PlacingModel,
)
    requires
        went_on(first, second),
        went_on(second, third),
        joliet_plan(iso) == Ok::<JolietPlan, Failure>(plan),
        first.joliet.placements == plan.directories,
    ensures
        are_joliet_sized(iso, plan, third.joliet.placements),
{
    let system_use = iso.supplementary_volumes[0].xa_system_use;
    let ordered = directories_of(plan.nodes, ErrorKind::UnreachableJolietDirectory)->Ok_0;
    joliet_directories_are_sized(iso, plan.nodes, system_use, ordered, 0, Seq::empty());
    let last = third.joliet.placements;
    assert forall|i: int| 0 <= i < last.len() implies {
        let sized = sized_joliet_directory(iso, plan.nodes, system_use, ordered[i]);
        sized is Ok && same_directory(#[trigger] last[i], sized->Ok_0)
    } by {
        assert(same_directory(last[i], second.joliet.placements[i]));
        assert(same_directory(second.joliet.placements[i], plan.directories[i]));
    }
}

/// Where nothing is placed, nothing shares a block.
pub proof fn nothing_is_apart(
    iso: IsoModel,
    directories: Seq<PlacementModel>,
    joliet: Seq<PlacementModel>,
    tables: TableBlocks,
    base: int,
)
    requires
        references_take_nothing(iso, directories),
        0 <= base <= u32::MAX,
    ensures
        are_apart(nothing_placed(iso, directories, joliet, base as u32), tables, base),
        is_marked(nothing_placed(iso, directories, joliet, base as u32)),
{
    let first = nothing_placed(iso, directories, joliet, base as u32);
    assert forall|part: Part| !takes_blocks(first, tables, part) by {
        match part {
            Part::Directory { volume, index } => {
                if volume == MetadataVolume::Primary && 0 <= index < directories.len() {
                    assert(first.primary.placements[index] == directories[index]);
                }
            },
            _ => {},
        }
    }
}

/// The parts of an image lie apart: its path tables, its directories, its files,
/// its XA extents and its gaps share no block with each other or with the
/// descriptors. That holds of directories that are only referred to in that they
/// take no blocks.
pub proof fn parts_are_apart(iso: IsoModel, lengths: Seq<FileLengthModel>, placed: Placed)
    requires
        placed_filesystem(iso, lengths) == Ok::<Placed, Failure>(placed),
        iso.supplementary_volumes.len() <= 1,
    ensures
        are_apart(placed.state, table_blocks(placed), descriptors_end(iso)),
        is_marked(placed.state),
        are_sized(iso, placed.state.primary.placements),
        placed.state.tables.len() == 4,
        placed.state.joliet_tables.len() == 4,
        all_placed(placed.state.primary.placed),
        iso.supplementary_volumes.len() > 0 ==> all_placed(placed.state.joliet.placed),
        iso.supplementary_volumes.len() == 0 ==> placed.state.joliet.placements.len() == 0,
        placed.joliet matches Some(plan) ==> joliet_plan(iso) == Ok::<JolietPlan, Failure>(plan)
            && are_joliet_sized(iso, plan, placed.state.joliet.placements),
{
    let nodes = primary_nodes(iso);
    let ordered = directories_of(nodes, ErrorKind::UnreachableDirectory)->Ok_0;
    sized_references_take_nothing(iso, nodes, ordered, 0, Seq::empty());
    let directories = sized_directories_from(iso, nodes, ordered, 0, Seq::empty())->Ok_0;
    order_begins_with_root(nodes, 0, seq![unplaced(root_path(), seq![0u8], 0, 0)], ErrorKind::UnreachableDirectory);
    let tables = table_blocks(placed);
    let base = descriptors_end(iso);
    if iso.supplementary_volumes.len() > 0 {
        let plan = joliet_plan(iso)->Ok_0;
        let first = nothing_placed(iso, directories, plan.directories, base as u32);
        nothing_is_apart(iso, directories, plan.directories, tables, base);
        metadata_is_added(iso.metadata_layout, first, 0, tables, base);
        let state = place_joliet_metadata(
            iso,
            directories,
            plan.directories,
            tables.primary,
            tables.joliet,
        )->Ok_0;
        contents_are_added(iso, lengths, state, tables, base);
        directories_keep_sizes(iso, directories, first, state, placed.state);
        joliet_directories_keep_sizes(iso, plan, first, state, placed.state);
    } else {
        let start = 17 + iso.primary_volume_copies;
        let stride = tables.primary + iso.path_table_padding;
        let count = table_count(iso.path_table_copies);
        let first = PlacingModel {
            tables: table_extents(start, stride, iso.path_table_copies, iso.path_table_order),
            gaps: table_gaps(start, stride, tables.primary, iso.path_table_padding, count),
            ..nothing_placed(iso, directories, Seq::empty(), (start + stride * count) as u32)
        };
        tables_are_apart(iso, directories, tables.primary, first);
        directory_is_added(
            first,
            MetadataVolume::Primary,
            0,
            ErrorKind::PlacementOverflow,
            tables,
            base,
        );
        let state = place_plain_metadata(iso, directories, tables.primary)->Ok_0;
        contents_are_added(iso, lengths, state, tables, base);
        directories_keep_sizes(iso, directories, first, state, placed.state);
    }
}

/// Whatever is placed, the directories keep their sizes.
proof fn directories_keep_sizes(
    iso: IsoModel,
    directories: Seq<PlacementModel>,
    first: PlacingModel,
    second: PlacingModel,
    third: PlacingModel,
)
    requires
        went_on(first, second),
        went_on(second, third),
        first.primary.placements == directories,
        directories_of(primary_nodes(iso), ErrorKind::UnreachableDirectory) is Ok,
        directories.len() == primary_order(iso).len(),
        directories.len() > 0,
        forall|i: int|
            0 <= i < directories.len() ==> sized_directory(
                iso,
                primary_nodes(iso),
                primary_order(iso)[i],
            ) == Ok::<PlacementModel, Failure>(#[trigger] directories[i]),
    ensures
        are_sized(iso, third.primary.placements),
{
    let last = third.primary.placements;
    assert forall|i: int| 0 <= i < last.len() implies {
        let sized = sized_directory(iso, primary_nodes(iso), primary_order(iso)[i]);
        sized is Ok && same_directory(#[trigger] last[i], sized->Ok_0)
    } by {
        assert(same_directory(last[i], second.primary.placements[i]));
        assert(same_directory(second.primary.placements[i], directories[i]));
    }
}

/// The directories of a tree begin with those that were found first.
proof fn order_begins_with_root(
    nodes: Seq<NodeModel>,
    index: int,
    found: Seq<PlacementModel>,
    unreachable: ErrorKind,
)
    requires
        found.len() > 0,
    ensures
        directory_order_from(nodes, index, found, unreachable) matches Ok(all) ==> all.len()
            >= found.len() && all[0] == found[0],
    decreases count_directories(nodes, 0) + 1 - index,
{
    if found.len() <= count_directories(nodes, 0) && 0 <= index < found.len() {
        let more = subdirectories_from(nodes, found[index].path, index, 0, found);
        subdirectories_follow(nodes, found[index].path, index, 0, found);
        order_begins_with_root(nodes, index + 1, more, unreachable);
    }
}

pub proof fn subdirectories_follow(
    nodes: Seq<NodeModel>,
    path: Seq<char>,
    parent: int,
    index: int,
    found: Seq<PlacementModel>,
)
    ensures
        ({
            let all = subdirectories_from(nodes, path, parent, index, found);
            all.len() >= found.len() && all.take(found.len() as int) == found
        }),
    decreases nodes.len() - index,
{
    if 0 <= index < nodes.len() {
        if is_subdirectory(nodes[index], path) {
            let more = found.push(
                unplaced(nodes[index].path, nodes[index].identifier, parent, index),
            );
            subdirectories_follow(nodes, path, parent, index + 1, more);
            let all = subdirectories_from(nodes, path, parent, index + 1, more);
            assert(all.take(found.len() as int) =~= all.take(more.len() as int).take(
                found.len() as int,
            ));
            assert(more.take(found.len() as int) =~= found);
        } else {
            subdirectories_follow(nodes, path, parent, index + 1, found);
        }
    } else {
        assert(found.take(found.len() as int) =~= found);
    }
}

} // verus!
