//! The order of the metadata of an image that was laid out can be told from it.
use vstd::prelude::*;
use vstd::set_lib::{lemma_int_range, lemma_subset_equality, set_int_range};

use crate::bytes::all_are;
use crate::error::{ErrorKind, Failure};
use crate::iso9660::description::{IsoModel, MetadataLayoutItem, MetadataPathTable};
use crate::iso9660::image_laws::{in_part, is_blank_elsewhere, is_written_part};
use crate::iso9660::joliet_laws::joliet_directories_follow_order;
use crate::iso9660::joliet_layout_laws::{
    joliet_layout_is_walkable, joliet_tree_of, versions_are_told,
};
use crate::iso9660::joliet_parse_laws::told_metadata;
use crate::iso9660::layout::{
    blocks_of, joliet_plan, nothing_placed, place_joliet_metadata, placed_filesystem,
    sized_directories_from, sized_directory, sized_joliet_directory, LayoutModel, Placed,
};
use crate::iso9660::layout_laws::{
    filled_holds_parts, filled_image, is_filled, is_layout, layout_holds_parts, places_of,
    records_are_some,
};
use crate::iso9660::metadata::{
    gap_between, is_grouped, metadata_objects, metadata_order_from, run_is_zero, starts_of,
    MetadataObject, MetadataOrder, TablesModel,
};
use crate::iso9660::order::{comes_before, is_order, stable_order, stable_order_sorts};
use crate::iso9660::path_table::PlacementModel;
use crate::iso9660::placing::{
    place_directory, place_group_from, place_metadata_from, place_metadata_item, FileLengthModel,
    PlacingModel, TreeModel,
};
use crate::iso9660::placing_laws::{
    are_apart, descriptors_end, end_of, metadata_is_added, nothing_is_apart, parts_are_apart,
    primary_order, same_directory, sized_references_take_nothing, start_of, table_blocks,
    takes_blocks, Part, TableBlocks,
};
use crate::iso9660::table_laws::{contents_keep_tables, directories_stay, joliet_tables_are_placed};
use crate::iso9660::tree::{directories_of, primary_nodes};
use crate::iso9660::tree_walk_laws::{all_found, found_of};
use crate::iso9660::validate::{
    description_check, metadata_check, metadata_item_check, metadata_item_checks,
};
use crate::manifest::{DirectoryLengthPolicy, GapKind, MetadataVolume};
use crate::model::{ceil_div, first_failure_ok, views};
use crate::raw_cd::Block;

verus! {

/// A directory ends where the next one begins.
pub open spec fn follows(directories: Seq<PlacementModel>, index: int) -> bool {
    directories[index].extent + directories[index].blocks == directories[index + 1].extent
}

/// The directories of a tree have their places, one behind the other, before a block.
pub open spec fn is_settled(tree: TreeModel, next: int) -> bool {
    let directories = tree.placements;
    &&& directories.len() > 0
    &&& tree.placed.len() == directories.len()
    &&& forall|i: int| 0 <= i < tree.placed.len() ==> #[trigger] tree.placed[i]
    &&& forall|i: int| 0 <= i < directories.len() - 1 ==> #[trigger] follows(directories, i)
    &&& directories.last().extent + directories.last().blocks <= next
}

/// No directory of a tree has its place.
pub open spec fn is_unsettled(tree: TreeModel) -> bool {
    &&& tree.placements.len() > 0
    &&& tree.placed.len() == tree.placements.len()
    &&& forall|i: int| 0 <= i < tree.placed.len() ==> !#[trigger] tree.placed[i]
}

/// A group of directories is placed one behind the other.
proof fn group_is_settled(state: PlacingModel, volume: MetadataVolume, index: int)
    requires
        state.tree(volume).placements.len() > 0,
        state.tree(volume).placed.len() == state.tree(volume).placements.len(),
        0 <= index <= state.tree(volume).placements.len(),
        forall|i: int| 0 <= i < index ==> #[trigger] state.tree(volume).placed[i],
        forall|i: int|
            index <= i < state.tree(volume).placed.len() ==> !#[trigger] state.tree(volume).placed[i],
        forall|i: int|
            0 <= i < index - 1 ==> #[trigger] follows(state.tree(volume).placements, i),
        index > 0 ==> state.tree(volume).placements[index - 1].extent + state.tree(
            volume,
        ).placements[index - 1].blocks == state.next,
    ensures
        place_group_from(state, volume, index) matches Ok(after) ==> {
            &&& is_settled(after.tree(volume), after.next as int)
            &&& after.files == state.files
            &&& state.next <= after.next
            &&& after == after.with_tree(volume, after.tree(volume))
            &&& volume == MetadataVolume::Primary ==> after.joliet == state.joliet
            &&& volume != MetadataVolume::Primary ==> after.primary == state.primary
        },
    decreases state.tree(volume).placements.len() - index,
{
    let tree = state.tree(volume);
    if index < tree.placements.len() {
        let placed = place_directory(state, volume, index, ErrorKind::MetadataDirectoryOverflow);
        if let Ok(next) = placed {
            let after = next.tree(volume);
            assert forall|i: int| 0 <= i < index implies #[trigger] follows(after.placements, i) by {
                if i < index - 1 {
                    assert(follows(tree.placements, i));
                }
            }
            assert forall|i: int| 0 <= i < index + 1 implies #[trigger] after.placed[i] by {
                if i < index {
                    assert(tree.placed[i]);
                }
            }
            assert forall|i: int| index + 1 <= i < after.placed.len() implies
                !#[trigger] after.placed[i] by {
                assert(!tree.placed[i]);
            }
            group_is_settled(next, volume, index + 1);
        }
        assert(!tree.placed[index]);
    }
}

/// The directories of a tree that the metadata area lists as a group are placed one
/// behind the other.
proof fn metadata_is_settled(
    items: Seq<MetadataLayoutItem>,
    state: PlacingModel,
    index: int,
    blocks: u32,
    joliet_blocks: u32,
    volume: MetadataVolume,
)
    requires
        0 <= index <= items.len(),
        forall|i: int, j: int|
            0 <= i < j < items.len() && items[i] == MetadataLayoutItem::Directories(volume)
                ==> #[trigger] items[j] != #[trigger] items[i],
        items.skip(index).contains(MetadataLayoutItem::Directories(volume)) ==> is_unsettled(
            state.tree(volume),
        ),
        !items.skip(index).contains(MetadataLayoutItem::Directories(volume)) ==> is_settled(
            state.tree(volume),
            state.next as int,
        ),
        other_tree(state, volume).placements.len() == other_tree(state, volume).placed.len(),
    ensures
        place_metadata_from(items, state, blocks, joliet_blocks, index) matches Ok(after) ==> {
            &&& is_settled(after.tree(volume), after.next as int)
            &&& after.files == state.files
            &&& state.next <= after.next
        },
    decreases items.len() - index,
{
    let group = MetadataLayoutItem::Directories(volume);
    if index < items.len() {
        let rest = items.skip(index);
        let left = items.skip(index + 1);
        assert(rest[0] == items[index]);
        assert(left =~= rest.skip(1));
        if left.contains(group) {
            let at = choose|at: int| 0 <= at < left.len() && left[at] == group;
            assert(rest[at + 1] == group);
            assert(items[index + 1 + at] == group);
            assert(items[index] != group);
        }
        if rest.contains(group) && items[index] != group {
            let at = choose|at: int| 0 <= at < rest.len() && rest[at] == group;
            assert(left[at - 1] == group);
        }
        match items[index] {
            MetadataLayoutItem::Directories(which) => {
                if which == volume {
                    assert(rest.contains(group));
                    group_is_settled(state, volume, 0);
                } else {
                    other_group_is_placed(state, which, 0);
                }
            },
            _ => {},
        }
        if let Ok(next) = place_metadata_item(state, items[index], blocks, joliet_blocks) {
            metadata_is_settled(items, next, index + 1, blocks, joliet_blocks, volume);
        }
    } else {
        assert(items.skip(index).len() == 0);
    }
}

/// The tree that is not that of a volume.
pub open spec fn other_tree(state: PlacingModel, volume: MetadataVolume) -> TreeModel {
    if volume == MetadataVolume::Primary {
        state.joliet
    } else {
        state.primary
    }
}

/// Placing the directories of one tree leaves those of the other where they are.
proof fn other_group_is_placed(state: PlacingModel, volume: MetadataVolume, index: int)
    requires
        0 <= index,
        state.tree(volume).placements.len() == state.tree(volume).placed.len(),
    ensures
        place_group_from(state, volume, index) matches Ok(after) ==> {
            &&& other_tree(after, volume) == other_tree(state, volume)
            &&& after.tree(volume).placements.len() == after.tree(volume).placed.len()
            &&& after.files == state.files
            &&& state.next <= after.next
        },
    decreases state.tree(volume).placements.len() - index,
{
    if index < state.tree(volume).placements.len() {
        other_group_is_placed(state, volume, index + 1);
        if let Ok(next) = place_directory(
            state,
            volume,
            index,
            ErrorKind::MetadataDirectoryOverflow,
        ) {
            other_group_is_placed(next, volume, index + 1);
        }
    }
}

/// A directory of a group lies between the first and the end of the last.
proof fn group_holds_directory(directories: Seq<PlacementModel>, index: int, last: int)
    requires
        0 <= index <= last < directories.len(),
        forall|i: int| 0 <= i < directories.len() - 1 ==> #[trigger] follows(directories, i),
    ensures
        directories[index].extent + directories[index].blocks <= directories[last].extent
            + directories[last].blocks,
        directories[index].extent <= directories[last].extent,
    decreases last - index,
{
    if index < last {
        assert(follows(directories, last - 1));
        group_holds_directory(directories, index, last - 1);
    }
}

/// A block lies in a part of the metadata area.
pub open spec fn in_object(objects: Seq<MetadataObject>, index: int, block: int) -> bool {
    objects[index].start <= block < objects[index].end
}

/// The parts of the metadata area lie apart, in a stretch of the image that is zero
/// between them.
pub open spec fn are_tellable(blocks: Seq<Block>, objects: Seq<MetadataObject>, base: int, end: int) -> bool {
    &&& end <= blocks.len()
    &&& forall|i: int|
        0 <= i < objects.len() ==> base <= (#[trigger] objects[i]).start < objects[i].end <= end
    &&& forall|i: int, j: int|
        0 <= i < j < objects.len() ==> (#[trigger] objects[i]).end <= (#[trigger] objects[j]).start
            || objects[j].end <= objects[i].start
    &&& forall|b: int|
        base <= b < end && !all_are((#[trigger] blocks[b])@, 0) ==> exists|i: int|
            0 <= i < objects.len() && #[trigger] in_object(objects, i, b)
}

/// An order has every item in it.
proof fn order_has_all(keys: Seq<u32>, order: Seq<int>, count: int, item: int)
    requires
        is_order(keys, order, count),
        0 <= item < count,
    ensures
        exists|m: int| 0 <= m < order.len() && order[m] == item,
{
    assert(order.no_duplicates()) by {
        assert forall|i: int, j: int|
            0 <= i < order.len() && 0 <= j < order.len() && i != j implies order[i] != order[j] by {
            if i < j {
                assert(comes_before(keys, order[i], order[j]));
            } else {
                assert(comes_before(keys, order[j], order[i]));
            }
        }
    }
    order.unique_seq_to_set();
    lemma_int_range(0, count);
    let all = set_int_range(0, count);
    assert(order.to_set().subset_of(all)) by {
        assert forall|x: int| order.to_set().contains(x) implies all.contains(x) by {
            assert(order.contains(x));
        }
    }
    lemma_subset_equality(order.to_set(), all);
    assert(all.contains(item));
    assert(order.to_set().contains(item));
}

/// The parts of the metadata area that lie apart, with nothing but zeros between
/// them, can be ordered.
proof fn order_is_told(
    blocks: Seq<Block>,
    objects: Seq<MetadataObject>,
    order: Seq<int>,
    cursor: u32,
    index: int,
    found: MetadataOrder,
    base: int,
    end: int,
)
    requires
        are_tellable(blocks, objects, base, end),
        is_order(starts_of(objects), order, objects.len() as int),
        0 <= index <= order.len(),
        cursor == (if index == 0 {
            base
        } else {
            objects[order[index - 1]].end as int
        }),
    ensures
        metadata_order_from(blocks, objects, order, cursor, index, found) is Ok,
    decreases order.len() - index,
{
    if index < order.len() {
        let at = order[index];
        let object = objects[at];
        let starts = starts_of(objects);
        if index > 0 {
            let before = order[index - 1];
            assert(comes_before(starts, before, at));
            assert(starts[before] == objects[before].start && starts[at] == objects[at].start);
            if before < at {
                assert(objects[before].end <= objects[at].start || objects[at].end
                    <= objects[before].start);
            } else {
                assert(objects[at].end <= objects[before].start || objects[before].end
                    <= objects[at].start);
            }
        }
        assert(cursor <= object.start);
        assert(run_is_zero(blocks, cursor as int, object.start as int)) by {
            assert forall|b: int| cursor <= b < object.start implies all_are(
                (#[trigger] blocks[b])@,
                0,
            ) by {
                if !all_are(blocks[b]@, 0) {
                    let i = choose|i: int|
                        0 <= i < objects.len() && #[trigger] in_object(objects, i, b);
                    order_has_all(starts, order, objects.len() as int, i);
                    let m = choose|m: int| 0 <= m < order.len() && order[m] == i;
                    assert(starts[i] == objects[i].start && starts[at] == objects[at].start);
                    if m > index {
                        assert(comes_before(starts, order[index], order[m]));
                    } else if m < index {
                        ends_rise(objects, order, m, index - 1, blocks, base, end);
                    }
                    assert(false);
                }
            }
        }
        let gap = gap_between(cursor, object.start);
        let more = if object.start == cursor {
            MetadataOrder { layout: found.layout.push(object.item), gaps: found.gaps }
        } else {
            MetadataOrder {
                layout: found.layout.push(
                    MetadataLayoutItem::Gap { gap: gap.sectors, kind: GapKind::Xa },
                ).push(object.item),
                gaps: found.gaps.push(gap),
            }
        };
        order_is_told(blocks, objects, order, object.end, index + 1, more, base, end);
    }
}

/// What comes earlier in the order ends earlier.
proof fn ends_rise(
    objects: Seq<MetadataObject>,
    order: Seq<int>,
    left: int,
    right: int,
    blocks: Seq<Block>,
    base: int,
    end: int,
)
    requires
        are_tellable(blocks, objects, base, end),
        is_order(starts_of(objects), order, objects.len() as int),
        0 <= left <= right < order.len(),
    ensures
        objects[order[left]].end <= objects[order[right]].end,
{
    if left < right {
        let starts = starts_of(objects);
        let i = order[left];
        let j = order[right];
        assert(comes_before(starts, i, j));
        assert(starts[i] == objects[i].start && starts[j] == objects[j].start);
        if i < j {
            assert(objects[i].end <= objects[j].start || objects[j].end <= objects[i].start);
        } else {
            assert(objects[j].end <= objects[i].start || objects[i].end <= objects[j].start);
        }
    }
}

/// A block of an image lies in a part.
pub open spec fn covers(state: PlacingModel, tables: TableBlocks, part: Part, block: int) -> bool {
    takes_blocks(state, tables, part) && start_of(state, part) <= block < end_of(
        state,
        tables,
        part,
    )
}

/// The place of a part among the parts of the metadata area.
pub open spec fn place_of(part: Part) -> int {
    match part {
        Part::Table { volume, index } => if volume == MetadataVolume::Primary {
            if index == 0 {
                0
            } else {
                1
            }
        } else {
            if index == 0 {
                2
            } else {
                3
            }
        },
        Part::Directory { volume, index } => if volume == MetadataVolume::Primary {
            4
        } else {
            5
        },
        _ => 6,
    }
}

/// Both trees stand in groups behind the descriptors and before the files, and each
/// has its two path tables there.
pub open spec fn is_grouped_metadata(state: PlacingModel, tables: TableBlocks, base: int, end: int) -> bool {
    &&& are_apart(state, tables, base)
    &&& tables.primary > 0 && tables.joliet > 0
    &&& state.tables.len() == 4 && state.joliet_tables.len() == 4
    &&& state.tables[0] != 0 && state.tables[1] == 0
    &&& state.tables[2] != 0 && state.tables[3] == 0
    &&& state.joliet_tables[0] != 0 && state.joliet_tables[1] == 0
    &&& state.joliet_tables[2] != 0 && state.joliet_tables[3] == 0
    &&& state.tables[0] + tables.primary <= end && state.tables[2] + tables.primary <= end
    &&& state.joliet_tables[0] + tables.joliet <= end
    &&& state.joliet_tables[2] + tables.joliet <= end
    &&& is_settled(state.primary, end)
    &&& is_settled(state.joliet, end)
    &&& forall|i: int|
        0 <= i < state.primary.placements.len() ==> {
            let directory = #[trigger] state.primary.placements[i];
            directory.blocks > 0 && directory.blocks == ceil_div(directory.length as int, 2048)
        }
    &&& forall|i: int|
        0 <= i < state.joliet.placements.len() ==> {
            let directory = #[trigger] state.joliet.placements[i];
            directory.blocks > 0 && directory.blocks == ceil_div(directory.length as int, 2048)
        }
    &&& forall|i: int| 0 <= i < state.files.len() ==> end <= (#[trigger] state.files[i]).extent
}

/// The parts of the metadata area of an image whose trees stand in groups.
pub open spec fn grouped_objects(state: PlacingModel, tables: TableBlocks) -> Seq<MetadataObject> {
    let primary = state.primary.placements;
    let joliet = state.joliet.placements;
    seq![
        MetadataObject {
            start: state.tables[0],
            end: (state.tables[0] + tables.primary) as u32,
            item: MetadataLayoutItem::PathTable(MetadataPathTable::PrimaryLittle),
        },
        MetadataObject {
            start: state.tables[2],
            end: (state.tables[2] + tables.primary) as u32,
            item: MetadataLayoutItem::PathTable(MetadataPathTable::PrimaryBig),
        },
        MetadataObject {
            start: state.joliet_tables[0],
            end: (state.joliet_tables[0] + tables.joliet) as u32,
            item: MetadataLayoutItem::PathTable(MetadataPathTable::JolietLittle),
        },
        MetadataObject {
            start: state.joliet_tables[2],
            end: (state.joliet_tables[2] + tables.joliet) as u32,
            item: MetadataLayoutItem::PathTable(MetadataPathTable::JolietBig),
        },
        MetadataObject {
            start: primary[0].extent,
            end: (primary.last().extent + primary.last().blocks) as u32,
            item: MetadataLayoutItem::Directories(MetadataVolume::Primary),
        },
        MetadataObject {
            start: joliet[0].extent,
            end: (joliet.last().extent + joliet.last().blocks) as u32,
            item: MetadataLayoutItem::Directories(MetadataVolume::Joliet),
        },
    ]
}

proof fn settled_are_grouped(directories: Seq<PlacementModel>)
    requires
        directories.len() > 0,
        forall|i: int| 0 <= i < directories.len() - 1 ==> #[trigger] follows(directories, i),
        forall|i: int|
            0 <= i < directories.len() ==> (#[trigger] directories[i]).blocks == ceil_div(
                directories[i].length as int,
                2048,
            ),
    ensures
        is_grouped(all_found(directories, directories.len() as int)),
{
    let found = all_found(directories, directories.len() as int);
    assert forall|i: int| 0 <= i < found.len() - 1 implies (#[trigger] found[i]).extent + ceil_div(
        found[i].length as int,
        2048,
    ) == found[i + 1].extent by {
        assert(follows(directories, i));
        assert(directories[i].blocks == ceil_div(directories[i].length as int, 2048));
    }
}

/// What lies in the metadata area is found there.
proof fn objects_are_listed(state: PlacingModel, tables: TableBlocks, base: int, end: int)
    requires
        is_grouped_metadata(state, tables, base, end),
        end <= u32::MAX,
    ensures
        metadata_objects(
            TablesModel { extents: state.tables, blocks: tables.primary },
            all_found(state.primary.placements, state.primary.placements.len() as int),
            TablesModel { extents: state.joliet_tables, blocks: tables.joliet },
            all_found(state.joliet.placements, state.joliet.placements.len() as int),
        ) == Ok::<Seq<MetadataObject>, Failure>(grouped_objects(state, tables)),
{
    let primary = state.primary.placements;
    let joliet = state.joliet.placements;
    settled_are_grouped(primary);
    settled_are_grouped(joliet);
    let found = all_found(primary, primary.len() as int);
    let joliet_found = all_found(joliet, joliet.len() as int);
    assert(found.last() == found_of(primary.last()));
    assert(joliet_found.last() == found_of(joliet.last()));
    assert(found[0] == found_of(primary[0]));
    assert(joliet_found[0] == found_of(joliet[0]));
    assert(primary[primary.len() - 1].blocks == ceil_div(primary.last().length as int, 2048));
    assert(joliet[joliet.len() - 1].blocks == ceil_div(joliet.last().length as int, 2048));
    let listed = metadata_objects(
        TablesModel { extents: state.tables, blocks: tables.primary },
        found,
        TablesModel { extents: state.joliet_tables, blocks: tables.joliet },
        joliet_found,
    );
    assert(listed->Ok_0 =~= grouped_objects(state, tables));
}

/// A block of a group lies in one of its directories.
proof fn group_block_has_directory(directories: Seq<PlacementModel>, last: int, block: int) -> (index: int)
    requires
        0 <= last < directories.len(),
        forall|i: int| 0 <= i < directories.len() - 1 ==> #[trigger] follows(directories, i),
        directories[0].extent <= block < directories[last].extent + directories[last].blocks,
    ensures
        0 <= index <= last,
        directories[index].extent <= block < directories[index].extent + directories[index].blocks,
    decreases last,
{
    if block >= directories[last].extent {
        last
    } else {
        assert(last > 0);
        assert(follows(directories, last - 1));
        group_block_has_directory(directories, last - 1, block)
    }
}

/// A block of a part of the metadata area lies in a path table or a directory.
proof fn object_block_has_part(
    state: PlacingModel,
    tables: TableBlocks,
    base: int,
    end: int,
    index: int,
    block: int,
) -> (part: Part)
    requires
        is_grouped_metadata(state, tables, base, end),
        end <= u32::MAX,
        0 <= index < 6,
        in_object(grouped_objects(state, tables), index, block),
    ensures
        covers(state, tables, part, block),
        place_of(part) == index,
{
    if index == 0 {
        Part::Table { volume: MetadataVolume::Primary, index: 0 }
    } else if index == 1 {
        Part::Table { volume: MetadataVolume::Primary, index: 2 }
    } else if index == 2 {
        Part::Table { volume: MetadataVolume::Joliet, index: 0 }
    } else if index == 3 {
        Part::Table { volume: MetadataVolume::Joliet, index: 2 }
    } else if index == 4 {
        let directories = state.primary.placements;
        let at = group_block_has_directory(directories, directories.len() - 1, block);
        assert(directories[at].blocks > 0);
        assert(state.primary.placed[at]);
        Part::Directory { volume: MetadataVolume::Primary, index: at }
    } else {
        let directories = state.joliet.placements;
        let at = group_block_has_directory(directories, directories.len() - 1, block);
        assert(directories[at].blocks > 0);
        assert(state.joliet.placed[at]);
        Part::Directory { volume: MetadataVolume::Joliet, index: at }
    }
}

/// What is written before the files lies in a part of the metadata area.
proof fn part_has_object(
    state: PlacingModel,
    tables: TableBlocks,
    base: int,
    end: int,
    part: Part,
    block: int,
)
    requires
        is_grouped_metadata(state, tables, base, end),
        end <= u32::MAX,
        is_written_part(part),
        covers(state, tables, part, block),
        block < end,
    ensures
        0 <= place_of(part) < 6,
        in_object(grouped_objects(state, tables), place_of(part), block),
{
    match part {
        Part::Table { volume, index } => {},
        Part::Directory { volume, index } => {
            let directories = state.tree(volume).placements;
            group_holds_directory(directories, index, directories.len() - 1);
            group_holds_directory(directories, 0, index);
        },
        Part::File { index } => {
            assert(end <= state.files[index].extent);
        },
        _ => {},
    }
}

/// The metadata of an image whose trees stand in groups can be told.
#[verifier::rlimit(40)]
#[verifier::spinoff_prover]
proof fn grouped_are_tellable(
    state: PlacingModel,
    tables: TableBlocks,
    base: int,
    end: int,
    image: Seq<u8>,
    blocks: Seq<Block>,
)
    requires
        is_grouped_metadata(state, tables, base, end),
        0 <= base,
        end <= u32::MAX,
        end <= blocks.len(),
        views(blocks) == blocks_of(image),
        image.len() % 2048 == 0,
        is_blank_elsewhere(state, tables, base, image),
    ensures
        are_tellable(blocks, grouped_objects(state, tables), base, end),
{
    let objects = grouped_objects(state, tables);
    assert forall|i: int| 0 <= i < objects.len() implies base <= (
    #[trigger] objects[i]).start < objects[i].end <= end by {
        if i >= 4 {
            let directories = if i == 4 {
                state.primary.placements
            } else {
                state.joliet.placements
            };
            assert(directories[0].blocks > 0);
            group_holds_directory(directories, 0, directories.len() - 1);
        }
        let part = object_block_has_part(state, tables, base, end, i, objects[i].start as int);
        assert(takes_blocks(state, tables, part));
    }
    assert forall|i: int, j: int| 0 <= i < j < objects.len() implies (#[trigger] objects[i]).end <= (
    #[trigger] objects[j]).start || objects[j].end <= objects[i].start by {
        let block = if objects[i].start > objects[j].start {
            objects[i].start as int
        } else {
            objects[j].start as int
        };
        if block < objects[i].end && block < objects[j].end {
            let left = object_block_has_part(state, tables, base, end, i, block);
            let right = object_block_has_part(state, tables, base, end, j, block);
            assert(left != right);
            assert(takes_blocks(state, tables, left) && takes_blocks(state, tables, right));
            assert(false);
        }
    }
    assert forall|b: int| base <= b < end && !all_are((#[trigger] blocks[b])@, 0) implies exists|
        i: int,
    | 0 <= i < objects.len() && #[trigger] in_object(objects, i, b) by {
        assert(views(blocks).len() == blocks.len());
        assert(blocks_of(image).len() == image.len() / 2048);
        assert(views(blocks)[b] == blocks[b]@);
        assert(blocks_of(image)[b] == image.subrange(b * 2048, b * 2048 + 2048));
        let at = choose|at: int| 0 <= at < 2048 && blocks[b]@[at] != 0;
        let offset = b * 2048 + at;
        assert(image[offset] == blocks[b]@[at]);
        let part = choose|part: Part|
            is_written_part(part) && #[trigger] in_part(state, tables, part, offset);
        assert(covers(state, tables, part, b));
        part_has_object(state, tables, base, end, part, b);
        assert(in_object(objects, place_of(part), b));
    }
}

/// The metadata area lists a group once.
proof fn group_is_listed_once(iso: IsoModel, volume: MetadataVolume)
    requires
        metadata_check(iso) is Ok,
        iso.supplementary_volumes.len() > 0,
    ensures
        forall|i: int, j: int|
            0 <= i < j < iso.metadata_layout.len() && iso.metadata_layout[i]
                == MetadataLayoutItem::Directories(volume) ==> #[trigger] iso.metadata_layout[j]
                != #[trigger] iso.metadata_layout[i],
{
    let items = iso.metadata_layout;
    let checks = metadata_item_checks(items);
    first_failure_ok(checks, 0, items.len() as int);
    assert forall|i: int, j: int|
        0 <= i < j < items.len() && items[i] == MetadataLayoutItem::Directories(volume) implies
        #[trigger] items[j] != #[trigger] items[i] by {
        assert(checks(j) is Ok);
        assert(metadata_item_check(items, j) is Ok);
    }
}

/// Directories take the blocks that their lengths give.
proof fn directories_have_blocks(iso: IsoModel, lengths: Seq<FileLengthModel>, placed: Placed)
    requires
        placed_filesystem(iso, lengths) == Ok::<Placed, Failure>(placed),
        iso.supplementary_volumes.len() == 1,
        placed.joliet is Some,
        forall|i: int|
            0 <= i < placed.state.primary.placements.len() ==> {
                let entry = iso.entries[(#[trigger] placed.state.primary.placements[i]).entry];
                entry.directory_reference is None && (entry.directory_slack is None
                    || iso.directory_length_policy == DirectoryLengthPolicy::Allocated)
            },
    ensures
        forall|i: int|
            0 <= i < placed.state.primary.placements.len() ==> {
                let directory = #[trigger] placed.state.primary.placements[i];
                directory.blocks > 0 && directory.blocks == ceil_div(directory.length as int, 2048)
            },
        forall|i: int|
            0 <= i < placed.state.joliet.placements.len() ==> {
                let directory = #[trigger] placed.state.joliet.placements[i];
                directory.blocks > 0 && directory.blocks == ceil_div(directory.length as int, 2048)
            },
{
    parts_are_apart(iso, lengths, placed);
    let primary = placed.state.primary.placements;
    let nodes = primary_nodes(iso);
    assert forall|i: int| 0 <= i < primary.len() implies {
        let directory = #[trigger] primary[i];
        directory.blocks > 0 && directory.blocks == ceil_div(directory.length as int, 2048)
    } by {
        let ordered = primary_order(iso)[i];
        assert(same_directory(primary[i], sized_directory(iso, nodes, ordered)->Ok_0));
        records_are_some(nodes, ordered.path, iso.xa_system_use, iso.directory_record_packing);
    }
    let joliet = placed.state.joliet.placements;
    let plan = placed.joliet->Some_0;
    let system_use = iso.supplementary_volumes[0].xa_system_use;
    assert forall|i: int| 0 <= i < joliet.len() implies {
        let directory = #[trigger] joliet[i];
        directory.blocks > 0 && directory.blocks == ceil_div(directory.length as int, 2048)
    } by {
        let ordered = directories_of(plan.nodes, ErrorKind::UnreachableJolietDirectory)->Ok_0[i];
        assert(same_directory(
            joliet[i],
            sized_joliet_directory(iso, plan.nodes, system_use, ordered)->Ok_0,
        ));
        records_are_some(plan.nodes, ordered.path, system_use, iso.directory_record_packing);
    }
}

/// A filesystem whose metadata area lists both trees as groups has them there.
#[verifier::rlimit(40)]
#[verifier::spinoff_prover]
proof fn metadata_is_grouped(iso: IsoModel, lengths: Seq<FileLengthModel>, placed: Placed) -> (end: int)
    requires
        placed_filesystem(iso, lengths) == Ok::<Placed, Failure>(placed),
        iso.supplementary_volumes.len() == 1,
        metadata_check(iso) is Ok,
        iso.metadata_layout.contains(MetadataLayoutItem::Directories(MetadataVolume::Primary)),
        iso.metadata_layout.contains(MetadataLayoutItem::Directories(MetadataVolume::Joliet)),
        placed.state.joliet.placements.len() > 0,
        forall|i: int|
            0 <= i < placed.state.primary.placements.len() ==> {
                let entry = iso.entries[(#[trigger] placed.state.primary.placements[i]).entry];
                entry.directory_reference is None && (entry.directory_slack is None
                    || iso.directory_length_policy == DirectoryLengthPolicy::Allocated)
            },
    ensures
        is_grouped_metadata(placed.state, table_blocks(placed), descriptors_end(iso), end),
        end <= placed.state.next,
{
    let plan = joliet_plan(iso)->Ok_0;
    let items = iso.metadata_layout;
    let tables = table_blocks(placed);
    let base = descriptors_end(iso);
    let last = placed.state;
    let nodes = primary_nodes(iso);
    let ordered = primary_order(iso);
    let directories = sized_directories_from(iso, nodes, ordered, 0, Seq::empty())->Ok_0;
    let first = nothing_placed(iso, directories, plan.directories, base as u32);
    joliet_tables_are_placed(iso, lengths, placed);
    parts_are_apart(iso, lengths, placed);
    directories_have_blocks(iso, lengths, placed);
    sized_references_take_nothing(iso, nodes, ordered, 0, Seq::empty());
    nothing_is_apart(iso, directories, plan.directories, tables, base);
    metadata_is_added(items, first, 0, tables, base);
    let state = place_joliet_metadata(
        iso,
        directories,
        plan.directories,
        tables.primary,
        tables.joliet,
    )->Ok_0;
    contents_keep_tables(iso, lengths, state);
    assert(is_unsettled(first.primary)) by {
        assert forall|i: int| 0 <= i < first.primary.placed.len() implies
            !#[trigger] first.primary.placed[i] by {
            let entry = iso.entries[last.primary.placements[i].entry];
            assert(entry.directory_reference is None);
            assert(same_directory(
                last.primary.placements[i],
                sized_directory(iso, nodes, ordered[i])->Ok_0,
            ));
            assert(sized_directory(iso, nodes, ordered[i]) == Ok::<PlacementModel, Failure>(
                directories[i],
            ));
        }
    }
    assert(is_unsettled(first.joliet));
    assert(items.skip(0) =~= items);
    group_is_listed_once(iso, MetadataVolume::Primary);
    group_is_listed_once(iso, MetadataVolume::Joliet);
    metadata_is_settled(items, first, 0, tables.primary, tables.joliet, MetadataVolume::Primary);
    metadata_is_settled(items, first, 0, tables.primary, tables.joliet, MetadataVolume::Joliet);
    settled_stay(state.primary, last.primary, state.next as int);
    settled_stay(state.joliet, last.joliet, state.next as int);
    assert(state.files.len() == 0);
    let end = state.next as int;
    let parts = seq![
        Part::Table { volume: MetadataVolume::Primary, index: 0 },
        Part::Table { volume: MetadataVolume::Primary, index: 2 },
        Part::Table { volume: MetadataVolume::Joliet, index: 0 },
        Part::Table { volume: MetadataVolume::Joliet, index: 2 },
    ];
    assert(takes_blocks(state, tables, parts[0]) && takes_blocks(state, tables, parts[1])
        && takes_blocks(state, tables, parts[2]) && takes_blocks(state, tables, parts[3]));
    end
}

/// Directories that stand one behind the other stay where they are.
proof fn settled_stay(before: TreeModel, after: TreeModel, next: int)
    requires
        is_settled(before, next),
        directories_stay(before, after),
    ensures
        is_settled(after, next),
{
    assert(after.placements =~= before.placements) by {
        assert forall|i: int| 0 <= i < before.placements.len() implies
            #[trigger] after.placements[i] == before.placements[i] by {
            assert(before.placed[i]);
        }
    }
    assert forall|i: int| 0 <= i < after.placed.len() implies #[trigger] after.placed[i] by {
        assert(before.placed[i]);
    }
}

/// Where the metadata area of a filesystem lists both trees as groups, its order is
/// told from an image that was laid out. Left out are directories that are only
/// referred to, and bytes behind the records of a directory whose length is that of its
/// records: neither stands in a group.
#[verifier::rlimit(40)]
#[verifier::spinoff_prover]
pub proof fn metadata_is_told(
    iso: IsoModel,
    lengths: Seq<FileLengthModel>,
    layout: LayoutModel,
    blocks: Seq<Block>,
)
    requires
        is_layout(iso, lengths, layout),
        is_filled(layout, blocks),
        iso.supplementary_volumes.len() == 1,
        versions_are_told(iso.supplementary_volumes[0]),
        iso.metadata_layout.contains(MetadataLayoutItem::Directories(MetadataVolume::Primary)),
        iso.metadata_layout.contains(MetadataLayoutItem::Directories(MetadataVolume::Joliet)),
        forall|i: int|
            0 <= i < places_of(iso, lengths).state.primary.placements.len() ==> {
                let entry = iso.entries[(
                #[trigger] places_of(iso, lengths).state.primary.placements[i]).entry];
                entry.directory_reference is None && (entry.directory_slack is None
                    || iso.directory_length_policy == DirectoryLengthPolicy::Allocated)
            },
    ensures
        told_metadata(iso, places_of(iso, lengths), blocks) is Ok,
{
    let placed = places_of(iso, lengths);
    let state = placed.state;
    let tables = table_blocks(placed);
    let base = descriptors_end(iso);
    assert(placed_filesystem(iso, lengths) == Ok::<Placed, Failure>(placed) && description_check(
        iso,
    ) is Ok) by {
        reveal(is_layout);
        reveal(places_of);
    }
    joliet_layout_is_walkable(iso, lengths, layout, blocks);
    joliet_directories_follow_order(joliet_tree_of(iso, placed));
    layout_holds_parts(iso, lengths, layout);
    filled_holds_parts(iso, lengths, layout, blocks);
    assert(views(blocks).len() == blocks.len());
    let end = metadata_is_grouped(iso, lengths, placed);
    joliet_tables_are_placed(iso, lengths, placed);
    objects_are_listed(state, tables, base, end);
    grouped_are_tellable(state, tables, base, end, filled_image(blocks), blocks);
    let objects = grouped_objects(state, tables);
    let starts = starts_of(objects);
    stable_order_sorts(starts, objects.len() as int);
    order_is_told(
        blocks,
        objects,
        stable_order(starts, objects.len() as int),
        base as u32,
        0,
        MetadataOrder { layout: Seq::empty(), gaps: Seq::empty() },
        base,
        end,
    );
}

} // verus!
