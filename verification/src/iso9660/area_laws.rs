//! What a layout holds besides its files: its descriptors, its gaps, and its XA extents.
use vstd::prelude::*;

use crate::error::{ErrorKind, Failure};
use crate::iso9660::description::{EntryModel, GapItem, IsoModel, ItemModel};
use crate::iso9660::descriptor_write::{descriptor_signature, pvd_block, svd_block};
use crate::iso9660::file_order_laws::{checked_files, metadata_keeps_files};
use crate::iso9660::image_laws::{descriptors_lie, holds_parts, lies_at};
use crate::iso9660::layout::{
    blocks_of, joliet_place, joliet_plan, layout_of, logical_end_from, logical_size, nothing_placed,
    place_joliet_metadata, place_plain_metadata, placed_filesystem, primary_place,
    sized_directories_from, LayoutModel, Placed,
};
use crate::iso9660::layout_laws::{
    image_of_layout, is_layout, layout_holds_parts, places_of, size_of_volume,
};
use crate::iso9660::path_table::find_directory;
use crate::iso9660::placing::{
    flush, flush_from, length_from, place_ancestors, place_directory, place_if_free, place_item,
    place_item_directory, place_item_extent, place_item_file, place_items_from,
    place_reference_parents_from, place_rest_from, FileLengthModel, GapPlacement, PlacingModel,
    XaExtentModel,
};
use crate::iso9660::placing_laws::{descriptors_end, parts_are_apart};
use crate::iso9660::spelling_laws::{
    joliet_descriptor_is_spelled, primary_descriptor_is_spelled, spells_down, spells_up,
};
use crate::iso9660::subheaders::referenced_file;
use crate::iso9660::tree::{directories_of, primary_nodes};
use crate::iso9660::validate::file_item_check;
use crate::manifest::{GapKind, MetadataVolume};
use crate::text::{parent_of, root_path};

verus! {

/// A gap of the layout is a gap of the file area: it has its sectors, its kind, its subheader
/// and says the same of its codes.
pub open spec fn has_gap(gaps: Seq<GapPlacement>, gap: GapItem) -> bool {
    exists|g: int|
        0 <= g < gaps.len() && (#[trigger] gaps[g]).sectors == gap.sectors && gaps[g].kind
            == gap.kind && gaps[g].subheader == gap.subheader && gaps[g].form2_edc == gap.form2_edc
}

/// An XA extent of the layout has a name, and a sector for every 2048 bytes that are given
/// for it.
pub open spec fn has_extent(
    extents: Seq<XaExtentModel>,
    lengths: Seq<FileLengthModel>,
    name: Seq<char>,
) -> bool {
    exists|e: int|
        0 <= e < extents.len() && (#[trigger] extents[e]).index == name && extents[e].sectors > 0
            && length_from(lengths, name, 0) == Some((extents[e].sectors * 2048) as u64)
}

/// A gap ends the image: it is of XA or raw zero sectors.
pub open spec fn ends_image(gap: GapItem) -> bool {
    gap.kind == GapKind::Xa || gap.kind == GapKind::RawZero
}

/// The gap that ends the image, if the file area ends with one.
pub open spec fn final_gap(files: Seq<ItemModel>) -> Option<GapItem> {
    if files.len() > 0 {
        match files[files.len() - 1] {
            ItemModel::Gap { gap } => if ends_image(gap) {
                Some(gap)
            } else {
                None
            },
            _ => None,
        }
    } else {
        None
    }
}

/// Whatever was placed before is there after.
spec fn keeps_area(before: PlacingModel, after: PlacingModel) -> bool {
    &&& forall|gap: GapItem|
        #[trigger] has_gap(before.gaps, gap) ==> has_gap(after.gaps, gap)
    &&& forall|k: int|
        0 <= k < before.pending.len() ==> after.pending.contains(#[trigger] before.pending[k])
            || has_gap(after.gaps, before.pending[k])
    &&& before.xa_extents.len() <= after.xa_extents.len()
    &&& forall|e: int|
        0 <= e < before.xa_extents.len() ==> #[trigger] before.xa_extents[e] == after.xa_extents[e]
    &&& after.trailing == before.trailing
}

/// What was placed of gaps and extents stays as it is.
spec fn same_area(before: PlacingModel, after: PlacingModel) -> bool {
    &&& after.gaps == before.gaps
    &&& after.pending == before.pending
    &&& after.xa_extents == before.xa_extents
    &&& after.trailing == before.trailing
}

proof fn directory_keeps_area(
    state: PlacingModel,
    volume: MetadataVolume,
    index: int,
    overflow: ErrorKind,
)
    ensures
        place_directory(state, volume, index, overflow) matches Ok(after) ==> same_area(state, after),
{
}

proof fn ancestors_keep_area(
    iso: IsoModel,
    state: PlacingModel,
    volume: MetadataVolume,
    path: Seq<char>,
)
    ensures
        place_ancestors(iso, state, volume, path) matches Ok(after) ==> same_area(state, after),
    decreases path.len(),
{
    let parent = parent_of(path);
    if parent != root_path() && parent.len() < path.len() {
        ancestors_keep_area(iso, state, volume, parent);
    }
}

proof fn reference_parents_keep_area(iso: IsoModel, state: PlacingModel, index: int)
    ensures
        place_reference_parents_from(iso, state, index) matches Ok(after) ==> same_area(
            state,
            after,
        ),
    decreases state.primary.placements.len() - index,
{
    let directories = state.primary.placements;
    if 0 <= index < directories.len() {
        if crate::iso9660::placing::holds_reference(iso.entries, directories[index].path) {
            let next = place_if_free(iso, state, MetadataVolume::Primary, index);
            if next is Ok && next->Ok_0.primary.placements.len() == directories.len() {
                reference_parents_keep_area(iso, next->Ok_0, index + 1);
            }
        } else {
            reference_parents_keep_area(iso, state, index + 1);
        }
    }
}

proof fn rest_keeps_area(state: PlacingModel, index: int)
    ensures
        place_rest_from(state, index) matches Ok(after) ==> same_area(state, after),
    decreases state.primary.placements.len() - index,
{
    let directories = state.primary.placements;
    if 0 <= index < directories.len() {
        if !state.primary.placed[index] {
            let next = place_directory(
                state,
                MetadataVolume::Primary,
                index,
                ErrorKind::PlacementOverflow,
            );
            if next is Ok && next->Ok_0.primary.placements.len() == directories.len() {
                rest_keeps_area(next->Ok_0, index + 1);
            }
        } else {
            rest_keeps_area(state, index + 1);
        }
    }
}

/// Waiting gaps are placed.
proof fn gaps_are_flushed(state: PlacingModel, index: int)
    requires
        0 <= index <= state.pending.len(),
    ensures
        flush_from(state, index) matches Ok(after) ==> {
            &&& forall|gap: GapItem|
                #[trigger] has_gap(state.gaps, gap) ==> has_gap(after.gaps, gap)
            &&& forall|k: int|
                index <= k < state.pending.len() ==> has_gap(
                    after.gaps,
                    #[trigger] state.pending[k],
                )
            &&& after.pending.len() == 0
            &&& after.xa_extents == state.xa_extents
            &&& after.trailing == state.trailing
        },
    decreases state.pending.len() - index,
{
    if index < state.pending.len() {
        let gap = state.pending[index];
        if state.next + gap.sectors <= u32::MAX {
            let placed = GapPlacement {
                start: state.next,
                sectors: gap.sectors,
                kind: gap.kind,
                subheader: gap.subheader,
                form2_edc: gap.form2_edc,
            };
            let next = PlacingModel {
                next: (state.next + gap.sectors) as u32,
                gaps: state.gaps.push(placed),
                ..state
            };
            gaps_are_flushed(next, index + 1);
            assert(next.gaps[state.gaps.len() as int] == placed);
            assert(has_gap(next.gaps, gap));
            assert forall|other: GapItem| #[trigger] has_gap(state.gaps, other) implies has_gap(
                next.gaps,
                other,
            ) by {
                let g = choose|g: int|
                    0 <= g < state.gaps.len() && (#[trigger] state.gaps[g]).sectors == other.sectors
                        && state.gaps[g].kind == other.kind && state.gaps[g].subheader
                        == other.subheader && state.gaps[g].form2_edc == other.form2_edc;
                assert(next.gaps[g] == state.gaps[g]);
            }
        }
    }
}

/// What the first items of the file area name is there.
spec fn area_is_held(
    iso: IsoModel,
    lengths: Seq<FileLengthModel>,
    state: PlacingModel,
    count: int,
) -> bool {
    &&& forall|i: int|
        0 <= i < count ==> (#[trigger] iso.files[i] matches ItemModel::Gap { gap } ==> (!ends_image(
            gap,
        ) ==> has_gap(state.gaps, gap) || state.pending.contains(gap)))
    &&& forall|i: int|
        0 <= i < count ==> (#[trigger] iso.files[i] matches ItemModel::XaExtent { assets }
            ==> has_extent(state.xa_extents, lengths, assets.index))
    &&& state.trailing == (if count < iso.files.len() {
        None
    } else {
        final_gap(iso.files)
    })
}

proof fn area_stays_held(
    iso: IsoModel,
    lengths: Seq<FileLengthModel>,
    before: PlacingModel,
    after: PlacingModel,
    count: int,
)
    requires
        area_is_held(iso, lengths, before, count),
        keeps_area(before, after),
        0 <= count <= iso.files.len(),
    ensures
        area_is_held(iso, lengths, after, count),
{
    assert forall|i: int| 0 <= i < count implies (#[trigger] iso.files[i] matches ItemModel::Gap {
        gap,
    } ==> (!ends_image(gap) ==> has_gap(after.gaps, gap) || after.pending.contains(gap))) by {
        if let ItemModel::Gap { gap } = iso.files[i] {
            if !ends_image(gap) && !has_gap(before.gaps, gap) {
                assert(before.pending.contains(gap));
                let k = choose|k: int| 0 <= k < before.pending.len() && before.pending[k] == gap;
                assert(before.pending[k] == gap);
            }
        }
    }
    assert forall|i: int| 0 <= i < count implies (
    #[trigger] iso.files[i] matches ItemModel::XaExtent { assets } ==> has_extent(
        after.xa_extents,
        lengths,
        assets.index,
    )) by {
        if let ItemModel::XaExtent { assets } = iso.files[i] {
            assert(has_extent(before.xa_extents, lengths, assets.index));
            let e = choose|e: int|
                0 <= e < before.xa_extents.len() && (#[trigger] before.xa_extents[e]).index
                    == assets.index && before.xa_extents[e].sectors > 0 && length_from(
                    lengths,
                    assets.index,
                    0,
                ) == Some((before.xa_extents[e].sectors * 2048) as u64);
            assert(after.xa_extents[e] == before.xa_extents[e]);
        }
    }
}

proof fn flush_keeps_area(state: PlacingModel)
    ensures
        flush(state) matches Ok(after) ==> keeps_area(state, after) && after.pending.len() == 0,
{
    gaps_are_flushed(state, 0);
}

proof fn item_is_held(
    iso: IsoModel,
    lengths: Seq<FileLengthModel>,
    state: PlacingModel,
    index: int,
)
    requires
        0 <= index < iso.files.len(),
        file_item_check(iso, index) is Ok,
        area_is_held(iso, lengths, state, index),
    ensures
        place_item(iso, lengths, state, iso.files[index]) matches Ok(after) ==> area_is_held(
            iso,
            lengths,
            after,
            index + 1,
        ),
{
    let item = iso.files[index];
    let next = place_item(iso, lengths, state, item);
    if next is Ok {
        let after = next->Ok_0;
        match item {
            ItemModel::Directory { volume, path } => {
                ancestors_keep_area(iso, state, volume, path);
                let above = place_ancestors(iso, state, volume, path)->Ok_0;
                flush_keeps_area(above);
                let flushed = flush(above)->Ok_0;
                let at = find_directory(flushed.tree(volume).placements, path);
                directory_keeps_area(flushed, volume, at, ErrorKind::PlacementOverflow);
                assert(place_item_directory(iso, state, volume, path) == next);
                assert(keeps_area(state, after));
                area_stays_held(iso, lengths, state, after, index);
            },
            ItemModel::Path { path } => {
                ancestors_keep_area(iso, state, MetadataVolume::Primary, path);
                let above = place_ancestors(iso, state, MetadataVolume::Primary, path)->Ok_0;
                flush_keeps_area(above);
                assert(place_item_file(iso, lengths, state, path) == next);
                assert(keeps_area(state, after));
                area_stays_held(iso, lengths, state, after, index);
            },
            ItemModel::XaExtent { assets } => {
                flush_keeps_area(state);
                let flushed = flush(state)->Ok_0;
                let length = length_from(lengths, assets.index, 0)->Some_0;
                assert(place_item_extent(lengths, state, assets.index) == next);
                let extent = after.xa_extents[flushed.xa_extents.len() as int];
                assert(extent.index == assets.index && extent.sectors == length / 2048);
                assert(length == extent.sectors * 2048);
                assert(has_extent(after.xa_extents, lengths, assets.index));
                assert forall|e: int| 0 <= e < state.xa_extents.len() implies
                    #[trigger] state.xa_extents[e] == after.xa_extents[e] by {}
                assert(keeps_area(state, after));
                area_stays_held(iso, lengths, state, after, index);
            },
            ItemModel::Gap { gap } => {
                if ends_image(gap) {
                    assert(index == iso.files.len() - 1);
                    let kept = PlacingModel { trailing: state.trailing, ..after };
                    assert forall|k: int| 0 <= k < state.pending.len() implies
                        kept.pending.contains(#[trigger] state.pending[k]) by {
                        assert(kept.pending[k] == state.pending[k]);
                    }
                    assert(keeps_area(state, kept));
                    area_stays_held(iso, lengths, state, kept, index);
                } else {
                    assert(after.pending[state.pending.len() as int] == gap);
                    assert forall|k: int| 0 <= k < state.pending.len() implies
                        after.pending.contains(#[trigger] state.pending[k]) by {
                        assert(after.pending[k] == state.pending[k]);
                    }
                    assert(keeps_area(state, after));
                    area_stays_held(iso, lengths, state, after, index);
                }
            },
        }
    }
}

proof fn items_are_held(
    iso: IsoModel,
    lengths: Seq<FileLengthModel>,
    state: PlacingModel,
    index: int,
)
    requires
        0 <= index <= iso.files.len(),
        forall|j: int| 0 <= j < iso.files.len() ==> #[trigger] file_item_check(iso, j) is Ok,
        area_is_held(iso, lengths, state, index),
    ensures
        place_items_from(iso, lengths, state, index) matches Ok(after) ==> area_is_held(
            iso,
            lengths,
            after,
            iso.files.len() as int,
        ),
    decreases iso.files.len() - index,
{
    if index < iso.files.len() {
        assert(file_item_check(iso, index) is Ok);
        item_is_held(iso, lengths, state, index);
        if let Ok(next) = place_item(iso, lengths, state, iso.files[index]) {
            items_are_held(iso, lengths, next, index + 1);
        }
    }
}

/// The gaps and the XA extents of the file area are those of a layout: every gap but one that
/// ends the image is there with its sectors and its kind, and every extent with a sector for
/// each 2048 bytes that are given for it. The volume is as long as its blocks and the gap that
/// ends it, whose kind the layout tells.
pub proof fn gaps_and_extents_are_placed(
    iso: IsoModel,
    lengths: Seq<FileLengthModel>,
    layout: LayoutModel,
)
    requires
        layout_of(iso, lengths) == Ok::<LayoutModel, Failure>(layout),
    ensures
        forall|i: int|
            0 <= i < iso.files.len() ==> (#[trigger] iso.files[i] matches ItemModel::Gap { gap }
                ==> (!ends_image(gap) ==> has_gap(layout.gaps, gap))),
        forall|i: int|
            0 <= i < iso.files.len() ==> (#[trigger] iso.files[i] matches ItemModel::XaExtent {
                assets,
            } ==> has_extent(layout.xa_extents, lengths, assets.index)),
        match final_gap(iso.files) {
            Some(gap) => layout.trailing_gap_kind == Some(gap.kind) && layout.volume_blocks
                == layout.blocks.len() + gap.sectors,
            None => layout.trailing_gap_kind is None && layout.volume_blocks == layout.blocks.len(),
        },
{
    checked_files(iso);
    let placed = placed_filesystem(iso, lengths)->Ok_0;
    let directories = sized_directories_from(
        iso,
        primary_nodes(iso),
        directories_of(primary_nodes(iso), ErrorKind::UnreachableDirectory)->Ok_0,
        0,
        Seq::empty(),
    )->Ok_0;
    let start = if iso.supplementary_volumes.len() > 0 {
        let plan = joliet_plan(iso)->Ok_0;
        metadata_keeps_files(
            iso.metadata_layout,
            nothing_placed(
                iso,
                directories,
                plan.directories,
                (17 + iso.primary_volume_copies + iso.supplementary_volumes.len()) as u32,
            ),
            placed.table.blocks,
            plan.table.blocks,
            0,
        );
        place_joliet_metadata(
            iso,
            directories,
            plan.directories,
            placed.table.blocks,
            plan.table.blocks,
        )->Ok_0
    } else {
        place_plain_metadata(iso, directories, placed.table.blocks)->Ok_0
    };
    assert(start.trailing is None);
    reference_parents_keep_area(iso, start, 1);
    let second = place_reference_parents_from(iso, start, 1)->Ok_0;
    assert(area_is_held(iso, lengths, second, 0));
    items_are_held(iso, lengths, second, 0);
    let third = place_items_from(iso, lengths, second, 0)->Ok_0;
    let fourth = if iso.supplementary_volumes.len() > 0 {
        third
    } else {
        rest_keeps_area(third, 0);
        place_rest_from(third, 0)->Ok_0
    };
    assert(area_is_held(iso, lengths, fourth, iso.files.len() as int));
    flush_keeps_area(fourth);
    assert(flush(fourth) == Ok::<PlacingModel, Failure>(placed.state));
    area_stays_held(iso, lengths, fourth, placed.state, iso.files.len() as int);
    assert forall|i: int| 0 <= i < iso.files.len() implies (
    #[trigger] iso.files[i] matches ItemModel::Gap { gap } ==> (!ends_image(gap) ==> has_gap(
        layout.gaps,
        gap,
    ))) by {}
    assert(is_layout(iso, lengths, layout)) by {
        reveal(is_layout);
    }
    layout_holds_parts(iso, lengths, layout);
    reveal(places_of);
    assert(layout.blocks.len() == placed.state.next) by {
        let image = image_of_layout(iso, lengths);
        assert(image.len() == placed.state.next * 2048);
        assert(image.len() / 2048 == placed.state.next);
    }
}

/// The descriptors lie in the image of a layout.
proof fn descriptors_are_there(
    iso: IsoModel,
    lengths: Seq<FileLengthModel>,
    layout: LayoutModel,
)
    requires
        layout_of(iso, lengths) == Ok::<LayoutModel, Failure>(layout),
    ensures
        descriptors_lie(
            iso,
            places_of(iso, lengths),
            size_of_volume(iso, lengths),
            image_of_layout(iso, lengths),
        ),
        layout.blocks == blocks_of(image_of_layout(iso, lengths)),
        image_of_layout(iso, lengths).len() % 2048 == 0,
        places_of(iso, lengths).state.tables.len() == 4,
        places_of(iso, lengths).state.joliet_tables.len() == 4,
        (places_of(iso, lengths).joliet is Some) == (iso.supplementary_volumes.len() > 0),
        iso.supplementary_volumes.len() <= 1,
{
    assert(is_layout(iso, lengths, layout)) by {
        reveal(is_layout);
    }
    layout_holds_parts(iso, lengths, layout);
    let placed = places_of(iso, lengths);
    assert(placed_filesystem(iso, lengths) == Ok::<Placed, Failure>(placed)) by {
        reveal(places_of);
    }
    parts_are_apart(iso, lengths, placed);
    assert(descriptors_lie(
        iso,
        placed,
        size_of_volume(iso, lengths),
        image_of_layout(iso, lengths),
    )) by {
        reveal(holds_parts);
    }
    assert(image_of_layout(iso, lengths).len() == placed.state.next * 2048);
}

/// Block 16 of a layout and its copies behind it are primary descriptors, and tell how large
/// the volume is, how large its path tables are, and where they and the root lie.
pub proof fn primary_descriptor_tells_where_parts_lie(
    iso: IsoModel,
    lengths: Seq<FileLengthModel>,
    layout: LayoutModel,
    at: int,
)
    requires
        layout_of(iso, lengths) == Ok::<LayoutModel, Failure>(layout),
        16 <= at < 16 + iso.primary_volume_copies,
    ensures
        ({
            let block = layout.blocks[at];
            let placed = places_of(iso, lengths);
            let root = placed.state.primary.placements[0];
            &&& block[0] == 1
            &&& spells_up(block, 80, size_of_volume(iso, lengths))
            &&& spells_up(block, 132, placed.table.size)
            &&& spells_up(block, 140, placed.state.tables[0])
            &&& spells_up(block, 144, placed.state.tables[1])
            &&& spells_down(block, 148, placed.state.tables[2])
            &&& spells_down(block, 152, placed.state.tables[3])
            &&& spells_up(block, 158, root.extent)
            &&& spells_down(block, 162, root.extent)
            &&& spells_up(block, 166, root.length)
            &&& spells_down(block, 170, root.length)
        }),
{
    descriptors_are_there(iso, lengths, layout);
    let placed = places_of(iso, lengths);
    let image = image_of_layout(iso, lengths);
    let size = size_of_volume(iso, lengths);
    let place = primary_place(placed.state, placed.table, size);
    let pvd = pvd_block(iso.primary_volume, place, iso.entries[0])->Ok_0;
    primary_descriptor_is_spelled(iso.primary_volume, place, iso.entries[0], pvd);
    assert(lies_at(image, 16 + (at - 16), pvd));
    block_lies(image, at, pvd);
}

/// The block behind the primary descriptors of a layout with a Joliet tree is its descriptor,
/// and tells where the path tables and the root of the tree lie.
pub proof fn joliet_descriptor_tells_where_parts_lie(
    iso: IsoModel,
    lengths: Seq<FileLengthModel>,
    layout: LayoutModel,
)
    requires
        layout_of(iso, lengths) == Ok::<LayoutModel, Failure>(layout),
        iso.supplementary_volumes.len() > 0,
    ensures
        ({
            let block = layout.blocks[16 + iso.primary_volume_copies];
            let placed = places_of(iso, lengths);
            let root = placed.state.joliet.placements[0];
            &&& block[0] == 2
            &&& spells_up(block, 140, placed.state.joliet_tables[0])
            &&& spells_up(block, 144, placed.state.joliet_tables[1])
            &&& spells_down(block, 148, placed.state.joliet_tables[2])
            &&& spells_down(block, 152, placed.state.joliet_tables[3])
            &&& spells_up(block, 158, root.extent)
            &&& spells_down(block, 162, root.extent)
            &&& spells_up(block, 166, root.length)
            &&& spells_down(block, 170, root.length)
        }),
{
    descriptors_are_there(iso, lengths, layout);
    let placed = places_of(iso, lengths);
    let image = image_of_layout(iso, lengths);
    let size = size_of_volume(iso, lengths);
    let copies = iso.primary_volume_copies as int;
    let plan = placed.joliet->Some_0;
    let there = joliet_place(placed.state, plan.table, size);
    let svd = svd_block(iso.supplementary_volumes[0], there)->Ok_0;
    assert(lies_at(image, 16 + copies, svd));
    joliet_descriptor_is_spelled(iso.supplementary_volumes[0], there, svd);
    block_lies(image, 16 + copies, svd);
}

/// The block behind the descriptors of a layout ends them: its kind is 255.
pub proof fn descriptors_are_ended(
    iso: IsoModel,
    lengths: Seq<FileLengthModel>,
    layout: LayoutModel,
)
    requires
        layout_of(iso, lengths) == Ok::<LayoutModel, Failure>(layout),
    ensures
        ({
            let block = layout.blocks[16 + iso.primary_volume_copies
                + iso.supplementary_volumes.len()];
            &&& block[0] == 255
            &&& block[1] as char == 'C' && block[2] as char == 'D' && block[3] as char == '0'
                && block[4] as char == '0' && block[5] as char == '1'
            &&& block[6] == 1
        }),
{
    descriptors_are_there(iso, lengths, layout);
    let image = image_of_layout(iso, lengths);
    let end = descriptors_end(iso) - 1;
    let last = descriptor_signature(255);
    assert(lies_at(image, end, last));
    let part = image.subrange(end * 2048, end * 2048 + 7);
    assert(part == last);
    assert(end * 2048 + 7 <= image.len());
    assert(end < image.len() / 2048);
    let block = layout.blocks[end];
    assert(block == image.subrange(end * 2048, end * 2048 + 2048));
    assert(part[0] == block[0] && part[1] == block[1] && part[2] == block[2] && part[3] == block[3]
        && part[4] == block[4] && part[5] == block[5] && part[6] == block[6]);
}

proof fn block_lies(image: Seq<u8>, extent: int, data: Seq<u8>)
    requires
        0 <= extent,
        image.len() % 2048 == 0,
        data.len() == 2048,
        lies_at(image, extent, data),
    ensures
        blocks_of(image)[extent] == data,
        extent < blocks_of(image).len(),
{
    assert(image.len() / 2048 * 2048 == image.len());
    assert(extent < image.len() / 2048);
}

/// The size of the volume that the descriptors record is the one that is given, or else the
/// end of the image or of the last fixed extent, whichever is further.
pub proof fn volume_reaches_its_last_extent(iso: IsoModel, state: PlacingModel, end: u32)
    ensures
        logical_size(iso, state, end) matches Ok(size) ==> {
            &&& iso.primary_volume.volume_space_size matches Some(given) ==> size == given && given
                > 0
            &&& iso.primary_volume.volume_space_size is None ==> {
                &&& size >= end
                &&& forall|i: int|
                    0 <= i < iso.entries.len() && (#[trigger] iso.entries[i]).extent is Some
                        ==> reaches(iso.entries[i], size as int)
                &&& size == end || exists|i: int|
                    0 <= i < iso.entries.len() && (#[trigger] iso.entries[i]).extent is Some
                        && reaches(iso.entries[i], size as int) && !reaches(
                        iso.entries[i],
                        size - 1,
                    )
            }
        },
{
    if logical_size(iso, state, end) is Ok {
        end_is_found(iso.entries, end, 0);
    }
}

/// A fixed extent with its length lies before a block.
pub open spec fn reaches(entry: EntryModel, end: int) -> bool {
    (match entry.length {
        Some(length) => length as int,
        None => 0,
    }) <= (end - entry.extent->Some_0) * 2048
}

proof fn end_is_found(entries: Seq<EntryModel>, end: u32, index: int)
    requires
        0 <= index <= entries.len(),
        logical_end_from(entries, end, index) is Ok,
    ensures
        ({
            let size = logical_end_from(entries, end, index)->Ok_0;
            &&& size >= end
            &&& forall|i: int|
                index <= i < entries.len() && (#[trigger] entries[i]).extent is Some ==> reaches(
                    entries[i],
                    size as int,
                )
            &&& size == end || exists|i: int|
                index <= i < entries.len() && (#[trigger] entries[i]).extent is Some && reaches(
                    entries[i],
                    size as int,
                ) && !reaches(entries[i], size - 1)
        }),
    decreases entries.len() - index,
{
    if index < entries.len() {
        if entries[index].extent is None {
            end_is_found(entries, end, index + 1);
        } else {
            let file = referenced_file(entries[index]);
            let further = if file.extent + file.blocks > end {
                (file.extent + file.blocks) as u32
            } else {
                end
            };
            end_is_found(entries, further, index + 1);
            let size = logical_end_from(entries, end, index)->Ok_0;
            assert(reaches(entries[index], file.extent + file.blocks));
            if size == further && further != end {
                assert(!reaches(entries[index], size - 1)) by {
                    assert(file.extent + file.blocks > end);
                }
            }
        }
    }
}

} // verus!
