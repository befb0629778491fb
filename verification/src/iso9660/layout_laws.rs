//! What a filesystem is laid out as is read back from its image.
use vstd::prelude::*;

use crate::bytes::{fill, put};
use crate::error::{ErrorKind, Failure};
use crate::iso9660::description::{IsoModel, SlackModel};
use crate::iso9660::directory::{
    child_record, child_records_from, directory_bytes, directory_records, has_room, node_record,
    pack_records_from, pack_records_grow, parent_record, FileModel, SpotModel, TreeOptions,
};
use crate::iso9660::directory_laws::{
    directory_is_read, directory_models, is_quiet_after, layout_length, node_model,
    node_record_tells, packing_is_local, packs_plainly, records_end, shows, slack_is_told,
    told_slack,
};
use crate::iso9660::image_laws::{
    directory_fills_blocks, directory_is_held, files_are_blank, holds_parts, image_holds_parts,
    in_part, is_blank_elsewhere, lies_at, padding_is_owned, parts_stay, primary_directory_lies,
    unpadded_image,
};
use crate::iso9660::layout::{
    blocks_of, directories_have_room, image_keeps_size, image_of, joliet_options, joliet_spots,
    layout_of, logical_size, placed_filesystem, primary_options, primary_spots, sized_directory,
    sized_joliet_directory, trailing_sectors, with_paddings_from, LayoutModel, Placed,
};
use crate::iso9660::path_table::{extent_bytes, extent_inside, PlacementModel};
use crate::iso9660::placing::{FileLengthModel, PlacingModel};
use crate::iso9660::placing_laws::{
    are_sized, descriptors_end, parts_are_apart, primary_order, same_directory, table_blocks, Part,
};
use crate::iso9660::read::directory_contents;
use crate::iso9660::record::{size_of_record, RecordModel};
use crate::iso9660::tree::{
    child_lengths_from, child_lengths_keep, directories_of, is_child, packed_from,
    packed_from_grows, primary_nodes, record_lengths, record_start, records_length, system_use_size,
    NodeModel,
};
use crate::iso9660::validate::{description_check, entry_check, entry_checks, version_fits};
use crate::manifest::DirectoryRecordPacking;
use crate::model::{first_failure_ok, views};
use crate::raw_cd::Block;

verus! {

/// What holds of every description that is laid out.
pub open spec fn is_regular(iso: IsoModel) -> bool {
    &&& padding_is_owned(iso.entries)
    &&& iso.supplementary_volumes.len() <= 1
    &&& 1 <= iso.primary_volume_copies <= 3
    &&& version_fits(iso.primary_volume.file_structure_version)
}

proof fn checked_is_regular(iso: IsoModel)
    requires
        description_check(iso) is Ok,
    ensures
        is_regular(iso),
        forall|i: int| 0 <= i < iso.entries.len() ==> #[trigger] entry_check(iso, i) is Ok,
{
    let checks = entry_checks(iso);
    first_failure_ok(checks, 0, iso.entries.len() as int);
    assert forall|i: int| 0 <= i < iso.entries.len() implies #[trigger] entry_check(
        iso,
        i,
    ) is Ok by {
        assert(checks(i) is Ok);
    }
    assert forall|i: int|
        0 <= i < iso.entries.len() && (#[trigger] iso.entries[i]).allocation_padding_hex is Some
        implies iso.entries[i].extent is None by {
        assert(entry_check(iso, i) is Ok);
    }
}

/// The places that a layout gives the parts of a filesystem.
#[verifier::opaque]
pub open spec fn places_of(iso: IsoModel, lengths: Seq<FileLengthModel>) -> Placed {
    placed_filesystem(iso, lengths)->Ok_0
}

/// The size that a layout records for the volume.
#[verifier::opaque]
pub open spec fn size_of_volume(iso: IsoModel, lengths: Seq<FileLengthModel>) -> u32 {
    let state = places_of(iso, lengths).state;
    logical_size(iso, state, (state.next + trailing_sectors(state.trailing)) as u32)->Ok_0
}

/// The image of a layout.
#[verifier::opaque]
pub open spec fn image_of_layout(iso: IsoModel, lengths: Seq<FileLengthModel>) -> Seq<u8> {
    image_of(iso, places_of(iso, lengths), size_of_volume(iso, lengths))->Ok_0
}

/// A layout is that of a filesystem whose files have the given sizes.
#[verifier::opaque]
pub open spec fn is_layout(iso: IsoModel, lengths: Seq<FileLengthModel>, layout: LayoutModel) -> bool {
    layout_of(iso, lengths) == Ok::<LayoutModel, Failure>(layout)
}

/// The blocks of a layout hold its parts: every descriptor, path table and
/// directory, whole and where it was placed. Behind the descriptors they are zero
/// wherever no path table, directory or file was placed.
pub proof fn layout_holds_parts(iso: IsoModel, lengths: Seq<FileLengthModel>, layout: LayoutModel)
    requires
        is_layout(iso, lengths, layout),
    ensures
        is_regular(iso),
        layout.blocks == blocks_of(image_of_layout(iso, lengths)),
        image_of_layout(iso, lengths).len() == places_of(iso, lengths).state.next * 2048,
        are_sized(iso, places_of(iso, lengths).state.primary.placements),
        holds_parts(
            iso,
            places_of(iso, lengths),
            size_of_volume(iso, lengths),
            image_of_layout(iso, lengths),
        ),
        is_blank_elsewhere(
            places_of(iso, lengths).state,
            table_blocks(places_of(iso, lengths)),
            descriptors_end(iso),
            image_of_layout(iso, lengths),
        ),
        files_are_blank(
            places_of(iso, lengths).state,
            table_blocks(places_of(iso, lengths)),
            unpadded_image(iso, places_of(iso, lengths), size_of_volume(iso, lengths)),
        ),
        unpadded_image(iso, places_of(iso, lengths), size_of_volume(iso, lengths)).len()
            == image_of_layout(iso, lengths).len(),
        with_paddings_from(
            unpadded_image(iso, places_of(iso, lengths), size_of_volume(iso, lengths)),
            iso.entries,
            places_of(iso, lengths).state.files,
            0,
        ) == Ok::<Seq<u8>, Failure>(image_of_layout(iso, lengths)),
{
    reveal(is_layout);
    reveal(unpadded_image);
    reveal(places_of);
    reveal(size_of_volume);
    reveal(image_of_layout);
    let placed = places_of(iso, lengths);
    let size = size_of_volume(iso, lengths);
    let image = image_of_layout(iso, lengths);
    checked_is_regular(iso);
    parts_are_apart(iso, lengths, placed);
    image_keeps_size(iso, placed, size);
    assert(placed.table.blocks > 0);
    assert(placed.joliet matches Some(plan) ==> plan.table.blocks > 0);
    image_holds_parts(iso, placed, size, image);
}

/// An offset lies in the data of a file that was placed.
pub open spec fn in_data(file: FileModel, offset: int) -> bool {
    file.extent * 2048 <= offset < file.extent * 2048 + file.length && offset < (file.extent
        + file.blocks) * 2048
}

/// Blocks are those that were laid out, with any data in the files.
#[verifier::opaque]
pub open spec fn is_filled(layout: LayoutModel, blocks: Seq<Block>) -> bool {
    &&& blocks.len() == layout.blocks.len()
    &&& forall|b: int, i: int|
        0 <= b < blocks.len() && 0 <= i < 2048 && #[trigger] blocks[b]@[i] != layout.blocks[b][i]
            ==> exists|f: int|
            0 <= f < layout.files.len() && #[trigger] in_data(layout.files[f], b * 2048 + i)
}

/// The bytes of blocks.
pub open spec fn filled_image(blocks: Seq<Block>) -> Seq<u8> {
    Seq::new((blocks.len() * 2048) as nat, |offset: int| blocks[offset / 2048]@[offset % 2048])
}

/// The blocks that were laid out are such blocks, with nothing in the files.
pub proof fn layout_is_filled(layout: LayoutModel, blocks: Seq<Block>)
    requires
        views(blocks) == layout.blocks,
    ensures
        is_filled(layout, blocks),
{
    reveal(is_filled);
    assert(views(blocks).len() == blocks.len());
    assert forall|b: int, i: int|
        0 <= b < blocks.len() && 0 <= i < 2048 implies #[trigger] blocks[b]@[i]
        == layout.blocks[b][i] by {
        assert(views(blocks)[b] == blocks[b]@);
    }
}

/// The blocks of a layout hold its parts whatever the data of its files.
pub proof fn filled_holds_parts(
    iso: IsoModel,
    lengths: Seq<FileLengthModel>,
    layout: LayoutModel,
    blocks: Seq<Block>,
)
    requires
        is_layout(iso, lengths, layout),
        is_filled(layout, blocks),
    ensures
        views(blocks) == blocks_of(filled_image(blocks)),
        blocks.len() == places_of(iso, lengths).state.next,
        filled_image(blocks).len() == places_of(iso, lengths).state.next * 2048,
        holds_parts(
            iso,
            places_of(iso, lengths),
            size_of_volume(iso, lengths),
            filled_image(blocks),
        ),
        is_blank_elsewhere(
            places_of(iso, lengths).state,
            table_blocks(places_of(iso, lengths)),
            descriptors_end(iso),
            filled_image(blocks),
        ),
        forall|offset: int|
            0 <= offset < filled_image(blocks).len() && image_of_layout(iso, lengths)[offset]
                != #[trigger] filled_image(blocks)[offset] ==> exists|f: int|
                0 <= f < places_of(iso, lengths).state.files.len() && #[trigger] in_data(
                    places_of(iso, lengths).state.files[f],
                    offset,
                ),
{
    layout_holds_parts(iso, lengths, layout);
    let placed = places_of(iso, lengths);
    let image = image_of_layout(iso, lengths);
    let filled = filled_image(blocks);
    let tables = table_blocks(placed);
    let state = placed.state;
    assert(placed_filesystem(iso, lengths) == Ok::<Placed, Failure>(placed) && layout.files
        == state.files) by {
        reveal(is_layout);
        reveal(places_of);
    }
    assert(blocks.len() == layout.blocks.len()) by {
        reveal(is_filled);
    }
    assert(blocks_of(image).len() == image.len() / 2048);
    assert(blocks_of(filled) =~= views(blocks)) by {
        assert forall|b: int| 0 <= b < blocks.len() implies blocks_of(filled)[b] == #[trigger] views(
            blocks,
        )[b] by {
            assert(blocks_of(filled)[b] == filled.subrange(b * 2048, b * 2048 + 2048));
            let read = filled.subrange(b * 2048, b * 2048 + 2048);
            assert forall|i: int| 0 <= i < 2048 implies #[trigger] read[i] == blocks[b]@[i] by {
                assert((b * 2048 + i) / 2048 == b && (b * 2048 + i) % 2048 == i);
            }
            assert(read =~= blocks[b]@);
        }
    }
    assert forall|offset: int|
        0 <= offset < filled.len() && image[offset] != #[trigger] filled[offset] implies exists|
        f: int,
    | 0 <= f < state.files.len() && #[trigger] in_data(state.files[f], offset) by {
        reveal(is_filled);
        let b = offset / 2048;
        let i = offset % 2048;
        assert(layout.blocks[b] == image.subrange(b * 2048, b * 2048 + 2048));
        assert(layout.blocks[b][i] == image[offset]);
        assert(blocks[b]@[i] == filled[offset]);
        assert(b * 2048 + i == offset);
    }
    assert forall|offset: int|
        0 <= offset < image.len() && image[offset] != #[trigger] filled[offset] implies exists|
        j: int,
    | #[trigger] in_part(state, tables, Part::File { index: j }, offset) by {
        let f = choose|f: int|
            0 <= f < state.files.len() && #[trigger] in_data(state.files[f], offset);
        assert(in_part(state, tables, Part::File { index: f }, offset));
    }
    parts_are_apart(iso, lengths, placed);
    assert(placed.table.blocks > 0);
    assert(placed.joliet matches Some(plan) ==> plan.table.blocks > 0);
    parts_stay(iso, placed, size_of_volume(iso, lengths), image, filled);
}

/// What lies at an extent of an image is read from its blocks.
pub proof fn extent_is_read(image: Seq<u8>, blocks: Seq<Block>, extent: int, data: Seq<u8>, size: int)
    requires
        views(blocks) == blocks_of(image),
        image.len() % 2048 == 0,
        lies_at(image, extent, data),
        0 <= size <= data.len(),
        0 <= extent,
    ensures
        extent_inside(blocks, extent, size),
        extent_bytes(blocks, extent, size) == data.take(size),
{
    assert(views(blocks).len() == blocks.len());
    assert(blocks.len() == image.len() / 2048);
    let read = extent_bytes(blocks, extent, size);
    assert forall|k: int| 0 <= k < size implies read[k] == data[k] by {
        let b = extent + k / 2048;
        assert(b < blocks.len());
        assert(views(blocks)[b] == blocks[b]@);
        assert(blocks_of(image)[b] == image.subrange(b * 2048, b * 2048 + 2048));
        assert(blocks[b]@[k % 2048] == image[b * 2048 + k % 2048]);
        assert(b * 2048 + k % 2048 == extent * 2048 + k);
        assert(image.subrange(extent * 2048, extent * 2048 + data.len())[k] == data[k]);
    }
    assert(read =~= data.take(size));
}

/// The lengths of records.
spec fn lengths_of(records: Seq<Seq<u8>>) -> Seq<int> {
    Seq::new(records.len(), |i: int| records[i].len() as int)
}

/// The record of a node is as long as was reckoned.
proof fn node_record_length(
    node: NodeModel,
    extent: u32,
    length: u32,
    name: Seq<u8>,
    directory: bool,
    trailing: bool,
    system_use: bool,
)
    ensures
        node_record(node, extent, length, name, directory, trailing, system_use) matches Ok(record)
            ==> record.len() == size_of_record(name.len() as int, system_use_size(system_use)),
{
    if node_record(node, extent, length, name, directory, trailing, system_use) is Ok {
        node_record_tells(node, extent, length, name, directory, trailing, system_use);
        layout_length(node_model(node, extent, length, name, directory, trailing, system_use));
    }
}

/// The records of what lies in a directory are as long as was reckoned.
proof fn child_lengths_hold(
    nodes: Seq<NodeModel>,
    spots: Seq<SpotModel>,
    path: Seq<char>,
    trailing: bool,
    index: int,
    made: Seq<Seq<u8>>,
)
    requires
        0 <= index,
    ensures
        child_records_from(nodes, spots, path, trailing, index, made) matches Ok(records)
            ==> lengths_of(records) == child_lengths_from(nodes, path, index, lengths_of(made)),
    decreases nodes.len() - index,
{
    if index < nodes.len() {
        if is_child(nodes[index], path) {
            let node = nodes[index];
            if let Ok(record) = child_record(node, spots[index], trailing) {
                node_record_length(
                    node,
                    spots[index].extent,
                    spots[index].length->Ok_0,
                    node.identifier,
                    node.directory,
                    trailing,
                    node.system_use,
                );
                assert(lengths_of(made.push(record)) =~= lengths_of(made).push(
                    record.len() as int,
                ));
                child_lengths_hold(nodes, spots, path, trailing, index + 1, made.push(record));
            }
        } else {
            child_lengths_hold(nodes, spots, path, trailing, index + 1, made);
        }
    }
}

/// Records are packed as far as was reckoned.
proof fn packing_reaches(
    records: Seq<Seq<u8>>,
    index: int,
    offset: int,
    written: Seq<u8>,
    packing: DirectoryRecordPacking,
)
    requires
        0 <= index,
    ensures
        pack_records_from(records, index, offset, written, packing).1 == packed_from(
            lengths_of(records),
            index,
            offset,
            packing,
        ),
    decreases records.len() - index,
{
    if index < records.len() {
        let record = records[index];
        let start = record_start(offset, record.len() as int, packing);
        assert(lengths_of(records)[index] == record.len());
        packing_reaches(
            records,
            index + 1,
            start + record.len(),
            put(written, start, record),
            packing,
        );
    }
}

/// The records of a directory end where was reckoned.
pub proof fn records_end_as_reckoned(
    nodes: Seq<NodeModel>,
    spots: Seq<SpotModel>,
    directory: PlacementModel,
    parent: PlacementModel,
    options: TreeOptions,
)
    requires
        directory_records(nodes, spots, directory, parent, options) is Ok,
    ensures
        records_end(nodes, spots, directory, parent, options) == records_length(
            nodes,
            directory.path,
            options.xa_system_use,
            options.packing,
        ),
{
    node_record_length(
        nodes[directory.entry],
        directory.extent,
        directory.length,
        seq![0u8],
        true,
        options.trailing_system_use_padding,
        options.xa_system_use,
    );
    node_record_length(
        nodes[parent.entry],
        parent.extent,
        parent.length,
        seq![1u8],
        true,
        options.trailing_system_use_padding,
        options.xa_system_use,
    );
    let own = node_record(
        nodes[directory.entry],
        directory.extent,
        directory.length,
        seq![0u8],
        true,
        options.trailing_system_use_padding,
        options.xa_system_use,
    )->Ok_0;
    let above = parent_record(nodes, directory, parent, options)->Ok_0;
    let dot = size_of_record(1, system_use_size(options.xa_system_use));
    assert(lengths_of(seq![own, above]) =~= seq![dot, dot]);
    child_lengths_hold(
        nodes,
        spots,
        directory.path,
        options.trailing_system_use_padding,
        0,
        seq![own, above],
    );
    packing_reaches(
        directory_records(nodes, spots, directory, parent, options)->Ok_0,
        0,
        0,
        fill((directory.blocks * 2048) as nat, 0),
        options.packing,
    );
}

/// A directory's records fit its blocks and its recorded length.
pub proof fn records_fit(iso: IsoModel, directories: Seq<PlacementModel>, index: int)
    requires
        are_sized(iso, directories),
        0 <= index < directories.len(),
        iso.entries[directories[index].entry].directory_reference is None,
    ensures
        ({
            let directory = directories[index];
            let records = records_length(
                primary_nodes(iso),
                directory.path,
                iso.xa_system_use,
                iso.directory_record_packing,
            );
            records <= directory.length <= directory.blocks * 2048
        }),
{
    let nodes = primary_nodes(iso);
    let ordered = primary_order(iso);
    let sized = sized_directory(iso, nodes, ordered[index])->Ok_0;
    assert(same_directory(directories[index], sized));
    records_are_some(nodes, ordered[index].path, iso.xa_system_use, iso.directory_record_packing);
}

/// The records of every directory that was placed fit its blocks.
pub proof fn all_have_room(iso: IsoModel, lengths: Seq<FileLengthModel>, placed: Placed)
    requires
        placed_filesystem(iso, lengths) == Ok::<Placed, Failure>(placed),
        iso.supplementary_volumes.len() <= 1,
    ensures
        directories_have_room(iso, placed),
{
    parts_are_apart(iso, lengths, placed);
    let state = placed.state;
    let nodes = primary_nodes(iso);
    let spots = primary_spots(iso, state, nodes);
    let directories = state.primary.placements;
    let options = primary_options(iso);
    assert forall|i: int|
        0 <= i < directories.len() && iso.entries[(
        #[trigger] directories[i]).entry].directory_reference is None implies has_room(
        nodes,
        spots,
        directories[i],
        directories[directories[i].parent],
        options,
    ) by {
        let parent = directories[directories[i].parent];
        records_fit(iso, directories, i);
        if directory_records(nodes, spots, directories[i], parent, options) is Ok {
            records_end_as_reckoned(nodes, spots, directories[i], parent, options);
        }
    }
    if let Some(plan) = placed.joliet {
        let volume = iso.supplementary_volumes[0];
        let spots = joliet_spots(iso, state, volume);
        let directories = state.joliet.placements;
        let options = joliet_options(iso, volume);
        let ordered = directories_of(plan.nodes, ErrorKind::UnreachableJolietDirectory)->Ok_0;
        assert forall|i: int| 0 <= i < directories.len() implies has_room(
            plan.nodes,
            spots,
            #[trigger] directories[i],
            directories[directories[i].parent],
            options,
        ) by {
            let parent = directories[directories[i].parent];
            let sized = sized_joliet_directory(iso, plan.nodes, volume.xa_system_use, ordered[i]);
            assert(same_directory(directories[i], sized->Ok_0));
            records_are_some(
                plan.nodes,
                directories[i].path,
                volume.xa_system_use,
                iso.directory_record_packing,
            );
            if directory_records(plan.nodes, spots, directories[i], parent, options) is Ok {
                records_end_as_reckoned(plan.nodes, spots, directories[i], parent, options);
            }
        }
    }
}

pub proof fn records_are_some(
    nodes: Seq<NodeModel>,
    path: Seq<char>,
    system_use: bool,
    packing: DirectoryRecordPacking,
)
    ensures
        records_length(nodes, path, system_use, packing) > 0,
{
    let dot = size_of_record(1, system_use_size(system_use));
    child_lengths_keep(nodes, path, 0, seq![dot, dot]);
    let lengths = record_lengths(nodes, path, system_use);
    assert(lengths.take(2)[0] == dot);
    packed_from_grows(lengths, 0, 0, packing);
    assert(lengths[0] == dot);
}

/// What is read of a directory of the primary tree of a layout.
pub open spec fn listing_of(iso: IsoModel, lengths: Seq<FileLengthModel>, index: int) -> Seq<RecordModel> {
    let state = places_of(iso, lengths).state;
    let nodes = primary_nodes(iso);
    let directories = state.primary.placements;
    directory_models(
        nodes,
        primary_spots(iso, state, nodes),
        directories[index],
        directories[directories[index].parent],
        primary_options(iso),
    )
}

/// The records of a directory of the primary tree are packed as they would be if they
/// filled blocks to their ends.
pub open spec fn has_plain_packing(iso: IsoModel, state: PlacingModel, index: int) -> bool {
    let nodes = primary_nodes(iso);
    let directories = state.primary.placements;
    packs_plainly(
        nodes,
        primary_spots(iso, state, nodes),
        directories[index],
        directories[directories[index].parent],
        primary_options(iso),
    )
}

/// Every directory of the primary tree of a layout is read back from its blocks:
/// at its extent, with its length, stand the records of itself, of the directory
/// above and of what lies in it, in order, and behind them what was described to stand
/// there. Bytes among which a record could begin are left out.
pub proof fn directory_is_read_back(
    iso: IsoModel,
    lengths: Seq<FileLengthModel>,
    layout: LayoutModel,
    blocks: Seq<Block>,
    index: int,
)
    requires
        is_layout(iso, lengths, layout),
        is_filled(layout, blocks),
        0 <= index < places_of(iso, lengths).state.primary.placements.len(),
        ({
            let entry = iso.entries[places_of(
                iso,
                lengths,
            ).state.primary.placements[index].entry];
            entry.directory_reference is None
        }),
        is_quiet(iso, places_of(iso, lengths).state, index),
    ensures
        ({
            let directory = places_of(iso, lengths).state.primary.placements[index];
            let contents = directory_contents(blocks, directory.extent, directory.length);
            &&& contents is Ok
            &&& contents->Ok_0.records == listing_of(iso, lengths, index)
            &&& contents->Ok_0.slack == told_slack(iso.entries[directory.entry].directory_slack)
            &&& shows(contents->Ok_0.observation, iso.directory_record_packing)
            &&& !contents->Ok_0.observation.skipped_exact_fit ==> has_plain_packing(
                iso,
                places_of(iso, lengths).state,
                index,
            )
        }),
{
    layout_holds_parts(iso, lengths, layout);
    filled_holds_parts(iso, lengths, layout, blocks);
    let placed = places_of(iso, lengths);
    let image = filled_image(blocks);
    directory_is_held(iso, placed, size_of_volume(iso, lengths), image, index);
    held_directory_is_read(iso, placed, image, blocks, index);
}

/// A directory that an image holds is read from its blocks.
proof fn held_directory_is_read(
    iso: IsoModel,
    placed: Placed,
    image: Seq<u8>,
    blocks: Seq<Block>,
    index: int,
)
    requires
        primary_directory_lies(
            iso,
            primary_nodes(iso),
            primary_spots(iso, placed.state, primary_nodes(iso)),
            placed.state.primary.placements,
            image,
            index,
        ),
        are_sized(iso, placed.state.primary.placements),
        views(blocks) == blocks_of(image),
        image.len() == placed.state.next * 2048,
        0 <= index < placed.state.primary.placements.len(),
        ({
            let entry = iso.entries[placed.state.primary.placements[index].entry];
            entry.directory_reference is None
        }),
        is_quiet(iso, placed.state, index),
    ensures
        ({
            let nodes = primary_nodes(iso);
            let directories = placed.state.primary.placements;
            let directory = directories[index];
            let contents = directory_contents(blocks, directory.extent, directory.length);
            &&& contents is Ok
            &&& contents->Ok_0.records == directory_models(
                nodes,
                primary_spots(iso, placed.state, nodes),
                directory,
                directories[directory.parent],
                primary_options(iso),
            )
            &&& contents->Ok_0.slack == told_slack(iso.entries[directory.entry].directory_slack)
            &&& shows(contents->Ok_0.observation, iso.directory_record_packing)
            &&& !contents->Ok_0.observation.skipped_exact_fit ==> has_plain_packing(
                iso,
                placed.state,
                index,
            )
        }),
{
    let state = placed.state;
    let directories = state.primary.placements;
    let directory = directories[index];
    let parent = directories[directory.parent];
    let nodes = primary_nodes(iso);
    let spots = primary_spots(iso, state, nodes);
    let options = primary_options(iso);
    records_fit(iso, directories, index);
    records_are_some(nodes, directory.path, iso.xa_system_use, iso.directory_record_packing);
    let slack = iso.entries[directory.entry].directory_slack;
    lying_directory_is_read(nodes, spots, directory, parent, slack, options, image, blocks);
}

/// A directory that lies in an image is read from its blocks.
pub proof fn lying_directory_is_read(
    nodes: Seq<NodeModel>,
    spots: Seq<SpotModel>,
    directory: PlacementModel,
    parent: PlacementModel,
    slack: Option<SlackModel>,
    options: TreeOptions,
    image: Seq<u8>,
    blocks: Seq<Block>,
)
    requires
        views(blocks) == blocks_of(image),
        image.len() % 2048 == 0,
        directory_bytes(nodes, spots, directory, parent, slack, options) is Ok,
        lies_at(
            image,
            directory.extent as int,
            directory_bytes(nodes, spots, directory, parent, slack, options)->Ok_0,
        ),
        records_length(nodes, directory.path, options.xa_system_use, options.packing)
            <= directory.length <= directory.blocks * 2048,
        slack is Some ==> is_quiet_after(
            directory_bytes(nodes, spots, directory, parent, slack, options)->Ok_0.take(
                directory.length as int,
            ),
            records_end(nodes, spots, directory, parent, options),
        ),
    ensures
        ({
            let contents = directory_contents(blocks, directory.extent, directory.length);
            &&& contents is Ok
            &&& contents->Ok_0.records == directory_models(
                nodes,
                spots,
                directory,
                parent,
                options,
            )
            &&& contents->Ok_0.slack == told_slack(slack)
            &&& shows(contents->Ok_0.observation, options.packing)
            &&& !contents->Ok_0.observation.skipped_exact_fit ==> packs_plainly(
                nodes,
                spots,
                directory,
                parent,
                options,
            )
        }),
{
    let bytes = directory_bytes(nodes, spots, directory, parent, slack, options)->Ok_0;
    directory_fills_blocks(nodes, spots, directory, parent, slack, options);
    records_end_as_reckoned(nodes, spots, directory, parent, options);
    let length = directory.length as int;
    extent_is_read(image, blocks, directory.extent as int, bytes, length);
    directory_is_read(nodes, spots, directory, parent, slack, options, bytes, length);
    let records = directory_records(nodes, spots, directory, parent, options)->Ok_0;
    let empty = fill((directory.blocks * 2048) as nat, 0);
    packing_is_local(records, 0, 0, empty, options.packing);
    pack_records_grow(records, 0, 0, empty, options.packing);
    let (whole, end) = pack_records_from(records, 0, 0, empty, options.packing);
    assert forall|i: int| end <= i < whole.len() implies whole[i] == 0 by {
        assert(whole[i] == empty[i]);
    }
    slack_is_told(bytes, whole, end, slack, nodes[directory.entry].path, directory.length);
}

/// Nothing that stands behind the records of a directory could be taken for a record.
pub open spec fn is_quiet(iso: IsoModel, state: PlacingModel, index: int) -> bool {
    let nodes = primary_nodes(iso);
    let spots = primary_spots(iso, state, nodes);
    let directory = state.primary.placements[index];
    let parent = state.primary.placements[directory.parent];
    let options = primary_options(iso);
    let slack = iso.entries[directory.entry].directory_slack;
    slack is Some ==> is_quiet_after(
        directory_bytes(nodes, spots, directory, parent, slack, options)->Ok_0.take(
            directory.length as int,
        ),
        records_end(nodes, spots, directory, parent, options),
    )
}

} // verus!
