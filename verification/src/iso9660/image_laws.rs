//! Every part of an image that is written lies in it whole.
use vstd::prelude::*;

use crate::bytes::fill;
use crate::error::Failure;
use crate::iso9660::description::{EntryModel, IsoModel, SlackModel};
use crate::iso9660::descriptor_laws::descriptor_length;
use crate::iso9660::descriptor_write::{
    descriptor_signature, pvd_block, pvd_fields, svd_block, svd_fields,
};
use crate::iso9660::directory::{
    directory_bytes, directory_records, FileModel, SpotModel, TreeOptions,
};
use crate::iso9660::directory_laws::packing_is_local;
use crate::iso9660::layout::{
    all_placed, image_of, joliet_options, joliet_place, joliet_spots, primary_options,
    primary_place, primary_spots, table_bytes, with_all_directories, with_all_tables, with_copies,
    with_descriptors, with_directories_from, with_extent, with_joliet_directories_from,
    with_padding, with_paddings_from, with_table, with_tables, Placed, TablePlan,
};
use crate::iso9660::path_table::PlacementModel;
use crate::iso9660::placing::PlacingModel;
use crate::iso9660::placing_laws::{
    are_apart, descriptors_end, end_of, has_place, is_marked, start_of, table_blocks, tables_of,
    takes_blocks, Part, TableBlocks,
};
use crate::iso9660::subheaders::{file_of, find_file_from};
use crate::iso9660::tree::{primary_nodes, NodeModel};
use crate::manifest::MetadataVolume;

verus! {

/// An offset lies in a part.
pub open spec fn in_part(state: PlacingModel, tables: TableBlocks, part: Part, offset: int) -> bool {
    takes_blocks(state, tables, part) && start_of(state, part) * 2048 <= offset < end_of(
        state,
        tables,
        part,
    ) * 2048
}

/// Data lies whole in an image from an extent on.
pub open spec fn lies_at(image: Seq<u8>, extent: int, data: Seq<u8>) -> bool {
    &&& 0 <= extent * 2048
    &&& extent * 2048 + data.len() <= image.len()
    &&& image.subrange(extent * 2048, extent * 2048 + data.len()) == data
}

/// Parts that are apart share no offset.
proof fn parts_share_nothing(
    state: PlacingModel,
    tables: TableBlocks,
    base: int,
    left: Part,
    right: Part,
    offset: int,
)
    requires
        are_apart(state, tables, base),
        in_part(state, tables, left, offset),
        in_part(state, tables, right, offset),
    ensures
        left == right,
        base * 2048 <= offset < state.next * 2048,
{
    if left != right {
        assert(takes_blocks(state, tables, left) && takes_blocks(state, tables, right));
    }
}

/// The bytes of a directory fill its blocks.
pub proof fn directory_fills_blocks(
    nodes: Seq<NodeModel>,
    spots: Seq<SpotModel>,
    directory: PlacementModel,
    parent: PlacementModel,
    slack: Option<SlackModel>,
    options: TreeOptions,
)
    ensures
        directory_bytes(nodes, spots, directory, parent, slack, options) matches Ok(bytes)
            ==> bytes.len() == directory.blocks * 2048,
{
    if let Ok(records) = directory_records(nodes, spots, directory, parent, options) {
        packing_is_local(
            records,
            0,
            0,
            fill((directory.blocks * 2048) as nat, 0),
            options.packing,
        );
    }
}

/// Writing the directories of the primary tree leaves the rest of an image alone,
/// and leaves each directory whole.
#[verifier::rlimit(30)]
proof fn directories_are_written(
    iso: IsoModel,
    nodes: Seq<NodeModel>,
    spots: Seq<SpotModel>,
    state: PlacingModel,
    tables: TableBlocks,
    base: int,
    image: Seq<u8>,
    index: int,
)
    requires
        are_apart(state, tables, base),
        0 <= index,
        image.len() == state.next * 2048,
        all_placed(state.primary.placed),
        state.primary.placed.len() == state.primary.placements.len(),
        with_directories_from(iso, nodes, spots, state.primary.placements, image, index) is Ok,
    ensures
        ({
            let directories = state.primary.placements;
            let written = with_directories_from(iso, nodes, spots, directories, image, index)->Ok_0;
            &&& written.len() == image.len()
            &&& forall|offset: int|
                0 <= offset < image.len() && (forall|j: int|
                    index <= j < directories.len() ==> !(#[trigger] in_part(
                        state,
                        tables,
                        Part::Directory { volume: MetadataVolume::Primary, index: j },
                        offset,
                    ))) ==> written[offset] == image[offset]
            &&& forall|j: int|
                index <= j < directories.len()
                    && iso.entries[(#[trigger] directories[j]).entry].directory_reference is None
                    ==> primary_directory_lies(iso, nodes, spots, directories, written, j)
        }),
    decreases state.primary.placements.len() - index,
{
    let directories = state.primary.placements;
    if index < directories.len() {
        let directory = directories[index];
        let entry = iso.entries[directory.entry];
        if entry.directory_reference is Some {
            directories_are_written(
                iso,
                nodes,
                spots,
                state,
                tables,
                base,
                image,
                index + 1,
            );
        } else {
            let parent = directories[directory.parent];
            directory_fills_blocks(
                nodes,
                spots,
                directory,
                parent,
                entry.directory_slack,
                primary_options(iso),
            );
            let data = directory_bytes(
                nodes,
                spots,
                directory,
                parent,
                entry.directory_slack,
                primary_options(iso),
            )->Ok_0;
            let next = with_extent(image, directory.extent as int, data);
            directories_are_written(iso, nodes, spots, state, tables, base, next, index + 1);
            let written = with_directories_from(iso, nodes, spots, directories, image, index)->Ok_0;
            let part = Part::Directory { volume: MetadataVolume::Primary, index };
            assert(has_place(state, part));
            assert(directory.blocks > 0 ==> takes_blocks(state, tables, part));
            if directory.blocks > 0 {
                assert forall|offset: int|
                    directory.extent * 2048 <= offset < directory.extent * 2048
                        + data.len() implies written[offset] == next[offset] by {
                    assert(in_part(state, tables, part, offset));
                    assert forall|j: int| index + 1 <= j < directories.len() implies !(
                    #[trigger] in_part(
                        state,
                        tables,
                        Part::Directory { volume: MetadataVolume::Primary, index: j },
                        offset,
                    )) by {
                        let other = Part::Directory { volume: MetadataVolume::Primary, index: j };
                        if in_part(state, tables, other, offset) {
                            parts_share_nothing(state, tables, base, part, other, offset);
                        }
                    }
                }
                assert(written.subrange(
                    directory.extent * 2048,
                    directory.extent * 2048 + data.len(),
                ) =~= data);
            }
            assert(primary_directory_lies(iso, nodes, spots, directories, written, index));
            assert forall|offset: int|
                0 <= offset < image.len() && (forall|j: int|
                    index <= j < directories.len() ==> !(#[trigger] in_part(
                        state,
                        tables,
                        Part::Directory { volume: MetadataVolume::Primary, index: j },
                        offset,
                    ))) implies written[offset] == image[offset] by {
                assert(!in_part(state, tables, part, offset));
                assert(next[offset] == image[offset]);
            }
        }
    }
}

/// A directory of the primary tree that takes blocks lies whole in an image.
pub open spec fn primary_directory_lies(
    iso: IsoModel,
    nodes: Seq<NodeModel>,
    spots: Seq<SpotModel>,
    directories: Seq<PlacementModel>,
    image: Seq<u8>,
    index: int,
) -> bool {
    let directory = directories[index];
    let bytes = directory_bytes(
        nodes,
        spots,
        directory,
        directories[directory.parent],
        iso.entries[directory.entry].directory_slack,
        primary_options(iso),
    );
    bytes is Ok && (directory.blocks > 0 ==> lies_at(image, directory.extent as int, bytes->Ok_0))
}

/// A directory of the Joliet tree that takes blocks lies whole in an image.
pub open spec fn joliet_directory_lies(
    nodes: Seq<NodeModel>,
    spots: Seq<SpotModel>,
    directories: Seq<PlacementModel>,
    options: TreeOptions,
    image: Seq<u8>,
    index: int,
) -> bool {
    let directory = directories[index];
    let bytes = directory_bytes(
        nodes,
        spots,
        directory,
        directories[directory.parent],
        None,
        options,
    );
    bytes is Ok && (directory.blocks > 0 ==> lies_at(image, directory.extent as int, bytes->Ok_0))
}

/// Writing the directories of the Joliet tree leaves the rest of an image alone,
/// and leaves each directory whole.
#[verifier::rlimit(30)]
proof fn joliet_directories_are_written(
    nodes: Seq<NodeModel>,
    spots: Seq<SpotModel>,
    options: TreeOptions,
    state: PlacingModel,
    tables: TableBlocks,
    base: int,
    image: Seq<u8>,
    index: int,
)
    requires
        are_apart(state, tables, base),
        0 <= index,
        image.len() == state.next * 2048,
        all_placed(state.joliet.placed),
        state.joliet.placed.len() == state.joliet.placements.len(),
        with_joliet_directories_from(
            nodes,
            spots,
            state.joliet.placements,
            options,
            image,
            index,
        ) is Ok,
    ensures
        ({
            let directories = state.joliet.placements;
            let written = with_joliet_directories_from(
                nodes,
                spots,
                directories,
                options,
                image,
                index,
            )->Ok_0;
            &&& written.len() == image.len()
            &&& forall|offset: int|
                0 <= offset < image.len() && (forall|j: int|
                    index <= j < directories.len() ==> !(#[trigger] in_part(
                        state,
                        tables,
                        Part::Directory { volume: MetadataVolume::Joliet, index: j },
                        offset,
                    ))) ==> written[offset] == image[offset]
            &&& forall|j: int|
                index <= j < directories.len() ==> #[trigger] joliet_directory_lies(
                    nodes,
                    spots,
                    directories,
                    options,
                    written,
                    j,
                )
        }),
    decreases state.joliet.placements.len() - index,
{
    let directories = state.joliet.placements;
    if index < directories.len() {
        let directory = directories[index];
        let parent = directories[directory.parent];
        directory_fills_blocks(nodes, spots, directory, parent, None, options);
        let data = directory_bytes(nodes, spots, directory, parent, None, options)->Ok_0;
        let next = with_extent(image, directory.extent as int, data);
        joliet_directories_are_written(
            nodes,
            spots,
            options,
            state,
            tables,
            base,
            next,
            index + 1,
        );
        let written = with_joliet_directories_from(
            nodes,
            spots,
            directories,
            options,
            image,
            index,
        )->Ok_0;
        let part = Part::Directory { volume: MetadataVolume::Joliet, index };
        assert(has_place(state, part));
        assert(directory.blocks > 0 ==> takes_blocks(state, tables, part));
        if directory.blocks > 0 {
            assert forall|offset: int|
                directory.extent * 2048 <= offset < directory.extent * 2048 + data.len() implies
                written[offset] == next[offset] by {
                assert(in_part(state, tables, part, offset));
                assert forall|j: int| index + 1 <= j < directories.len() implies !(
                #[trigger] in_part(
                    state,
                    tables,
                    Part::Directory { volume: MetadataVolume::Joliet, index: j },
                    offset,
                )) by {
                    let other = Part::Directory { volume: MetadataVolume::Joliet, index: j };
                    if in_part(state, tables, other, offset) {
                        parts_share_nothing(state, tables, base, part, other, offset);
                    }
                }
            }
            assert(written.subrange(
                directory.extent * 2048,
                directory.extent * 2048 + data.len(),
            ) =~= data);
        }
        assert(joliet_directory_lies(nodes, spots, directories, options, written, index));
        assert forall|offset: int|
            0 <= offset < image.len() && (forall|j: int|
                index <= j < directories.len() ==> !(#[trigger] in_part(
                    state,
                    tables,
                    Part::Directory { volume: MetadataVolume::Joliet, index: j },
                    offset,
                ))) implies written[offset] == image[offset] by {
            assert(!in_part(state, tables, part, offset));
            assert(next[offset] == image[offset]);
        }
    }
}

/// A file that is found is one of those that are searched.
proof fn found_file_is_there(files: Seq<FileModel>, path: Seq<char>, index: int)
    requires
        0 <= index,
    ensures
        find_file_from(files, path, index) matches Some(file) ==> exists|i: int|
            index <= i < files.len() && #[trigger] files[i] == file,
    decreases files.len() - index,
{
    if index < files.len() {
        if files[index].path == path {
            assert(files[index] == files[index]);
        } else {
            found_file_is_there(files, path, index + 1);
        }
    }
}

/// Files with a fixed extent have no padding of their own.
pub open spec fn padding_is_owned(entries: Seq<EntryModel>) -> bool {
    forall|i: int|
        0 <= i < entries.len() ==> ((#[trigger] entries[i]).allocation_padding_hex is Some
            ==> entries[i].extent is None)
}

/// Writing the padding of files leaves alone what lies in no file.
proof fn paddings_are_written(
    entries: Seq<EntryModel>,
    state: PlacingModel,
    tables: TableBlocks,
    image: Seq<u8>,
    index: int,
)
    requires
        0 <= index,
        padding_is_owned(entries),
        with_paddings_from(image, entries, state.files, index) is Ok,
    ensures
        ({
            let written = with_paddings_from(image, entries, state.files, index)->Ok_0;
            &&& written.len() == image.len()
            &&& forall|offset: int|
                0 <= offset < image.len() && (forall|j: int|
                    0 <= j < state.files.len() ==> !(#[trigger] in_part(
                        state,
                        tables,
                        Part::File { index: j },
                        offset,
                    ))) ==> written[offset] == image[offset]
        }),
    decreases entries.len() - index,
{
    if index < entries.len() {
        let entry = entries[index];
        let next = with_padding(image, entry, state.files)->Ok_0;
        paddings_are_written(entries, state, tables, next, index + 1);
        assert forall|offset: int|
            0 <= offset < image.len() && (forall|j: int|
                0 <= j < state.files.len() ==> !(#[trigger] in_part(
                    state,
                    tables,
                    Part::File { index: j },
                    offset,
                ))) implies next[offset] == image[offset] by {
            if entry.allocation_padding_hex is Some {
                found_file_is_there(state.files, entry.path, 0);
                let file = file_of(entry, state.files)->Some_0;
                let j = choose|j: int| 0 <= j < state.files.len() && #[trigger] state.files[j] == file;
                assert(!in_part(state, tables, Part::File { index: j }, offset));
            }
        }
    }
}

/// What stands in the blocks of a path table: as much of it as they hold, and zeros behind
/// it.
pub open spec fn table_part(data: Seq<u8>, blocks: u32) -> Seq<u8> {
    Seq::new(
        (blocks * 2048) as nat,
        |i: int|
            if i < data.len() {
                data[i]
            } else {
                0
            },
    )
}

/// The path table of a tree at an index: the first two are little-endian.
pub open spec fn table_data(bytes: (Seq<u8>, Seq<u8>), index: int) -> Seq<u8> {
    if index < 2 {
        bytes.0
    } else {
        bytes.1
    }
}

/// The path tables of a tree that are there lie whole in an image.
pub open spec fn tables_lie(extents: Seq<u32>, plan: TablePlan, bytes: (Seq<u8>, Seq<u8>), image: Seq<u8>) -> bool {
    forall|k: int|
        0 <= k < 4 && #[trigger] extents[k] != 0 ==> lies_at(
            image,
            extents[k] as int,
            table_part(table_data(bytes, k), plan.blocks),
        )
}

/// Nothing stands in the blocks of the path tables of a tree.
pub open spec fn tables_are_blank(
    state: PlacingModel,
    tables: TableBlocks,
    volume: MetadataVolume,
    image: Seq<u8>,
) -> bool {
    forall|k: int, offset: int|
        0 <= k < 4 && #[trigger] in_part(
            state,
            tables,
            Part::Table { volume, index: k },
            offset,
        ) ==> image[offset] == 0
}

/// Nothing stands in the blocks from an extent on.
spec fn is_blank_at(image: Seq<u8>, extent: u32, blocks: u32) -> bool {
    forall|offset: int|
        #[trigger] offset_in(extent, blocks, offset) ==> image[offset] == 0
}

/// Writing a path table keeps what lies outside its blocks.
proof fn table_is_written(image: Seq<u8>, extent: u32, data: Seq<u8>, blocks: u32)
    requires
        extent == 0 || (extent + blocks) * 2048 <= image.len(),
        extent == 0 || is_blank_at(image, extent, blocks),
    ensures
        ({
            let written = with_table(image, extent, data, blocks);
            &&& written.len() == image.len()
            &&& extent != 0 ==> lies_at(written, extent as int, table_part(data, blocks))
            &&& forall|offset: int|
                0 <= offset < image.len() && !(extent != 0 && extent * 2048 <= offset < (extent
                    + blocks) * 2048) ==> written[offset] == image[offset]
        }),
{
    let written = with_table(image, extent, data, blocks);
    if extent != 0 {
        let part = table_part(data, blocks);
        let read = written.subrange(extent * 2048, extent * 2048 + part.len());
        assert forall|i: int| 0 <= i < part.len() implies #[trigger] read[i] == part[i] by {
            assert(offset_in(extent, blocks, extent * 2048 + i));
            assert(read[i] == written[extent * 2048 + i]);
        }
        assert(read =~= part);
    }
}

/// No two path tables of a tree share an offset.
proof fn tables_share_nothing(
    state: PlacingModel,
    tables: TableBlocks,
    base: int,
    volume: MetadataVolume,
    blocks: u32,
)
    requires
        are_apart(state, tables, base),
        blocks == (if volume == MetadataVolume::Primary {
            tables.primary
        } else {
            tables.joliet
        }),
        blocks > 0,
        tables_of(state, volume).len() == 4,
    ensures
        ({
            let extents = tables_of(state, volume);
            forall|j: int, k: int, offset: int|
                0 <= j < 4 && 0 <= k < 4 && j != k && #[trigger] extents[j] != 0
                    && #[trigger] extents[k] != 0 && extents[j] * 2048 <= offset < (extents[j]
                    + blocks) * 2048 ==> !(#[trigger] offset_in(extents[k], blocks, offset))
        }),
{
    let extents = tables_of(state, volume);
    assert forall|j: int, k: int, offset: int|
        0 <= j < 4 && 0 <= k < 4 && j != k && #[trigger] extents[j] != 0 && #[trigger] extents[k]
            != 0 && extents[j] * 2048 <= offset < (extents[j] + blocks) * 2048 implies !(
        #[trigger] offset_in(extents[k], blocks, offset)) by {
        let left = Part::Table { volume, index: j };
        let right = Part::Table { volume, index: k };
        if offset_in(extents[k], blocks, offset) {
            parts_share_nothing(state, tables, base, left, right, offset);
        }
    }
}

/// Images differ in no more than the blocks of the first path tables of a tree.
spec fn differ_in_first(
    extents: Seq<u32>,
    blocks: u32,
    before: Seq<u8>,
    after: Seq<u8>,
    count: int,
) -> bool {
    forall|offset: int|
        0 <= offset < before.len() && before[offset] != #[trigger] after[offset] ==> exists|k: int|
            0 <= k < count && extents[k] != 0 && #[trigger] offset_in(extents[k], blocks, offset)
}

/// Where no more than the path tables before it were written, nothing stands in the blocks
/// of a path table, and it is written into them.
proof fn next_table_is_written(
    state: PlacingModel,
    tables: TableBlocks,
    base: int,
    volume: MetadataVolume,
    blocks: u32,
    before: Seq<u8>,
    image: Seq<u8>,
    data: Seq<u8>,
    index: int,
)
    requires
        are_apart(state, tables, base),
        blocks == (if volume == MetadataVolume::Primary {
            tables.primary
        } else {
            tables.joliet
        }),
        blocks > 0,
        tables_of(state, volume).len() == 4,
        before.len() == image.len() == state.next * 2048,
        tables_are_blank(state, tables, volume, before),
        0 <= index < 4,
        differ_in_first(tables_of(state, volume), blocks, before, image, index),
    ensures
        ({
            let extents = tables_of(state, volume);
            let written = with_table(image, extents[index], data, blocks);
            &&& extents[index] == 0 || (extents[index] + blocks) * 2048 <= image.len()
            &&& extents[index] == 0 || is_blank_at(image, extents[index], blocks)
            &&& written.len() == image.len()
            &&& differ_in_first(extents, blocks, before, written, index + 1)
        }),
{
    let extents = tables_of(state, volume);
    let part = Part::Table { volume, index };
    if extents[index] != 0 {
        tables_share_nothing(state, tables, base, volume, blocks);
        assert(takes_blocks(state, tables, part));
        assert forall|offset: int| #[trigger] offset_in(extents[index], blocks, offset) implies
            image[offset] == 0 by {
            assert(in_part(state, tables, part, offset));
            parts_share_nothing(state, tables, base, part, part, offset);
            assert(before[offset] == 0);
            if image[offset] != before[offset] {
                let k = choose|k: int|
                    0 <= k < index && extents[k] != 0 && #[trigger] offset_in(
                        extents[k],
                        blocks,
                        offset,
                    );
                assert(extents[index] != 0 && extents[k] != 0);
            }
        }
    }
    table_is_written(image, extents[index], data, blocks);
    let written = with_table(image, extents[index], data, blocks);
    assert forall|offset: int|
        0 <= offset < before.len() && before[offset] != #[trigger] written[offset] implies exists|
        k: int,
    | 0 <= k < index + 1 && extents[k] != 0 && #[trigger] offset_in(extents[k], blocks, offset) by {
        if image[offset] != before[offset] {
            let k = choose|k: int|
                0 <= k < index && extents[k] != 0 && #[trigger] offset_in(
                    extents[k],
                    blocks,
                    offset,
                );
            assert(offset_in(extents[k], blocks, offset));
        } else {
            assert(offset_in(extents[index], blocks, offset));
        }
    }
}

/// Path tables that fill their blocks alike.
pub open spec fn fill_alike(left: (Seq<u8>, Seq<u8>), right: (Seq<u8>, Seq<u8>), blocks: u32) -> bool {
    &&& table_part(left.0, blocks) == table_part(right.0, blocks)
    &&& table_part(left.1, blocks) == table_part(right.1, blocks)
}

/// Path tables that fill their blocks alike are written alike where nothing stands in the
/// blocks.
proof fn table_is_written_alike(
    image: Seq<u8>,
    extent: u32,
    left: Seq<u8>,
    right: Seq<u8>,
    blocks: u32,
)
    requires
        extent == 0 || (extent + blocks) * 2048 <= image.len(),
        extent == 0 || is_blank_at(image, extent, blocks),
        table_part(left, blocks) == table_part(right, blocks),
    ensures
        with_table(image, extent, left, blocks) == with_table(image, extent, right, blocks),
{
    table_is_written(image, extent, left, blocks);
    table_is_written(image, extent, right, blocks);
    let one = with_table(image, extent, left, blocks);
    let other = with_table(image, extent, right, blocks);
    assert forall|offset: int| 0 <= offset < image.len() implies one[offset] == other[offset] by {
        if extent != 0 && extent * 2048 <= offset < (extent + blocks) * 2048 {
            let part = table_part(left, blocks);
            let i = offset - extent * 2048;
            assert(one.subrange(extent * 2048, extent * 2048 + part.len())[i] == part[i]);
            assert(other.subrange(extent * 2048, extent * 2048 + part.len())[i] == part[i]);
        }
    }
    assert(one =~= other);
}

/// Path tables of a tree that fill their blocks alike are written alike where nothing
/// stands in the blocks.
pub proof fn tables_are_written_alike(
    volume: MetadataVolume,
    directories: Seq<PlacementModel>,
    again: Seq<PlacementModel>,
    plan: TablePlan,
    hex: (Option<Seq<char>>, Option<Seq<char>>),
    hex_again: (Option<Seq<char>>, Option<Seq<char>>),
    state: PlacingModel,
    tables: TableBlocks,
    base: int,
    image: Seq<u8>,
)
    requires
        are_apart(state, tables, base),
        image.len() == state.next * 2048,
        plan.blocks == (if volume == MetadataVolume::Primary {
            tables.primary
        } else {
            tables.joliet
        }),
        plan.blocks > 0,
        tables_of(state, volume).len() == 4,
        tables_are_blank(state, tables, volume, image),
        table_bytes(directories, plan.size, hex.0, hex.1) is Ok,
        table_bytes(again, plan.size, hex_again.0, hex_again.1) is Ok,
        fill_alike(
            table_bytes(directories, plan.size, hex.0, hex.1)->Ok_0,
            table_bytes(again, plan.size, hex_again.0, hex_again.1)->Ok_0,
            plan.blocks,
        ),
    ensures
        with_tables(image, again, tables_of(state, volume), plan, hex_again.0, hex_again.1)
            == with_tables(image, directories, tables_of(state, volume), plan, hex.0, hex.1),
{
    let extents = tables_of(state, volume);
    let bytes = table_bytes(directories, plan.size, hex.0, hex.1)->Ok_0;
    let other = table_bytes(again, plan.size, hex_again.0, hex_again.1)->Ok_0;
    let blocks = plan.blocks;
    assert(differ_in_first(extents, blocks, image, image, 0));
    let first = with_table(image, extents[0], bytes.0, blocks);
    next_table_is_written(state, tables, base, volume, blocks, image, image, bytes.0, 0);
    table_is_written_alike(image, extents[0], bytes.0, other.0, blocks);
    let second = with_table(first, extents[1], bytes.0, blocks);
    next_table_is_written(state, tables, base, volume, blocks, image, first, bytes.0, 1);
    table_is_written_alike(first, extents[1], bytes.0, other.0, blocks);
    let third = with_table(second, extents[2], bytes.1, blocks);
    next_table_is_written(state, tables, base, volume, blocks, image, second, bytes.1, 2);
    table_is_written_alike(second, extents[2], bytes.1, other.1, blocks);
    next_table_is_written(state, tables, base, volume, blocks, image, third, bytes.1, 3);
    table_is_written_alike(third, extents[3], bytes.1, other.1, blocks);
}

/// Writing the path tables of a tree leaves the rest of an image alone, and leaves
/// each path table whole.
#[verifier::rlimit(40)]
pub proof fn tables_are_written(
    volume: MetadataVolume,
    directories: Seq<PlacementModel>,
    plan: TablePlan,
    little: Option<Seq<char>>,
    big: Option<Seq<char>>,
    state: PlacingModel,
    tables: TableBlocks,
    base: int,
    image: Seq<u8>,
)
    requires
        are_apart(state, tables, base),
        image.len() == state.next * 2048,
        plan.blocks == (if volume == MetadataVolume::Primary {
            tables.primary
        } else {
            tables.joliet
        }),
        plan.blocks > 0,
        tables_of(state, volume).len() == 4,
        tables_are_blank(state, tables, volume, image),
        with_tables(image, directories, tables_of(state, volume), plan, little, big) is Ok,
    ensures
        ({
            let extents = tables_of(state, volume);
            let written = with_tables(image, directories, extents, plan, little, big)->Ok_0;
            let bytes = table_bytes(directories, plan.size, little, big)->Ok_0;
            &&& table_bytes(directories, plan.size, little, big) is Ok
            &&& written.len() == image.len()
            &&& tables_lie(extents, plan, bytes, written)
            &&& forall|offset: int|
                0 <= offset < image.len() && (forall|k: int|
                    0 <= k < 4 ==> !(#[trigger] in_part(
                        state,
                        tables,
                        Part::Table { volume, index: k },
                        offset,
                    ))) ==> written[offset] == image[offset]
        }),
{
    let extents = tables_of(state, volume);
    let bytes = table_bytes(directories, plan.size, little, big)->Ok_0;
    let blocks = plan.blocks;
    assert forall|k: int| 0 <= k < 4 && #[trigger] extents[k] != 0 implies extents[k] + blocks
        <= state.next && takes_blocks(state, tables, Part::Table { volume, index: k }) by {
        assert(takes_blocks(state, tables, Part::Table { volume, index: k }));
    }
    tables_share_nothing(state, tables, base, volume, blocks);
    assert(differ_in_first(extents, blocks, image, image, 0));
    let first = with_table(image, extents[0], bytes.0, blocks);
    next_table_is_written(state, tables, base, volume, blocks, image, image, bytes.0, 0);
    table_is_written(image, extents[0], bytes.0, blocks);
    let second = with_table(first, extents[1], bytes.0, blocks);
    next_table_is_written(state, tables, base, volume, blocks, image, first, bytes.0, 1);
    table_is_written(first, extents[1], bytes.0, blocks);
    let third = with_table(second, extents[2], bytes.1, blocks);
    next_table_is_written(state, tables, base, volume, blocks, image, second, bytes.1, 2);
    table_is_written(second, extents[2], bytes.1, blocks);
    let fourth = with_table(third, extents[3], bytes.1, blocks);
    next_table_is_written(state, tables, base, volume, blocks, image, third, bytes.1, 3);
    table_is_written(third, extents[3], bytes.1, blocks);
    assert forall|k: int| 0 <= k < 4 && #[trigger] extents[k] != 0 implies lies_at(
        fourth,
        extents[k] as int,
        table_part(table_data(bytes, k), blocks),
    ) by {
        let part = table_part(table_data(bytes, k), blocks);
        let at = extents[k] as int;
        assert forall|i: int| 0 <= i < part.len() implies fourth[at * 2048 + i] == part[i] by {
            let offset = at * 2048 + i;
            assert(k != 0 && extents[0] != 0 ==> !offset_in(extents[0], blocks, offset));
            assert(k != 1 && extents[1] != 0 ==> !offset_in(extents[1], blocks, offset));
            assert(k != 2 && extents[2] != 0 ==> !offset_in(extents[2], blocks, offset));
            assert(k != 3 && extents[3] != 0 ==> !offset_in(extents[3], blocks, offset));
            let source = if k == 0 {
                first
            } else if k == 1 {
                second
            } else if k == 2 {
                third
            } else {
                fourth
            };
            assert(lies_at(source, at, part));
            assert(source.subrange(at * 2048, at * 2048 + part.len())[i] == part[i]);
            assert(fourth[offset] == source[offset]);
        }
        assert(fourth.subrange(at * 2048, at * 2048 + part.len()) =~= part);
    }
    assert forall|offset: int|
        0 <= offset < image.len() && (forall|k: int|
            0 <= k < 4 ==> !(#[trigger] in_part(
                state,
                tables,
                Part::Table { volume, index: k },
                offset,
            ))) implies fourth[offset] == image[offset] by {
        assert(!in_part(state, tables, Part::Table { volume, index: 0 }, offset));
        assert(!in_part(state, tables, Part::Table { volume, index: 1 }, offset));
        assert(!in_part(state, tables, Part::Table { volume, index: 2 }, offset));
        assert(!in_part(state, tables, Part::Table { volume, index: 3 }, offset));
    }
}

/// An offset lies in the blocks from an extent on.
spec fn offset_in(extent: u32, blocks: u32, offset: int) -> bool {
    extent * 2048 <= offset < (extent + blocks) * 2048
}

/// Copies of a descriptor lie whole one behind the other.
proof fn copies_are_written(image: Seq<u8>, extent: int, data: Seq<u8>, count: int)
    requires
        0 <= extent,
        data.len() == 2048,
        (extent + count) * 2048 <= image.len(),
    ensures
        ({
            let written = with_copies(image, extent, data, count);
            &&& written.len() == image.len()
            &&& forall|k: int| 0 <= k < count ==> lies_at(written, #[trigger] (extent + k), data)
            &&& forall|offset: int|
                (extent + count) * 2048 <= offset < image.len() && count >= 0 ==> written[offset]
                    == image[offset]
        }),
    decreases count,
{
    if count > 0 {
        copies_are_written(image, extent, data, count - 1);
        let before = with_copies(image, extent, data, count - 1);
        let written = with_copies(image, extent, data, count);
        assert forall|k: int| 0 <= k < count implies lies_at(
            written,
            #[trigger] (extent + k),
            data,
        ) by {
            let at = (extent + k) * 2048;
            if k < count - 1 {
                assert(lies_at(before, extent + k, data));
                assert(written.subrange(at, at + 2048) =~= before.subrange(at, at + 2048));
            } else {
                assert(written.subrange(at, at + 2048) =~= data);
            }
        }
    }
}

/// The descriptors of an image lie whole at its start.
pub open spec fn descriptors_lie(iso: IsoModel, placed: Placed, size: u32, image: Seq<u8>) -> bool {
    let copies = iso.primary_volume_copies as int;
    let pvd = pvd_block(
        iso.primary_volume,
        primary_place(placed.state, placed.table, size),
        iso.entries[0],
    );
    &&& pvd is Ok
    &&& forall|k: int| 0 <= k < copies ==> lies_at(image, #[trigger] (16 + k), pvd->Ok_0)
    &&& lies_at(image, descriptors_end(iso) - 1, descriptor_signature(255))
    &&& placed.joliet matches Some(plan) ==> {
        let svd = svd_block(
            iso.supplementary_volumes[0],
            joliet_place(placed.state, plan.table, size),
        );
        svd is Ok && lies_at(image, 16 + copies, svd->Ok_0)
    }
}

pub proof fn descriptors_are_written(iso: IsoModel, placed: Placed, size: u32, image: Seq<u8>)
    requires
        descriptors_end(iso) * 2048 <= image.len(),
        (placed.joliet is Some) == (iso.supplementary_volumes.len() > 0),
        iso.supplementary_volumes.len() <= 1,
        with_descriptors(iso, placed, size, image) is Ok,
    ensures
        ({
            let written = with_descriptors(iso, placed, size, image)->Ok_0;
            &&& written.len() == image.len()
            &&& descriptors_lie(iso, placed, size, written)
            &&& forall|offset: int|
                descriptors_end(iso) * 2048 <= offset < image.len() ==> #[trigger] written[offset]
                    == image[offset]
        }),
{
    reveal(with_descriptors);
    let copies = iso.primary_volume_copies as int;
    let place = primary_place(placed.state, placed.table, size);
    let pvd = pvd_block(iso.primary_volume, place, iso.entries[0])->Ok_0;
    descriptor_length(pvd_fields(iso.primary_volume, place, iso.entries[0]));
    copies_are_written(image, 16, pvd, copies);
    let first = with_copies(image, 16, pvd, copies);
    let end = descriptors_end(iso) - 1;
    let signature = descriptor_signature(255);
    let second = match placed.joliet {
        Some(plan) => {
            let place = joliet_place(placed.state, plan.table, size);
            descriptor_length(svd_fields(iso.supplementary_volumes[0], place));
            with_extent(first, 16 + copies, svd_block(iso.supplementary_volumes[0], place)->Ok_0)
        },
        None => first,
    };
    let written = with_extent(second, end, signature);
    assert(with_descriptors(iso, placed, size, image) == Ok::<Seq<u8>, Failure>(written));
    assert(written.subrange(end * 2048, end * 2048 + signature.len()) =~= signature);
    assert forall|k: int| 0 <= k < copies implies lies_at(written, #[trigger] (16 + k), pvd) by {
        let at = (16 + k) * 2048;
        assert(lies_at(first, 16 + k, pvd));
        assert(written.subrange(at, at + 2048) =~= first.subrange(at, at + 2048));
    }
    if let Some(plan) = placed.joliet {
        let at = (16 + copies) * 2048;
        let svd = svd_block(
            iso.supplementary_volumes[0],
            joliet_place(placed.state, plan.table, size),
        )->Ok_0;
        assert(written.subrange(at, at + 2048) =~= svd);
    }
}

/// What lies in an image at an extent lies in another that is the same there.
proof fn lies_still(before: Seq<u8>, after: Seq<u8>, extent: int, data: Seq<u8>)
    requires
        lies_at(before, extent, data),
        before.len() == after.len(),
        forall|offset: int|
            extent * 2048 <= offset < extent * 2048 + data.len() ==> before[offset]
                == after[offset],
    ensures
        lies_at(after, extent, data),
{
    let at = extent * 2048;
    assert(after.subrange(at, at + data.len()) =~= before.subrange(at, at + data.len()));
}

/// An offset among the descriptors lies in no part.
proof fn descriptors_are_left(state: PlacingModel, tables: TableBlocks, base: int, offset: int)
    requires
        are_apart(state, tables, base),
        offset < base * 2048,
    ensures
        forall|part: Part| !(#[trigger] in_part(state, tables, part, offset)),
{
    assert forall|part: Part| !(#[trigger] in_part(state, tables, part, offset)) by {
        if in_part(state, tables, part, offset) {
            parts_share_nothing(state, tables, base, part, part, offset);
        }
    }
}

/// Where nothing stands behind the descriptors, nothing stands in the blocks of path
/// tables.
pub proof fn blank_behind_descriptors(
    state: PlacingModel,
    tables: TableBlocks,
    base: int,
    image: Seq<u8>,
    volume: MetadataVolume,
)
    requires
        are_apart(state, tables, base),
        image.len() == state.next * 2048,
        forall|offset: int|
            base * 2048 <= offset < image.len() ==> #[trigger] image[offset] == 0,
    ensures
        tables_are_blank(state, tables, volume, image),
{
    assert forall|k: int, offset: int|
        0 <= k < 4 && #[trigger] in_part(
            state,
            tables,
            Part::Table { volume, index: k },
            offset,
        ) implies image[offset] == 0 by {
        let part = Part::Table { volume, index: k };
        parts_share_nothing(state, tables, base, part, part, offset);
    }
}

/// Nothing comes to stand in the blocks of the path tables of the Joliet tree while those
/// of the primary tree are written.
pub proof fn other_tables_stay_blank(
    state: PlacingModel,
    tables: TableBlocks,
    base: int,
    before: Seq<u8>,
    after: Seq<u8>,
)
    requires
        are_apart(state, tables, base),
        before.len() == after.len() == state.next * 2048,
        tables_are_blank(state, tables, MetadataVolume::Joliet, before),
        forall|offset: int|
            0 <= offset < before.len() && (forall|k: int|
                0 <= k < 4 ==> !(#[trigger] in_part(
                    state,
                    tables,
                    Part::Table { volume: MetadataVolume::Primary, index: k },
                    offset,
                ))) ==> after[offset] == before[offset],
    ensures
        tables_are_blank(state, tables, MetadataVolume::Joliet, after),
{
    assert forall|k: int, offset: int|
        0 <= k < 4 && #[trigger] in_part(
            state,
            tables,
            Part::Table { volume: MetadataVolume::Joliet, index: k },
            offset,
        ) implies after[offset] == 0 by {
        let part = Part::Table { volume: MetadataVolume::Joliet, index: k };
        parts_share_nothing(state, tables, base, part, part, offset);
        assert forall|j: int| 0 <= j < 4 implies !(#[trigger] in_part(
            state,
            tables,
            Part::Table { volume: MetadataVolume::Primary, index: j },
            offset,
        )) by {
            let other = Part::Table { volume: MetadataVolume::Primary, index: j };
            if in_part(state, tables, other, offset) {
                parts_share_nothing(state, tables, base, part, other, offset);
            }
        }
    }
}

/// What of a filesystem whose parts have their places lies in an image: its
/// descriptors, its path tables and its directories, each whole.
#[verifier::opaque]
pub open spec fn holds_parts(iso: IsoModel, placed: Placed, size: u32, image: Seq<u8>) -> bool {
    let state = placed.state;
    let nodes = primary_nodes(iso);
    let spots = primary_spots(iso, state, nodes);
    let tables = table_bytes(
        state.primary.placements,
        placed.table.size,
        iso.path_table_little_hex,
        iso.path_table_big_hex,
    );
    &&& descriptors_lie(iso, placed, size, image)
    &&& tables is Ok && tables_lie(state.tables, placed.table, tables->Ok_0, image)
    &&& forall|j: int|
        0 <= j < state.primary.placements.len() && iso.entries[(
        #[trigger] state.primary.placements[j]).entry].directory_reference is None
            ==> primary_directory_lies(iso, nodes, spots, state.primary.placements, image, j)
    &&& placed.joliet matches Some(plan) ==> {
        let volume = iso.supplementary_volumes[0];
        let joliet_tables = table_bytes(
            state.joliet.placements,
            plan.table.size,
            volume.path_table_little_hex,
            volume.path_table_big_hex,
        );
        &&& joliet_tables is Ok && tables_lie(
            state.joliet_tables,
            plan.table,
            joliet_tables->Ok_0,
            image,
        )
        &&& forall|j: int|
            0 <= j < state.joliet.placements.len() ==> #[trigger] joliet_directory_lies(
                plan.nodes,
                joliet_spots(iso, state, volume),
                state.joliet.placements,
                joliet_options(iso, volume),
                image,
                j,
            )
    }
}

/// Path tables stay whole where nothing else is written into their blocks.
proof fn tables_stay(
    state: PlacingModel,
    tables: TableBlocks,
    base: int,
    volume: MetadataVolume,
    plan: TablePlan,
    bytes: (Seq<u8>, Seq<u8>),
    before: Seq<u8>,
    after: Seq<u8>,
)
    requires
        are_apart(state, tables, base),
        plan.blocks == (if volume == MetadataVolume::Primary {
            tables.primary
        } else {
            tables.joliet
        }),
        plan.blocks > 0,
        tables_of(state, volume).len() == 4,
        before.len() == after.len(),
        tables_lie(tables_of(state, volume), plan, bytes, before),
        forall|offset: int|
            0 <= offset < before.len() && (exists|k: int|
                #[trigger] in_part(state, tables, Part::Table { volume, index: k }, offset))
                ==> before[offset] == after[offset],
    ensures
        tables_lie(tables_of(state, volume), plan, bytes, after),
{
    let extents = tables_of(state, volume);
    assert forall|k: int| 0 <= k < 4 && #[trigger] extents[k] != 0 implies lies_at(
        after,
        extents[k] as int,
        table_part(table_data(bytes, k), plan.blocks),
    ) by {
        let part = Part::Table { volume, index: k };
        assert(takes_blocks(state, tables, part));
        let data = table_part(table_data(bytes, k), plan.blocks);
        assert forall|offset: int|
            extents[k] * 2048 <= offset < extents[k] * 2048 + data.len() implies before[offset]
            == after[offset] by {
            assert(in_part(state, tables, part, offset));
        }
        lies_still(before, after, extents[k] as int, data);
    }
}

/// Only the offsets in some part of a kind differ.
spec fn differ_in_kind(
    state: PlacingModel,
    tables: TableBlocks,
    before: Seq<u8>,
    after: Seq<u8>,
    kind: spec_fn(Part) -> bool,
) -> bool {
    &&& before.len() == after.len()
    &&& forall|offset: int|
        0 <= offset < before.len() && before[offset] != #[trigger] after[offset] ==> exists|
            part: Part,
        |
            kind(part) && #[trigger] in_part(state, tables, part, offset)
}

/// A part that is written into an image when it is laid out: XA extents and gaps are
/// left to others.
pub open spec fn is_written_part(part: Part) -> bool {
    part is Table || part is Directory || part is File
}

/// Behind its descriptors an image has nothing but zeros outside the parts that are
/// written.
pub open spec fn is_blank_elsewhere(
    state: PlacingModel,
    tables: TableBlocks,
    base: int,
    image: Seq<u8>,
) -> bool {
    forall|offset: int|
        base * 2048 <= offset < image.len() && #[trigger] image[offset] != 0 ==> exists|part: Part|
            is_written_part(part) && #[trigger] in_part(state, tables, part, offset)
}

/// Images that differ only in parts of one kind, and then of another, differ only
/// in parts of either.
proof fn differences_add_up(
    state: PlacingModel,
    tables: TableBlocks,
    first: Seq<u8>,
    second: Seq<u8>,
    third: Seq<u8>,
    left: spec_fn(Part) -> bool,
    right: spec_fn(Part) -> bool,
    both: spec_fn(Part) -> bool,
)
    requires
        differ_in_kind(state, tables, first, second, left),
        differ_in_kind(state, tables, second, third, right),
        forall|part: Part| left(part) || right(part) ==> #[trigger] both(part),
    ensures
        differ_in_kind(state, tables, first, third, both),
{
    assert forall|offset: int|
        0 <= offset < first.len() && first[offset] != #[trigger] third[offset] implies exists|
        part: Part,
    | both(part) && #[trigger] in_part(state, tables, part, offset) by {
        if first[offset] != second[offset] {
            let part = choose|part: Part|
                left(part) && #[trigger] in_part(state, tables, part, offset);
            assert(both(part) && in_part(state, tables, part, offset));
        } else {
            let part = choose|part: Part|
                right(part) && #[trigger] in_part(state, tables, part, offset);
            assert(both(part) && in_part(state, tables, part, offset));
        }
    }
}

/// An offset in a part of another kind is the same in both images.
proof fn same_in_other_kinds(
    state: PlacingModel,
    tables: TableBlocks,
    base: int,
    before: Seq<u8>,
    after: Seq<u8>,
    kind: spec_fn(Part) -> bool,
    part: Part,
    offset: int,
)
    requires
        are_apart(state, tables, base),
        differ_in_kind(state, tables, before, after, kind),
        0 <= offset < before.len(),
        in_part(state, tables, part, offset),
        !kind(part),
    ensures
        before[offset] == after[offset],
{
    if before[offset] != after[offset] {
        let other = choose|other: Part| kind(other) && #[trigger] in_part(state, tables, other, offset);
        parts_share_nothing(state, tables, base, part, other, offset);
    }
}

spec fn is_table(part: Part, volume: MetadataVolume) -> bool {
    part is Table && part->Table_volume == volume
}

spec fn is_directory(part: Part, volume: MetadataVolume) -> bool {
    part is Directory && part->Directory_volume == volume
}

/// A directory that lies whole in an image does so in another that differs only
/// in other parts.
proof fn directory_stays(
    state: PlacingModel,
    tables: TableBlocks,
    base: int,
    volume: MetadataVolume,
    index: int,
    before: Seq<u8>,
    after: Seq<u8>,
    kind: spec_fn(Part) -> bool,
    data: Seq<u8>,
)
    requires
        are_apart(state, tables, base),
        differ_in_kind(state, tables, before, after, kind),
        !kind(Part::Directory { volume, index }),
        has_place(state, Part::Directory { volume, index }),
        state.tree(volume).placements[index].blocks > 0,
        data.len() == state.tree(volume).placements[index].blocks * 2048,
        lies_at(before, state.tree(volume).placements[index].extent as int, data),
    ensures
        lies_at(after, state.tree(volume).placements[index].extent as int, data),
{
    let part = Part::Directory { volume, index };
    let extent = state.tree(volume).placements[index].extent as int;
    assert(takes_blocks(state, tables, part));
    assert forall|offset: int|
        extent * 2048 <= offset < extent * 2048 + data.len() implies before[offset]
        == after[offset] by {
        assert(in_part(state, tables, part, offset));
        same_in_other_kinds(state, tables, base, before, after, kind, part, offset);
    }
    lies_still(before, after, extent, data);
}

/// Path tables that lie whole in an image do so in another that differs only in
/// other parts.
proof fn tables_stay_apart(
    state: PlacingModel,
    tables: TableBlocks,
    base: int,
    volume: MetadataVolume,
    plan: TablePlan,
    bytes: (Seq<u8>, Seq<u8>),
    before: Seq<u8>,
    after: Seq<u8>,
    kind: spec_fn(Part) -> bool,
)
    requires
        are_apart(state, tables, base),
        plan.blocks == (if volume == MetadataVolume::Primary {
            tables.primary
        } else {
            tables.joliet
        }),
        plan.blocks > 0,
        tables_of(state, volume).len() == 4,
        tables_lie(tables_of(state, volume), plan, bytes, before),
        differ_in_kind(state, tables, before, after, kind),
        forall|k: int| !(#[trigger] kind(Part::Table { volume, index: k })),
    ensures
        tables_lie(tables_of(state, volume), plan, bytes, after),
{
    assert forall|offset: int|
        0 <= offset < before.len() && (exists|k: int|
            #[trigger] in_part(state, tables, Part::Table { volume, index: k }, offset)) implies
        before[offset] == after[offset] by {
        let k = choose|k: int|
            #[trigger] in_part(state, tables, Part::Table { volume, index: k }, offset);
        let part = Part::Table { volume, index: k };
        assert(!kind(part));
        same_in_other_kinds(state, tables, base, before, after, kind, part, offset);
    }
    tables_stay(state, tables, base, volume, plan, bytes, before, after);
}

/// The image of a filesystem before the padding of its files is written.
#[verifier::opaque]
pub open spec fn unpadded_image(iso: IsoModel, placed: Placed, size: u32) -> Seq<u8> {
    let empty = fill((placed.state.next * 2048) as nat, 0);
    let described = with_descriptors(iso, placed, size, empty)->Ok_0;
    with_all_directories(iso, placed, with_all_tables(iso, placed, described)->Ok_0)->Ok_0
}

/// The blocks of files are empty.
pub open spec fn files_are_blank(state: PlacingModel, tables: TableBlocks, image: Seq<u8>) -> bool {
    forall|part: Part, offset: int|
        part is File && #[trigger] in_part(state, tables, part, offset) ==> image[offset] == 0
}

/// The image that is made of a filesystem holds its parts: each of its descriptors,
/// its path tables and its directories lies in it whole, where the filesystem has
/// it lie.
#[verifier::rlimit(60)]
pub proof fn image_holds_parts(iso: IsoModel, placed: Placed, size: u32, image: Seq<u8>)
    requires
        image_of(iso, placed, size) == Ok::<Seq<u8>, Failure>(image),
        are_apart(placed.state, table_blocks(placed), descriptors_end(iso)),
        is_marked(placed.state),
        placed.state.tables.len() == 4,
        placed.state.joliet_tables.len() == 4,
        all_placed(placed.state.primary.placed),
        placed.joliet is Some ==> all_placed(placed.state.joliet.placed),
        placed.table.blocks > 0,
        placed.joliet matches Some(plan) ==> plan.table.blocks > 0,
        (placed.joliet is Some) == (iso.supplementary_volumes.len() > 0),
        iso.supplementary_volumes.len() <= 1,
        padding_is_owned(iso.entries),
    ensures
        holds_parts(iso, placed, size, image),
        is_blank_elsewhere(placed.state, table_blocks(placed), descriptors_end(iso), image),
        unpadded_image(iso, placed, size).len() == image.len(),
        files_are_blank(placed.state, table_blocks(placed), unpadded_image(iso, placed, size)),
{
    reveal(with_all_tables);
    reveal(with_all_directories);
    reveal(holds_parts);
    let state = placed.state;
    let tables = table_blocks(placed);
    let base = descriptors_end(iso);
    let nodes = primary_nodes(iso);
    let spots = primary_spots(iso, state, nodes);
    let directories = state.primary.placements;
    let empty = fill((state.next * 2048) as nat, 0);
    let first = with_descriptors(iso, placed, size, empty)->Ok_0;
    descriptors_are_written(iso, placed, size, empty);
    blank_behind_descriptors(state, tables, base, first, MetadataVolume::Primary);
    blank_behind_descriptors(state, tables, base, first, MetadataVolume::Joliet);
    let second = with_tables(
        first,
        directories,
        state.tables,
        placed.table,
        iso.path_table_little_hex,
        iso.path_table_big_hex,
    )->Ok_0;
    tables_are_written(
        MetadataVolume::Primary,
        directories,
        placed.table,
        iso.path_table_little_hex,
        iso.path_table_big_hex,
        state,
        tables,
        base,
        first,
    );
    let written = |part: Part| is_written_part(part);
    let primary_table = |part: Part| is_table(part, MetadataVolume::Primary);
    let joliet_table = |part: Part| is_table(part, MetadataVolume::Joliet);
    let primary_directory = |part: Part| is_directory(part, MetadataVolume::Primary);
    let joliet_directory = |part: Part| is_directory(part, MetadataVolume::Joliet);
    let file = |part: Part| part is File;
    assert(differ_in_kind(state, tables, first, second, primary_table)) by {
        assert forall|offset: int|
            0 <= offset < first.len() && first[offset] != #[trigger] second[offset] implies exists|
            part: Part,
        | primary_table(part) && #[trigger] in_part(state, tables, part, offset) by {
            let k = choose|k: int|
                0 <= k < 4 && #[trigger] in_part(
                    state,
                    tables,
                    Part::Table { volume: MetadataVolume::Primary, index: k },
                    offset,
                );
            assert(primary_table(Part::Table { volume: MetadataVolume::Primary, index: k }));
        }
    }
    assert(tables_are_blank(state, tables, MetadataVolume::Joliet, second)) by {
        other_tables_stay_blank(state, tables, base, first, second);
    }
    let third = with_all_tables(iso, placed, first)->Ok_0;
    assert(differ_in_kind(state, tables, second, third, joliet_table)) by {
        if let Some(plan) = placed.joliet {
            tables_are_written(
                MetadataVolume::Joliet,
                state.joliet.placements,
                plan.table,
                iso.supplementary_volumes[0].path_table_little_hex,
                iso.supplementary_volumes[0].path_table_big_hex,
                state,
                tables,
                base,
                second,
            );
            assert forall|offset: int|
                0 <= offset < second.len() && second[offset]
                    != #[trigger] third[offset] implies exists|part: Part|
                joliet_table(part) && #[trigger] in_part(state, tables, part, offset) by {
                let k = choose|k: int|
                    0 <= k < 4 && #[trigger] in_part(
                        state,
                        tables,
                        Part::Table { volume: MetadataVolume::Joliet, index: k },
                        offset,
                    );
                assert(joliet_table(Part::Table { volume: MetadataVolume::Joliet, index: k }));
            }
        }
    }
    let fourth = with_directories_from(iso, nodes, spots, directories, third, 0)->Ok_0;
    directories_are_written(iso, nodes, spots, state, tables, base, third, 0);
    assert(differ_in_kind(state, tables, third, fourth, primary_directory)) by {
        assert forall|offset: int|
            0 <= offset < third.len() && third[offset] != #[trigger] fourth[offset] implies exists|
            part: Part,
        | primary_directory(part) && #[trigger] in_part(state, tables, part, offset) by {
            let j = choose|j: int|
                0 <= j < directories.len() && #[trigger] in_part(
                    state,
                    tables,
                    Part::Directory { volume: MetadataVolume::Primary, index: j },
                    offset,
                );
            assert(primary_directory(
                Part::Directory { volume: MetadataVolume::Primary, index: j },
            ));
        }
    }
    let fifth = with_all_directories(iso, placed, third)->Ok_0;
    assert(differ_in_kind(state, tables, fourth, fifth, joliet_directory)) by {
        if let Some(plan) = placed.joliet {
            let volume = iso.supplementary_volumes[0];
            joliet_directories_are_written(
                plan.nodes,
                joliet_spots(iso, state, volume),
                joliet_options(iso, volume),
                state,
                tables,
                base,
                fourth,
                0,
            );
            assert forall|offset: int|
                0 <= offset < fourth.len() && fourth[offset]
                    != #[trigger] fifth[offset] implies exists|part: Part|
                joliet_directory(part) && #[trigger] in_part(state, tables, part, offset) by {
                let j = choose|j: int|
                    0 <= j < state.joliet.placements.len() && #[trigger] in_part(
                        state,
                        tables,
                        Part::Directory { volume: MetadataVolume::Joliet, index: j },
                        offset,
                    );
                assert(joliet_directory(
                    Part::Directory { volume: MetadataVolume::Joliet, index: j },
                ));
            }
        }
    }
    assert(files_are_blank(state, tables, fifth)) by {
        assert forall|part: Part, offset: int| part is File && #[trigger] in_part(
            state,
            tables,
            part,
            offset,
        ) implies fifth[offset] == 0 by {
            parts_share_nothing(state, tables, base, part, part, offset);
            assert(first[offset] == empty[offset]);
            same_in_other_kinds(state, tables, base, first, second, primary_table, part, offset);
            same_in_other_kinds(state, tables, base, second, third, joliet_table, part, offset);
            same_in_other_kinds(
                state,
                tables,
                base,
                third,
                fourth,
                primary_directory,
                part,
                offset,
            );
            same_in_other_kinds(
                state,
                tables,
                base,
                fourth,
                fifth,
                joliet_directory,
                part,
                offset,
            );
        }
    }
    assert(unpadded_image(iso, placed, size) == fifth) by {
        reveal(unpadded_image);
    }
    paddings_are_written(iso.entries, state, tables, fifth, 0);
    assert(differ_in_kind(state, tables, fifth, image, file)) by {
        assert forall|offset: int|
            0 <= offset < fifth.len() && fifth[offset] != #[trigger] image[offset] implies exists|
            part: Part,
        | file(part) && #[trigger] in_part(state, tables, part, offset) by {
            let j = choose|j: int|
                0 <= j < state.files.len() && #[trigger] in_part(
                    state,
                    tables,
                    Part::File { index: j },
                    offset,
                );
            assert(file(Part::File { index: j }));
        }
    }
    let after_fourth = |part: Part| part is File || is_directory(part, MetadataVolume::Joliet);
    differences_add_up(
        state,
        tables,
        fourth,
        fifth,
        image,
        joliet_directory,
        file,
        after_fourth,
    );
    let after_third = |part: Part| part is File || part is Directory;
    differences_add_up(
        state,
        tables,
        third,
        fourth,
        image,
        primary_directory,
        after_fourth,
        after_third,
    );
    let after_second = |part: Part|
        is_written_part(part) && !is_table(part, MetadataVolume::Primary);
    differences_add_up(
        state,
        tables,
        second,
        third,
        image,
        joliet_table,
        after_third,
        after_second,
    );
    differences_add_up(state, tables, first, second, image, primary_table, after_second, written);
    assert(is_blank_elsewhere(state, tables, base, image)) by {
        assert forall|offset: int|
            base * 2048 <= offset < image.len() && #[trigger] image[offset] != 0 implies exists|
            part: Part,
        | is_written_part(part) && #[trigger] in_part(state, tables, part, offset) by {
            assert(first[offset] == empty[offset]);
            let part = choose|part: Part|
                written(part) && #[trigger] in_part(state, tables, part, offset);
            assert(is_written_part(part));
        }
    }
    descriptors_stay(iso, placed, size, tables, base, first, image, written);
    let bytes = table_bytes(
        directories,
        placed.table.size,
        iso.path_table_little_hex,
        iso.path_table_big_hex,
    )->Ok_0;
    tables_stay_apart(
        state,
        tables,
        base,
        MetadataVolume::Primary,
        placed.table,
        bytes,
        second,
        image,
        after_second,
    );
    assert forall|j: int|
        0 <= j < directories.len() && iso.entries[(
        #[trigger] directories[j]).entry].directory_reference is None implies primary_directory_lies(
        iso,
        nodes,
        spots,
        directories,
        image,
        j,
    ) by {
        let directory = directories[j];
        let parent = directories[directory.parent];
        let slack = iso.entries[directory.entry].directory_slack;
        directory_fills_blocks(nodes, spots, directory, parent, slack, primary_options(iso));
        assert(primary_directory_lies(iso, nodes, spots, directories, fourth, j));
        if directory.blocks > 0 {
            directory_stays(
                state,
                tables,
                base,
                MetadataVolume::Primary,
                j,
                fourth,
                image,
                after_fourth,
                directory_bytes(nodes, spots, directory, parent, slack, primary_options(iso))->Ok_0,
            );
        }
    }
    if let Some(plan) = placed.joliet {
        let volume = iso.supplementary_volumes[0];
        tables_are_written(
            MetadataVolume::Joliet,
            state.joliet.placements,
            plan.table,
            volume.path_table_little_hex,
            volume.path_table_big_hex,
            state,
            tables,
            base,
            second,
        );
        tables_stay_apart(
            state,
            tables,
            base,
            MetadataVolume::Joliet,
            plan.table,
            table_bytes(
                state.joliet.placements,
                plan.table.size,
                volume.path_table_little_hex,
                volume.path_table_big_hex,
            )->Ok_0,
            third,
            image,
            after_third,
        );
        let joliet_spots = joliet_spots(iso, state, volume);
        let options = joliet_options(iso, volume);
        joliet_directories_are_written(
            plan.nodes,
            joliet_spots,
            options,
            state,
            tables,
            base,
            fourth,
            0,
        );
        assert forall|j: int| 0 <= j < state.joliet.placements.len() implies
            #[trigger] joliet_directory_lies(
            plan.nodes,
            joliet_spots,
            state.joliet.placements,
            options,
            image,
            j,
        ) by {
            let directory = state.joliet.placements[j];
            let parent = state.joliet.placements[directory.parent];
            directory_fills_blocks(plan.nodes, joliet_spots, directory, parent, None, options);
            assert(joliet_directory_lies(
                plan.nodes,
                joliet_spots,
                state.joliet.placements,
                options,
                fifth,
                j,
            ));
            if directory.blocks > 0 {
                directory_stays(
                    state,
                    tables,
                    base,
                    MetadataVolume::Joliet,
                    j,
                    fifth,
                    image,
                    file,
                    directory_bytes(
                        plan.nodes,
                        joliet_spots,
                        directory,
                        parent,
                        None,
                        options,
                    )->Ok_0,
                );
            }
        }
    }
}

/// An image in which nothing but files differs from one that holds the parts of a
/// filesystem holds them too, and is zero outside them where the other is.
pub proof fn parts_stay(iso: IsoModel, placed: Placed, size: u32, before: Seq<u8>, after: Seq<u8>)
    requires
        holds_parts(iso, placed, size, before),
        is_blank_elsewhere(placed.state, table_blocks(placed), descriptors_end(iso), before),
        are_apart(placed.state, table_blocks(placed), descriptors_end(iso)),
        is_marked(placed.state),
        placed.state.tables.len() == 4,
        placed.state.joliet_tables.len() == 4,
        all_placed(placed.state.primary.placed),
        placed.joliet is Some ==> all_placed(placed.state.joliet.placed),
        placed.table.blocks > 0,
        placed.joliet matches Some(plan) ==> plan.table.blocks > 0,
        (placed.joliet is Some) == (iso.supplementary_volumes.len() > 0),
        before.len() == after.len(),
        descriptors_end(iso) * 2048 <= before.len(),
        forall|offset: int|
            0 <= offset < before.len() && before[offset] != #[trigger] after[offset] ==> exists|
                j: int,
            |
                #[trigger] in_part(
                    placed.state,
                    table_blocks(placed),
                    Part::File { index: j },
                    offset,
                ),
    ensures
        holds_parts(iso, placed, size, after),
        is_blank_elsewhere(placed.state, table_blocks(placed), descriptors_end(iso), after),
{
    reveal(holds_parts);
    let state = placed.state;
    let tables = table_blocks(placed);
    let base = descriptors_end(iso);
    let nodes = primary_nodes(iso);
    let spots = primary_spots(iso, state, nodes);
    let directories = state.primary.placements;
    let file = |part: Part| part is File;
    assert(differ_in_kind(state, tables, before, after, file)) by {
        assert forall|offset: int|
            0 <= offset < before.len() && before[offset] != #[trigger] after[offset] implies exists|
            part: Part,
        | file(part) && #[trigger] in_part(state, tables, part, offset) by {
            let j = choose|j: int|
                #[trigger] in_part(state, tables, Part::File { index: j }, offset);
            assert(file(Part::File { index: j }));
        }
    }
    assert(is_blank_elsewhere(state, tables, base, after)) by {
        assert forall|offset: int|
            base * 2048 <= offset < after.len() && #[trigger] after[offset] != 0 implies exists|
            part: Part,
        | is_written_part(part) && #[trigger] in_part(state, tables, part, offset) by {
            if before[offset] != after[offset] {
                let part = choose|part: Part|
                    file(part) && #[trigger] in_part(state, tables, part, offset);
                assert(is_written_part(part));
            }
        }
    }
    descriptors_stay(iso, placed, size, tables, base, before, after, file);
    let bytes = table_bytes(
        directories,
        placed.table.size,
        iso.path_table_little_hex,
        iso.path_table_big_hex,
    )->Ok_0;
    tables_stay_apart(
        state,
        tables,
        base,
        MetadataVolume::Primary,
        placed.table,
        bytes,
        before,
        after,
        file,
    );
    assert forall|j: int|
        0 <= j < directories.len() && iso.entries[(
        #[trigger] directories[j]).entry].directory_reference is None implies primary_directory_lies(
        iso,
        nodes,
        spots,
        directories,
        after,
        j,
    ) by {
        let directory = directories[j];
        let parent = directories[directory.parent];
        let slack = iso.entries[directory.entry].directory_slack;
        directory_fills_blocks(nodes, spots, directory, parent, slack, primary_options(iso));
        assert(primary_directory_lies(iso, nodes, spots, directories, before, j));
        if directory.blocks > 0 {
            directory_stays(
                state,
                tables,
                base,
                MetadataVolume::Primary,
                j,
                before,
                after,
                file,
                directory_bytes(nodes, spots, directory, parent, slack, primary_options(iso))->Ok_0,
            );
        }
    }
    if let Some(plan) = placed.joliet {
        let volume = iso.supplementary_volumes[0];
        tables_stay_apart(
            state,
            tables,
            base,
            MetadataVolume::Joliet,
            plan.table,
            table_bytes(
                state.joliet.placements,
                plan.table.size,
                volume.path_table_little_hex,
                volume.path_table_big_hex,
            )->Ok_0,
            before,
            after,
            file,
        );
        let joliet_spots = joliet_spots(iso, state, volume);
        let options = joliet_options(iso, volume);
        assert forall|j: int|
            0 <= j < state.joliet.placements.len() implies #[trigger] joliet_directory_lies(
            plan.nodes,
            joliet_spots,
            state.joliet.placements,
            options,
            after,
            j,
        ) by {
            let directory = state.joliet.placements[j];
            let parent = state.joliet.placements[directory.parent];
            directory_fills_blocks(plan.nodes, joliet_spots, directory, parent, None, options);
            assert(joliet_directory_lies(
                plan.nodes,
                joliet_spots,
                state.joliet.placements,
                options,
                before,
                j,
            ));
            if directory.blocks > 0 {
                directory_stays(
                    state,
                    tables,
                    base,
                    MetadataVolume::Joliet,
                    j,
                    before,
                    after,
                    file,
                    directory_bytes(plan.nodes, joliet_spots, directory, parent, None, options)->Ok_0,
                );
            }
        }
    }
}

/// Descriptors stay whole: no part reaches them.
proof fn descriptors_stay(
    iso: IsoModel,
    placed: Placed,
    size: u32,
    tables: TableBlocks,
    base: int,
    before: Seq<u8>,
    after: Seq<u8>,
    kind: spec_fn(Part) -> bool,
)
    requires
        are_apart(placed.state, tables, base),
        base == descriptors_end(iso),
        base * 2048 <= before.len(),
        (placed.joliet is Some) == (iso.supplementary_volumes.len() > 0),
        differ_in_kind(placed.state, tables, before, after, kind),
        descriptors_lie(iso, placed, size, before),
    ensures
        descriptors_lie(iso, placed, size, after),
{
    assert forall|offset: int| 0 <= offset < base * 2048 implies before[offset] == after[offset] by {
        descriptors_are_left(placed.state, tables, base, offset);
        assert(before[offset] == after[offset]);
    }
    let copies = iso.primary_volume_copies as int;
    let place = primary_place(placed.state, placed.table, size);
    let pvd = pvd_block(iso.primary_volume, place, iso.entries[0])->Ok_0;
    descriptor_length(pvd_fields(iso.primary_volume, place, iso.entries[0]));
    assert forall|k: int| 0 <= k < copies implies lies_at(after, #[trigger] (16 + k), pvd) by {
        assert(lies_at(before, 16 + k, pvd));
        lies_still(before, after, 16 + k, pvd);
    }
    lies_still(before, after, base - 1, descriptor_signature(255));
    if let Some(plan) = placed.joliet {
        let place = joliet_place(placed.state, plan.table, size);
        descriptor_length(svd_fields(iso.supplementary_volumes[0], place));
        lies_still(
            before,
            after,
            16 + copies,
            svd_block(iso.supplementary_volumes[0], place)->Ok_0,
        );
    }
}

/// A directory of a filesystem lies in the image that holds its parts.
pub proof fn directory_is_held(iso: IsoModel, placed: Placed, size: u32, image: Seq<u8>, index: int)
    requires
        holds_parts(iso, placed, size, image),
        0 <= index < placed.state.primary.placements.len(),
        iso.entries[placed.state.primary.placements[index].entry].directory_reference is None,
    ensures
        primary_directory_lies(
            iso,
            primary_nodes(iso),
            primary_spots(iso, placed.state, primary_nodes(iso)),
            placed.state.primary.placements,
            image,
            index,
        ),
{
    reveal(holds_parts);
}

} // verus!
