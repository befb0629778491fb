//! Laying a filesystem out: every block of the image but the file data.
use std::collections::{HashMap, HashSet};

use vstd::prelude::*;
use vstd::slice::slice_subrange;

use crate::bytes::{copy_of, fill, filled, put};
use crate::error::{failure, failure_at, failure_of, Error, ErrorKind, Failure};
use crate::hexcode::{decode, decoded};
use crate::iso9660::description::{
    Entry, EntryModel, GapItem, Iso9660, IsoModel, JolietModel, JolietVolume, PathTableCopies,
};
use crate::iso9660::descriptor_write::{
    descriptor_signature, pvd_block, serialize_joliet_svd, serialize_pvd, svd_block,
    DescriptorPlace, PlaceModel,
};
use crate::iso9660::directory::{
    directory_bytes, directory_record_file_length, has_room, put_fitting, recorded_length,
    serialize_directory, serialize_joliet_directory, FileModel, FilePlacement, Spot, SpotModel,
    TreeOptions,
};
use crate::iso9660::fields::to_block;
use crate::iso9660::layout_laws::all_have_room;
use crate::iso9660::path_table::{
    directory_position, find_directory, path_table, serialize_path_table, DirectoryPlacement,
    PlacementModel,
};
use crate::iso9660::placing::{
    flush, place_directory, place_items_from, place_metadata_from, place_reference_parents_from,
    place_rest_from, stepped, FileLength, FileLengthModel, GapPlacement, Placing, PlacingModel,
    Tree, TreeModel, XaExtentModel, XaExtentPlacement,
};
use crate::iso9660::record::{entry_xa_is_cdda, is_cdda, size_of_record};
use crate::iso9660::subheaders::{
    collect_subheaders, file_of, find_file_of, make_referenced_file, referenced_file,
    subheaders_of, SubheaderModel, Subheaders,
};
use crate::iso9660::tree::{
    child_lengths_keep, collect_joliet_nodes, collect_primary_nodes, directories_of,
    directory_record_lengths, joliet_nodes, order_directories, packed_from_grows, primary_nodes,
    record_lengths, records_length, system_use_size, well_placed, Node, NodeModel,
};
use crate::iso9660::validate::{description_check, validate_entries};
use crate::manifest::{
    DirectoryLengthPolicy, DirectoryRecordPacking, GapKind, MetadataVolume, PathTableOrder,
    PrimaryVolumeApplicationUse,
};
use crate::model::{
    accepts, agrees, ceil_div, ceil_div_u32, first_failure, opt_view, views, views_push,
};
use crate::raw_cd::Block;
use crate::text::same_text;
use crate::xa::XaSubheader;

verus! {

/// An image without its file data, and where that data goes.
#[derive(Debug)]
pub struct Layout {
    pub blocks: Vec<Block>,
    pub files: Vec<FilePlacement>,
    pub xa_extents: Vec<XaExtentPlacement>,
    pub gaps: Vec<GapPlacement>,
    pub data_subheader_sectors: HashSet<u32>,
    pub trailing_gap_kind: Option<GapKind>,
    pub end_of_file_data_subheader_sectors: HashSet<u32>,
    pub metadata_subheader_sectors: HashSet<u32>,
    pub framing_subheader_sectors: HashMap<u32, XaSubheader>,
    pub sector_file_numbers: HashMap<u32, u8>,
    pub volume_blocks: u32,
}

/// The mathematical form of a [`Layout`].
#[verifier::ext_equal]
pub struct LayoutModel {
    pub blocks: Seq<Seq<u8>>,
    pub files: Seq<FileModel>,
    pub xa_extents: Seq<XaExtentModel>,
    pub gaps: Seq<GapPlacement>,
    pub marks: SubheaderModel,
    pub trailing_gap_kind: Option<GapKind>,
    pub volume_blocks: u32,
}

impl View for Layout {
    type V = LayoutModel;

    open spec fn view(&self) -> LayoutModel {
        LayoutModel {
            blocks: views(self.blocks@),
            files: views(self.files@),
            xa_extents: views(self.xa_extents@),
            gaps: self.gaps@,
            marks: SubheaderModel {
                data: self.data_subheader_sectors@,
                end_of_file: self.end_of_file_data_subheader_sectors@,
                metadata: self.metadata_subheader_sectors@,
                framing: self.framing_subheader_sectors@,
                file_numbers: self.sector_file_numbers@,
            },
            trailing_gap_kind: self.trailing_gap_kind,
            volume_blocks: self.volume_blocks,
        }
    }
}

/// The size of a path table of the directories from `index` on.
pub open spec fn table_size_from(directories: Seq<PlacementModel>, index: int) -> int
    decreases directories.len() - index,
{
    if index < 0 || index >= directories.len() {
        0
    } else {
        8 + directories[index].name.len() + directories[index].name.len() % 2 + table_size_from(
            directories,
            index + 1,
        )
    }
}

/// A path table takes no less than nothing.
pub proof fn table_size_grows(directories: Seq<PlacementModel>, index: int)
    ensures
        table_size_from(directories, index) >= 0,
    decreases directories.len() - index,
{
    if 0 <= index < directories.len() {
        table_size_grows(directories, index + 1);
    }
}

/// Measures a path table, if its size fits 32 bits.
fn measure_table(directories: &Vec<DirectoryPlacement>) -> (size: Option<u32>)
    ensures
        match size {
            Some(size) => size == table_size_from(views(directories@), 0),
            None => table_size_from(views(directories@), 0) > u32::MAX,
        },
{
    let ghost model = views(directories@);
    let mut size: u64 = 0;
    let mut i: usize = 0;
    while i < directories.len()
        invariant
            i <= directories.len(),
            model == views(directories@),
            size <= u32::MAX,
            table_size_from(model, 0) == size + table_size_from(model, i as int),
        decreases directories.len() - i,
    {
        assert(model[i as int] == directories@[i as int]@);
        let length: usize = directories[i].name.len();
        proof {
            table_size_grows(model, i + 1);
        }
        if length > 0xffff_ffff {
            return None;
        }
        let total: u64 = size + 8 + length as u64 + length as u64 % 2;
        if total > 0xffff_ffff {
            return None;
        }
        size = total;
        i = i + 1;
    }
    Some(size as u32)
}

/// A path table: its size, and the blocks it takes.
#[derive(Clone, Copy)]
pub struct TablePlan {
    pub size: u32,
    pub blocks: u32,
}

/// The blocks that a number of bytes takes; at least one.
pub open spec fn blocks_for(size: int) -> int {
    if size <= 0 {
        1
    } else {
        ceil_div(size, 2048)
    }
}

/// The path table of a tree: its own size, or one that is recorded in its place
/// and takes as many blocks.
pub open spec fn table_plan(
    directories: Seq<PlacementModel>,
    recorded: Option<u32>,
    zero: ErrorKind,
    allocation: ErrorKind,
) -> Result<TablePlan, Failure> {
    let generated = table_size_from(directories, 0);
    let blocks = blocks_for(generated);
    if generated > u32::MAX {
        Err(failure(ErrorKind::IntegerConversion))
    } else {
        let size = match recorded {
            Some(size) => size,
            None => generated as u32,
        };
        if size == 0 {
            Err(failure(zero))
        } else if ceil_div(size as int, 2048) != blocks {
            Err(failure(allocation))
        } else {
            Ok(TablePlan { size, blocks: blocks as u32 })
        }
    }
}

fn plan_table(
    directories: &Vec<DirectoryPlacement>,
    recorded: Option<u32>,
    zero: ErrorKind,
    allocation: ErrorKind,
) -> (result: Result<TablePlan, Error>)
    ensures
        match (result, table_plan(views(directories@), recorded, zero, allocation)) {
            (Ok(plan), Ok(expected)) => plan == expected,
            (Err(error), Err(failure)) => error@ == failure,
            _ => false,
        },
{
    proof {
        table_size_grows(views(directories@), 0);
    }
    let generated: u32 = match measure_table(directories) {
        Some(size) => size,
        None => return Err(Error::new(ErrorKind::IntegerConversion)),
    };
    let blocks: u32 = if generated == 0 {
        1
    } else {
        ceil_div_u32(generated, 2048)
    };
    let size: u32 = match recorded {
        Some(size) => size,
        None => generated,
    };
    if size == 0 {
        return Err(Error::new(zero));
    }
    if ceil_div_u32(size, 2048) != blocks {
        return Err(Error::new(allocation));
    }
    Ok(TablePlan { size, blocks })
}

/// A directory's blocks and recorded length.
pub open spec fn directory_size(records: int, allocated: int, policy: DirectoryLengthPolicy) -> Result<
    (u32, u32),
    Failure,
> {
    let blocks = blocks_for(allocated);
    let length = match policy {
        DirectoryLengthPolicy::Allocated => blocks * 2048,
        DirectoryLengthPolicy::Records => records,
    };
    if blocks > u32::MAX || length > u32::MAX {
        Err(failure(ErrorKind::IntegerConversion))
    } else {
        Ok((blocks as u32, length as u32))
    }
}

fn size_directory(records: Option<u32>, allocated: Option<u64>, policy: DirectoryLengthPolicy, true_records: Ghost<int>, true_allocated: Ghost<int>) -> (result: Result<
    (u32, u32),
    Error,
>)
    requires
        match records {
            Some(records) => records == true_records@,
            None => true_records@ > u32::MAX,
        },
        match allocated {
            Some(allocated) => allocated == true_allocated@,
            None => true_allocated@ > 0xffff_ffff_ffff,
        },
        0 <= true_records@ <= true_allocated@,
    ensures
        match (result, directory_size(true_records@, true_allocated@, policy)) {
            (Ok(size), Ok(expected)) => size == expected,
            (Err(error), Err(failure)) => error@ == failure,
            _ => false,
        },
{
    match (records, allocated) {
        (Some(records), Some(allocated)) => {
            let blocks: u64 = if allocated == 0 {
                1
            } else {
                (allocated - 1) / 2048 + 1
            };
            if blocks > 0xffff_ffff {
                return Err(Error::new(ErrorKind::IntegerConversion));
            }
            let length: u64 = match policy {
                DirectoryLengthPolicy::Allocated => blocks * 2048,
                DirectoryLengthPolicy::Records => records as u64,
            };
            if length > 0xffff_ffff {
                return Err(Error::new(ErrorKind::IntegerConversion));
            }
            Ok((blocks as u32, length as u32))
        },
        _ => Err(Error::new(ErrorKind::IntegerConversion)),
    }
}

/// A directory of the primary tree with its size; one that is only referred to
/// has its extent too.
pub open spec fn sized_directory(iso: IsoModel, nodes: Seq<NodeModel>, directory: PlacementModel) -> Result<
    PlacementModel,
    Failure,
> {
    let entry = iso.entries[directory.entry];
    let records = records_length(
        nodes,
        directory.path,
        iso.xa_system_use,
        iso.directory_record_packing,
    );
    match entry.directory_reference {
        Some(reference) => Ok(
            PlacementModel {
                extent: reference.extent,
                blocks: 0,
                length: reference.length,
                ..directory
            },
        ),
        None => match entry.directory_slack {
            None => match directory_size(records, records, iso.directory_length_policy) {
                Err(failure) => Err(failure),
                Ok(size) => Ok(PlacementModel { blocks: size.0, length: size.1, ..directory }),
            },
            Some(slack) => match decoded(slack.hex, ErrorKind::SlackHex, directory.path) {
                Err(failure) => Err(failure),
                Ok(data) => {
                    let end = slack.offset + data.len();
                    match directory_size(
                        records,
                        if records > end {
                            records
                        } else {
                            end
                        },
                        iso.directory_length_policy,
                    ) {
                        Err(failure) => Err(failure),
                        Ok(size) => Ok(
                            PlacementModel { blocks: size.0, length: size.1, ..directory },
                        ),
                    }
                },
            },
        },
    }
}

/// Records take no less than nothing.
proof fn records_length_grows(nodes: Seq<NodeModel>, path: Seq<char>, system_use: bool, packing: DirectoryRecordPacking)
    ensures
        records_length(nodes, path, system_use, packing) >= 0,
{
    let dot = size_of_record(
        1,
        system_use_size(system_use),
    );
    child_lengths_keep(nodes, path, 0, seq![dot, dot]);
    let lengths = record_lengths(nodes, path, system_use);
    packed_from_grows(lengths, 0, 0, packing);
}

fn resize_directory(
    iso: &Iso9660,
    nodes: &Vec<Node>,
    directory: &DirectoryPlacement,
) -> (result: Result<(u32, u32, u32), Error>)
    requires
        directory.entry < iso.entries.len(),
    ensures
        match (result, sized_directory(iso@, views(nodes@), directory@)) {
            (Ok(size), Ok(expected)) => expected == (PlacementModel {
                extent: size.0,
                blocks: size.1,
                length: size.2,
                ..directory@
            }),
            (Err(error), Err(failure)) => error@ == failure,
            _ => false,
        },
{
    let entry: &Entry = &iso.entries[directory.entry];
    assert(iso@.entries[directory.entry as int] == entry@);
    match entry.directory_reference {
        Some(reference) => return Ok((reference.extent, 0, reference.length)),
        None => {},
    }
    let path: &str = directory.path.as_str();
    let records: Option<u32> = directory_record_lengths(
        path,
        nodes,
        iso.xa_system_use,
        iso.directory_record_packing,
    );
    let ghost true_records = records_length(
        views(nodes@),
        path@,
        iso.xa_system_use,
        iso.directory_record_packing,
    );
    proof {
        records_length_grows(
            views(nodes@),
            path@,
            iso.xa_system_use,
            iso.directory_record_packing,
        );
    }
    let mut allocated: Option<u64> = match records {
        Some(records) => Some(records as u64),
        None => None,
    };
    let ghost mut true_allocated = true_records;
    match &entry.directory_slack {
        None => {},
        Some(slack) => match decode(slack.hex.as_str(), ErrorKind::SlackHex, path) {
            Err(error) => return Err(error),
            Ok(data) => {
                proof {
                    let end = slack.offset + data@.len();
                    true_allocated = if true_records > end {
                        true_records
                    } else {
                        end
                    };
                }
                if data.len() as u64 > 0xffff_ffff_ffff {
                    allocated = None;
                } else {
                    let end: u64 = slack.offset as u64 + data.len() as u64;
                    allocated = match records {
                        Some(records) => if records as u64 > end {
                            Some(records as u64)
                        } else {
                            Some(end)
                        },
                        None => None,
                    };
                }
            },
        },
    }
    if records.is_none() {
        assert(directory_size(true_records, true_allocated, iso.directory_length_policy) is Err);
        return Err(Error::new(ErrorKind::IntegerConversion));
    }
    match size_directory(
        records,
        allocated,
        iso.directory_length_policy,
        Ghost(true_records),
        Ghost(true_allocated),
    ) {
        Err(error) => Err(error),
        Ok(size) => Ok((directory.extent, size.0, size.1)),
    }
}

/// `sized`, and then the directories from `index` on with their sizes.
pub open spec fn sized_directories_from(
    iso: IsoModel,
    nodes: Seq<NodeModel>,
    directories: Seq<PlacementModel>,
    index: int,
    sized: Seq<PlacementModel>,
) -> Result<Seq<PlacementModel>, Failure>
    decreases directories.len() - index,
{
    if index < 0 || index >= directories.len() {
        Ok(sized)
    } else {
        match sized_directory(iso, nodes, directories[index]) {
            Err(failure) => Err(failure),
            Ok(directory) => sized_directories_from(
                iso,
                nodes,
                directories,
                index + 1,
                sized.push(directory),
            ),
        }
    }
}

fn same_place(directory: &DirectoryPlacement, extent: u32, blocks: u32, length: u32) -> (result: DirectoryPlacement)
    ensures
        result@ == (PlacementModel { extent, blocks, length, ..directory@ }),
{
    let name: Vec<u8> = copy_of(directory.name.as_slice(), 0, directory.name.len());
    assert(name@ =~= directory.name@);
    DirectoryPlacement {
        path: directory.path.clone(),
        name,
        parent: directory.parent,
        entry: directory.entry,
        extent,
        blocks,
        length,
    }
}

fn size_directories(iso: &Iso9660, nodes: &Vec<Node>, directories: &Vec<DirectoryPlacement>) -> (result: Result<
    Vec<DirectoryPlacement>,
    Error,
>)
    requires
        well_placed(views(directories@), iso.entries.len() as int),
    ensures
        match (
            result,
            sized_directories_from(iso@, views(nodes@), views(directories@), 0, Seq::empty()),
        ) {
            (Ok(sized), Ok(expected)) => views(sized@) == expected && well_placed(
                expected,
                iso.entries.len() as int,
            ) && sized.len() == directories.len(),
            (Err(error), Err(failure)) => error@ == failure,
            _ => false,
        },
{
    let ghost model = views(directories@);
    let ghost tree = views(nodes@);
    let mut sized: Vec<DirectoryPlacement> = Vec::new();
    let mut i: usize = 0;
    assert(views(sized@) =~= Seq::<PlacementModel>::empty());
    while i < directories.len()
        invariant
            i <= directories.len(),
            model == views(directories@),
            tree == views(nodes@),
            well_placed(model, iso.entries.len() as int),
            sized.len() == i,
            forall|k: int|
                0 <= k < i ==> (#[trigger] views(sized@)[k]).entry == model[k].entry && views(
                    sized@,
                )[k].parent == model[k].parent,
            sized_directories_from(iso@, tree, model, 0, Seq::empty()) == sized_directories_from(
                iso@,
                tree,
                model,
                i as int,
                views(sized@),
            ),
        decreases directories.len() - i,
    {
        assert(model[i as int] == directories@[i as int]@);
        match resize_directory(iso, nodes, &directories[i]) {
            Err(error) => return Err(error),
            Ok((extent, blocks, length)) => {
                let directory: DirectoryPlacement = same_place(
                    &directories[i],
                    extent,
                    blocks,
                    length,
                );
                let ghost before = views(sized@);
                proof {
                    views_push(sized@, directory);
                }
                sized.push(directory);
                assert forall|k: int| 0 <= k < i + 1 implies (#[trigger] views(sized@)[k]).entry
                    == model[k].entry && views(sized@)[k].parent == model[k].parent by {
                    if k < i {
                        assert(views(sized@)[k] == before[k]);
                    }
                }
            },
        }
        i = i + 1;
    }
    proof {
        let placed = views(sized@);
        assert forall|k: int| 0 <= k < placed.len() implies 0 <= (#[trigger] placed[k]).entry
            < iso.entries.len() && 0 <= placed[k].parent < placed.len() by {
            assert(0 <= model[k].entry < iso.entries.len());
        }
    }
    Ok(sized)
}

/// A directory of the Joliet tree with its size.
pub open spec fn sized_joliet_directory(
    iso: IsoModel,
    nodes: Seq<NodeModel>,
    system_use: bool,
    directory: PlacementModel,
) -> Result<PlacementModel, Failure> {
    let records = records_length(nodes, directory.path, system_use, iso.directory_record_packing);
    match directory_size(records, records, iso.directory_length_policy) {
        Err(failure) => Err(failure),
        Ok(size) => Ok(PlacementModel { blocks: size.0, length: size.1, ..directory }),
    }
}

/// `sized`, and then the Joliet directories from `index` on with their sizes.
pub open spec fn sized_joliet_from(
    iso: IsoModel,
    nodes: Seq<NodeModel>,
    system_use: bool,
    directories: Seq<PlacementModel>,
    index: int,
    sized: Seq<PlacementModel>,
) -> Result<Seq<PlacementModel>, Failure>
    decreases directories.len() - index,
{
    if index < 0 || index >= directories.len() {
        Ok(sized)
    } else {
        match sized_joliet_directory(iso, nodes, system_use, directories[index]) {
            Err(failure) => Err(failure),
            Ok(directory) => sized_joliet_from(
                iso,
                nodes,
                system_use,
                directories,
                index + 1,
                sized.push(directory),
            ),
        }
    }
}

fn size_joliet_directories(
    iso: &Iso9660,
    nodes: &Vec<Node>,
    system_use: bool,
    directories: &Vec<DirectoryPlacement>,
) -> (result: Result<Vec<DirectoryPlacement>, Error>)
    requires
        well_placed(views(directories@), nodes.len() as int),
    ensures
        match (
            result,
            sized_joliet_from(
                iso@,
                views(nodes@),
                system_use,
                views(directories@),
                0,
                Seq::empty(),
            ),
        ) {
            (Ok(sized), Ok(expected)) => views(sized@) == expected && well_placed(
                expected,
                nodes.len() as int,
            ) && sized.len() == directories.len(),
            (Err(error), Err(failure)) => error@ == failure,
            _ => false,
        },
{
    let ghost model = views(directories@);
    let ghost tree = views(nodes@);
    let mut sized: Vec<DirectoryPlacement> = Vec::new();
    let mut i: usize = 0;
    assert(views(sized@) =~= Seq::<PlacementModel>::empty());
    while i < directories.len()
        invariant
            i <= directories.len(),
            model == views(directories@),
            tree == views(nodes@),
            well_placed(model, nodes.len() as int),
            sized.len() == i,
            forall|k: int|
                0 <= k < i ==> (#[trigger] views(sized@)[k]).entry == model[k].entry && views(
                    sized@,
                )[k].parent == model[k].parent,
            sized_joliet_from(iso@, tree, system_use, model, 0, Seq::empty()) == sized_joliet_from(
                iso@,
                tree,
                system_use,
                model,
                i as int,
                views(sized@),
            ),
        decreases directories.len() - i,
    {
        assert(model[i as int] == directories@[i as int]@);
        let path: &str = directories[i].path.as_str();
        let records: Option<u32> = directory_record_lengths(
            path,
            nodes,
            system_use,
            iso.directory_record_packing,
        );
        let ghost true_records = records_length(
            tree,
            path@,
            system_use,
            iso.directory_record_packing,
        );
        proof {
            records_length_grows(tree, path@, system_use, iso.directory_record_packing);
        }
        let allocated: u32 = match records {
            Some(records) => records,
            None => {
                assert(directory_size(true_records, true_records, iso.directory_length_policy) is Err);
                return Err(Error::new(ErrorKind::IntegerConversion));
            },
        };
        match size_directory(
            records,
            Some(allocated as u64),
            iso.directory_length_policy,
            Ghost(true_records),
            Ghost(true_records),
        ) {
            Err(error) => return Err(error),
            Ok((blocks, length)) => {
                let directory: DirectoryPlacement = same_place(
                    &directories[i],
                    directories[i].extent,
                    blocks,
                    length,
                );
                let ghost before = views(sized@);
                proof {
                    views_push(sized@, directory);
                }
                sized.push(directory);
                assert forall|k: int| 0 <= k < i + 1 implies (#[trigger] views(sized@)[k]).entry
                    == model[k].entry && views(sized@)[k].parent == model[k].parent by {
                    if k < i {
                        assert(views(sized@)[k] == before[k]);
                    }
                }
            },
        }
        i = i + 1;
    }
    proof {
        let placed = views(sized@);
        assert forall|k: int| 0 <= k < placed.len() implies 0 <= (#[trigger] placed[k]).entry
            < nodes.len() && 0 <= placed[k].parent < placed.len() by {
            assert(0 <= model[k].entry < nodes.len());
        }
    }
    Ok(sized)
}

/// The number of path tables of an image without a Joliet volume.
pub open spec fn table_count(copies: PathTableCopies) -> int {
    match copies {
        PathTableCopies::Duplicate => 4,
        PathTableCopies::Single => 2,
    }
}

/// Where the path tables of an image without a Joliet volume lie.
pub open spec fn table_extents(start: int, stride: int, copies: PathTableCopies, order: PathTableOrder) -> Seq<
    u32,
> {
    let at = |k: int| (start + stride * k) as u32;
    match (copies, order) {
        (PathTableCopies::Duplicate, PathTableOrder::LittleEndianFirst) => seq![
            at(0),
            at(1),
            at(2),
            at(3),
        ],
        (PathTableCopies::Duplicate, PathTableOrder::BigEndianFirst) => seq![
            at(2),
            at(3),
            at(0),
            at(1),
        ],
        (PathTableCopies::Single, PathTableOrder::LittleEndianFirst) => seq![at(0), 0u32, at(1), 0u32],
        (PathTableCopies::Single, PathTableOrder::BigEndianFirst) => seq![at(1), 0u32, at(0), 0u32],
    }
}

/// The gaps that pad the path tables.
pub open spec fn table_gaps(start: int, stride: int, blocks: u32, padding: u32, count: int) -> Seq<
    GapPlacement,
> {
    if padding == 0 {
        Seq::empty()
    } else {
        Seq::new(
            count as nat,
            |k: int|
                GapPlacement {
                    start: (start + stride * k + blocks) as u32,
                    sectors: padding,
                    kind: GapKind::Xa,
                    subheader: None,
                    form2_edc: None,
                },
        )
    }
}

/// The marks of the directories that need no place: those only referred to.
pub open spec fn reference_marks(iso: IsoModel, directories: Seq<PlacementModel>) -> Seq<bool> {
    Seq::new(
        directories.len(),
        |i: int| iso.entries[directories[i].entry].directory_reference is Some,
    )
}

/// Nothing is placed but the references to directories.
pub open spec fn nothing_placed(
    iso: IsoModel,
    directories: Seq<PlacementModel>,
    joliet: Seq<PlacementModel>,
    next: u32,
) -> PlacingModel {
    PlacingModel {
        next,
        primary: TreeModel {
            placements: directories,
            placed: reference_marks(iso, directories),
        },
        joliet: TreeModel { placements: joliet, placed: Seq::new(joliet.len(), |i: int| false) },
        tables: seq![0u32, 0u32, 0u32, 0u32],
        joliet_tables: seq![0u32, 0u32, 0u32, 0u32],
        files: Seq::empty(),
        xa_extents: Seq::empty(),
        gaps: Seq::empty(),
        pending: Seq::empty(),
        trailing: None,
    }
}

/// The path tables and the root directory of an image without a Joliet volume.
pub open spec fn place_plain_metadata(iso: IsoModel, directories: Seq<PlacementModel>, blocks: u32) -> Result<
    PlacingModel,
    Failure,
> {
    let start = 17 + iso.primary_volume_copies;
    let stride = blocks + iso.path_table_padding;
    let count = table_count(iso.path_table_copies);
    if start + stride * count > u32::MAX {
        Err(failure(ErrorKind::PlacementOverflow))
    } else {
        place_directory(
            PlacingModel {
                tables: table_extents(start, stride, iso.path_table_copies, iso.path_table_order),
                gaps: table_gaps(start, stride, blocks, iso.path_table_padding, count),
                ..nothing_placed(
                    iso,
                    directories,
                    Seq::empty(),
                    (start + stride * count) as u32,
                )
            },
            MetadataVolume::Primary,
            0,
            ErrorKind::PlacementOverflow,
        )
    }
}

fn mark_references(iso: &Iso9660, directories: &Vec<DirectoryPlacement>) -> (marks: Vec<bool>)
    requires
        well_placed(views(directories@), iso.entries.len() as int),
    ensures
        marks@ == reference_marks(iso@, views(directories@)),
{
    let ghost model = views(directories@);
    let mut marks: Vec<bool> = Vec::new();
    let mut i: usize = 0;
    while i < directories.len()
        invariant
            i <= directories.len(),
            model == views(directories@),
            well_placed(model, iso.entries.len() as int),
            marks@ == reference_marks(iso@, model).take(i as int),
        decreases directories.len() - i,
    {
        assert(model[i as int] == directories@[i as int]@);
        assert(0 <= model[i as int].entry < iso.entries.len());
        assert(iso@.entries[directories[i as int].entry as int] == iso.entries@[directories[i as int].entry as int]@);
        marks.push(iso.entries[directories[i].entry].directory_reference.is_some());
        i = i + 1;
        assert(marks@ =~= reference_marks(iso@, model).take(i as int));
    }
    assert(reference_marks(iso@, model).take(i as int) =~= reference_marks(iso@, model));
    marks
}

fn no_marks(count: usize) -> (marks: Vec<bool>)
    ensures
        marks@ == Seq::new(count as nat, |i: int| false),
{
    let mut marks: Vec<bool> = Vec::new();
    let mut i: usize = 0;
    while i < count
        invariant
            i <= count,
            marks@ == Seq::new(i as nat, |k: int| false),
        decreases count - i,
    {
        marks.push(false);
        i = i + 1;
        assert(marks@ =~= Seq::new(i as nat, |k: int| false));
    }
    marks
}

fn start_placing(
    iso: &Iso9660,
    directories: Vec<DirectoryPlacement>,
    joliet: Vec<DirectoryPlacement>,
    next: u32,
    joliet_count: Ghost<int>,
) -> (state: Placing)
    requires
        well_placed(views(directories@), iso.entries.len() as int),
        well_placed(views(joliet@), joliet_count@),
        directories.len() > 0,
        joliet_count@ > 0 ==> joliet.len() > 0,
    ensures
        state@ == nothing_placed(iso@, views(directories@), views(joliet@), next),
        state@.shaped(iso.entries.len() as int, joliet_count@),
{
    let placed: Vec<bool> = mark_references(iso, &directories);
    let joliet_placed: Vec<bool> = no_marks(joliet.len());
    let state = Placing {
        next,
        primary: Tree { placements: directories, placed },
        joliet: Tree { placements: joliet, placed: joliet_placed },
        tables: [0u32, 0u32, 0u32, 0u32],
        joliet_tables: [0u32, 0u32, 0u32, 0u32],
        files: Vec::new(),
        xa_extents: Vec::new(),
        gaps: Vec::new(),
        pending: Vec::new(),
        trailing: None,
    };
    assert(state@ =~= nothing_placed(iso@, views(directories@), views(joliet@), next));
    state
}

fn list_table_gaps(start: u32, stride: u32, blocks: u32, padding: u32, count: u32) -> (gaps: Vec<
    GapPlacement,
>)
    requires
        start + stride * count <= u32::MAX,
        blocks <= stride,
    ensures
        gaps@ == table_gaps(start as int, stride as int, blocks, padding, count as int),
{
    let mut gaps: Vec<GapPlacement> = Vec::new();
    if padding == 0 {
        assert(gaps@ =~= table_gaps(start as int, stride as int, blocks, padding, count as int));
        return gaps;
    }
    let mut k: u32 = 0;
    while k < count
        invariant
            k <= count,
            padding != 0,
            start + stride * count <= u32::MAX,
            blocks <= stride,
            gaps@ == table_gaps(start as int, stride as int, blocks, padding, k as int),
        decreases count - k,
    {
        assert(stride * (k + 1) <= stride * count) by (nonlinear_arith)
            requires
                k + 1 <= count,
                stride >= 0,
        ;
        assert(stride * (k + 1) == stride * k + stride) by (nonlinear_arith);
        assert(stride * k >= 0) by (nonlinear_arith)
            requires
                stride >= 0,
                k >= 0,
        ;
        let at: u32 = start + stride * k + blocks;
        gaps.push(
            GapPlacement {
                start: at,
                sectors: padding,
                kind: GapKind::Xa,
                subheader: None,
                form2_edc: None,
            },
        );
        k = k + 1;
        assert(gaps@ =~= table_gaps(start as int, stride as int, blocks, padding, k as int));
    }
    gaps
}

fn list_tables(start: u32, stride: u32, copies: PathTableCopies, order: PathTableOrder) -> (tables: [u32; 4])
    requires
        start + stride * table_count(copies) <= u32::MAX,
    ensures
        tables@ == table_extents(start as int, stride as int, copies, order),
{
    let first: u32 = start;
    let second: u32 = start + stride;
    let tables: [u32; 4] = match copies {
        PathTableCopies::Duplicate => {
            let third: u32 = start + stride * 2;
            let fourth: u32 = start + stride * 3;
            match order {
                PathTableOrder::LittleEndianFirst => [first, second, third, fourth],
                PathTableOrder::BigEndianFirst => [third, fourth, first, second],
            }
        },
        PathTableCopies::Single => match order {
            PathTableOrder::LittleEndianFirst => [first, 0u32, second, 0u32],
            PathTableOrder::BigEndianFirst => [second, 0u32, first, 0u32],
        },
    };
    assert(tables@ =~= table_extents(start as int, stride as int, copies, order));
    tables
}

fn place_plain(iso: &Iso9660, directories: Vec<DirectoryPlacement>, blocks: u32) -> (result: Result<
    Placing,
    Error,
>)
    requires
        well_placed(views(directories@), iso.entries.len() as int),
        directories.len() > 0,
        blocks + iso.path_table_padding <= u32::MAX,
    ensures
        match (result, place_plain_metadata(iso@, views(directories@), blocks)) {
            (Ok(state), Ok(expected)) => state@ == expected && state@.shaped(
                iso.entries.len() as int,
                0,
            ),
            (Err(error), Err(failure)) => error@ == failure,
            _ => false,
        },
{
    let start: u32 = 17 + iso.primary_volume_copies as u32;
    let stride: u32 = blocks + iso.path_table_padding;
    let count: u32 = match iso.path_table_copies {
        PathTableCopies::Duplicate => 4,
        PathTableCopies::Single => 2,
    };
    let next: u64 = start as u64 + stride as u64 * count as u64;
    if next > 0xffff_ffff {
        return Err(Error::new(ErrorKind::PlacementOverflow));
    }
    let nothing: Vec<DirectoryPlacement> = Vec::new();
    assert(views(nothing@) =~= Seq::<PlacementModel>::empty());
    let mut state: Placing = start_placing(iso, directories, nothing, next as u32, Ghost(0int));
    let ghost before = state@;
    state.tables = list_tables(start, stride, iso.path_table_copies, iso.path_table_order);
    state.gaps = list_table_gaps(start, stride, blocks, iso.path_table_padding, count);
    proof {
        let expected = PlacingModel {
            tables: table_extents(
                start as int,
                stride as int,
                iso.path_table_copies,
                iso.path_table_order,
            ),
            gaps: table_gaps(
                start as int,
                stride as int,
                blocks,
                iso.path_table_padding,
                count as int,
            ),
            ..before
        };
        assert(state@ =~= expected);
    }
    match state.place(
        MetadataVolume::Primary,
        0,
        ErrorKind::PlacementOverflow,
        Ghost(iso.entries.len() as int),
        Ghost(0int),
    ) {
        Err(error) => Err(error),
        Ok(_) => Ok(state),
    }
}

/// The metadata area of an image with a Joliet volume.
pub open spec fn place_joliet_metadata(
    iso: IsoModel,
    directories: Seq<PlacementModel>,
    joliet: Seq<PlacementModel>,
    blocks: u32,
    joliet_blocks: u32,
) -> Result<PlacingModel, Failure> {
    place_metadata_from(
        iso.metadata_layout,
        nothing_placed(
            iso,
            directories,
            joliet,
            (17 + iso.primary_volume_copies + iso.supplementary_volumes.len()) as u32,
        ),
        blocks,
        joliet_blocks,
        0,
    )
}

/// Every directory has a place.
pub open spec fn all_placed(placed: Seq<bool>) -> bool {
    forall|i: int| 0 <= i < placed.len() ==> placed[i]
}

fn are_all_placed(placed: &Vec<bool>) -> (all: bool)
    ensures
        all == all_placed(placed@),
{
    let mut i: usize = 0;
    while i < placed.len()
        invariant
            i <= placed.len(),
            forall|k: int| 0 <= k < i ==> placed@[k],
        decreases placed.len() - i,
    {
        if !placed[i] {
            return false;
        }
        i = i + 1;
    }
    true
}

/// Everything else: the directories that hold fixed extents, the file area, the
/// directories that are left, and the gaps before the end.
pub open spec fn place_contents(
    iso: IsoModel,
    lengths: Seq<FileLengthModel>,
    state: PlacingModel,
) -> Result<PlacingModel, Failure> {
    match place_reference_parents_from(iso, state, 1) {
        Err(failure) => Err(failure),
        Ok(state) => match place_items_from(iso, lengths, state, 0) {
            Err(failure) => Err(failure),
            Ok(state) => if iso.supplementary_volumes.len() > 0 {
                if all_placed(state.primary.placed) && all_placed(state.joliet.placed) {
                    flush(state)
                } else {
                    Err(failure(ErrorKind::JolietUnplaced))
                }
            } else {
                match place_rest_from(state, 0) {
                    Err(failure) => Err(failure),
                    Ok(state) => flush(state),
                }
            },
        },
    }
}

fn place_all_contents(
    iso: &Iso9660,
    lengths: &[FileLength],
    state: &mut Placing,
    joliet_count: Ghost<int>,
) -> (result: Result<(), Error>)
    requires
        old(state)@.shaped(iso.entries.len() as int, joliet_count@),
    ensures
        stepped(
            result,
            final(state)@,
            place_contents(iso@, views(lengths@), old(state)@),
        ),
        result is Ok ==> final(state)@.shaped(iso.entries.len() as int, joliet_count@),
{
    let count: Ghost<int> = Ghost(iso.entries.len() as int);
    match state.place_reference_parents(iso, count, joliet_count) {
        Err(error) => return Err(error),
        Ok(_) => {},
    }
    match state.place_items(iso, lengths, count, joliet_count) {
        Err(error) => return Err(error),
        Ok(_) => {},
    }
    if iso.supplementary_volumes.len() > 0 {
        if !are_all_placed(&state.primary.placed) || !are_all_placed(&state.joliet.placed) {
            return Err(Error::new(ErrorKind::JolietUnplaced));
        }
    } else {
        match state.place_rest(count, joliet_count) {
            Err(error) => return Err(error),
            Ok(_) => {},
        }
    }
    state.flush_pending()
}

/// Some XA extent holds the blocks of a file.
pub open spec fn is_backed(extents: Seq<XaExtentModel>, file: FileModel) -> bool {
    file.blocks > 0 && exists|i: int|
        0 <= i < extents.len() && (#[trigger] extents[i]).start <= file.extent && file.extent
            + file.blocks <= extents[i].start + extents[i].sectors
}

fn finds_backing(extents: &Vec<XaExtentPlacement>, file: &FilePlacement) -> (backed: bool)
    ensures
        backed == is_backed(views(extents@), file@),
{
    let ghost model = views(extents@);
    if file.blocks == 0 {
        return false;
    }
    let end: u64 = file.extent as u64 + file.blocks as u64;
    let mut i: usize = 0;
    while i < extents.len()
        invariant
            i <= extents.len(),
            model == views(extents@),
            file.blocks > 0,
            end == file.extent + file.blocks,
            forall|k: int|
                0 <= k < i ==> !((#[trigger] model[k]).start <= file.extent && end <= model[k].start
                    + model[k].sectors),
        decreases extents.len() - i,
    {
        assert(model[i as int] == extents@[i as int]@);
        if extents[i].start <= file.extent && end <= extents[i].start as u64
            + extents[i].sectors as u64 {
            return true;
        }
        i = i + 1;
    }
    false
}

/// What is wrong with the fixed extent of an entry.
pub open spec fn reference_backing_check(extents: Seq<XaExtentModel>, entry: EntryModel) -> Result<
    (),
    Failure,
> {
    let file = referenced_file(entry);
    if entry.extent is None || entry.unbacked || is_cdda(entry.xa) {
        Ok(())
    } else if file.extent + file.blocks > u32::MAX {
        Err(failure(ErrorKind::ReferenceOverflow))
    } else if !is_backed(extents, file) {
        Err(failure_of(ErrorKind::ReferenceUnbacked, entry.path))
    } else {
        Ok(())
    }
}

/// The checks of the fixed extents.
pub open spec fn reference_backing_checks(extents: Seq<XaExtentModel>, entries: Seq<EntryModel>) -> spec_fn(
    int,
) -> Result<(), Failure> {
    |i: int| reference_backing_check(extents, entries[i])
}

/// The end of the volume: that of the image, or of the last fixed extent of the
/// entries from `index` on.
pub open spec fn logical_end_from(entries: Seq<EntryModel>, end: u32, index: int) -> Result<u32, Failure>
    decreases entries.len() - index,
{
    if index < 0 || index >= entries.len() {
        Ok(end)
    } else if entries[index].extent is None {
        logical_end_from(entries, end, index + 1)
    } else {
        let file = referenced_file(entries[index]);
        if file.extent + file.blocks > u32::MAX {
            Err(failure(ErrorKind::FixedReferenceOverflow))
        } else {
            logical_end_from(
                entries,
                if file.extent + file.blocks > end {
                    (file.extent + file.blocks) as u32
                } else {
                    end
                },
                index + 1,
            )
        }
    }
}

/// The size of the volume that the descriptors record.
pub open spec fn logical_size(iso: IsoModel, state: PlacingModel, volume_blocks: u32) -> Result<
    u32,
    Failure,
> {
    match first_failure(
        reference_backing_checks(state.xa_extents, iso.entries),
        0,
        iso.entries.len() as int,
    ) {
        Err(failure) => Err(failure),
        Ok(_) => match logical_end_from(iso.entries, volume_blocks, 0) {
            Err(failure) => Err(failure),
            Ok(end) => match iso.primary_volume.volume_space_size {
                None => Ok(end),
                Some(size) => if size == 0 {
                    Err(failure(ErrorKind::VolumeSpaceZero))
                } else {
                    Ok(size)
                },
            },
        },
    }
}

fn check_backing(iso: &Iso9660, extents: &Vec<XaExtentPlacement>) -> (result: Result<(), Error>)
    ensures
        accepts(
            result,
            first_failure(
                reference_backing_checks(views(extents@), iso@.entries),
                0,
                iso@.entries.len() as int,
            ),
        ),
{
    let ghost checks = reference_backing_checks(views(extents@), iso@.entries);
    let ghost count = iso@.entries.len() as int;
    let mut i: usize = 0;
    while i < iso.entries.len()
        invariant
            i <= iso.entries.len(),
            count == iso@.entries.len(),
            checks == reference_backing_checks(views(extents@), iso@.entries),
            first_failure(checks, 0, count) == first_failure(
                checks,
                i as int,
                count,
            ),
        decreases iso.entries.len() - i,
    {
        let entry: &Entry = &iso.entries[i];
        assert(iso@.entries[i as int] == entry@);
        let cdda: bool = match &entry.xa {
            Some(xa) => entry_xa_is_cdda(xa),
            None => false,
        };
        if entry.extent.is_some() && !entry.unbacked && !cdda {
            let file: FilePlacement = make_referenced_file(entry);
            if file.extent.checked_add(file.blocks).is_none() {
                return Err(Error::new(ErrorKind::ReferenceOverflow));
            }
            if !finds_backing(extents, &file) {
                return Err(Error::of(ErrorKind::ReferenceUnbacked, entry.path.as_str()));
            }
        }
        i = i + 1;
    }
    Ok(())
}

fn find_logical_size(iso: &Iso9660, state: &Placing, volume_blocks: u32) -> (result: Result<u32, Error>)
    ensures
        match (result, logical_size(iso@, state@, volume_blocks)) {
            (Ok(size), Ok(expected)) => size == expected,
            (Err(error), Err(failure)) => error@ == failure,
            _ => false,
        },
{
    match check_backing(iso, &state.xa_extents) {
        Err(error) => return Err(error),
        Ok(_) => {},
    }
    let ghost model = iso@.entries;
    let mut end: u32 = volume_blocks;
    let mut i: usize = 0;
    while i < iso.entries.len()
        invariant
            i <= iso.entries.len(),
            model == views(iso.entries@),
            model == iso@.entries,
            first_failure(
                reference_backing_checks(state@.xa_extents, iso@.entries),
                0,
                iso@.entries.len() as int,
            ) is Ok,
            logical_end_from(model, volume_blocks, 0) == logical_end_from(model, end, i as int),
        decreases iso.entries.len() - i,
    {
        let entry: &Entry = &iso.entries[i];
        assert(model[i as int] == entry@);
        if entry.extent.is_some() {
            let file: FilePlacement = make_referenced_file(entry);
            match file.extent.checked_add(file.blocks) {
                None => return Err(Error::new(ErrorKind::FixedReferenceOverflow)),
                Some(value) => {
                    if value > end {
                        end = value;
                    }
                },
            }
        }
        i = i + 1;
    }
    match iso.primary_volume.volume_space_size {
        None => Ok(end),
        Some(size) => {
            if size == 0 {
                return Err(Error::new(ErrorKind::VolumeSpaceZero));
            }
            Ok(size)
        },
    }
}

/// Where the record of an entry of the primary tree points.
pub open spec fn primary_spot(iso: IsoModel, state: PlacingModel, nodes: Seq<NodeModel>, index: int) -> SpotModel {
    let entry = iso.entries[index];
    if nodes[index].directory {
        let directories = state.primary.placements;
        let at = find_directory(directories, entry.path);
        if at < directories.len() {
            SpotModel { extent: directories[at].extent, length: Ok(directories[at].length) }
        } else {
            SpotModel { extent: 0, length: Err(failure_of(ErrorKind::FileNotPlaced, entry.path)) }
        }
    } else {
        file_spot(entry, state.files)
    }
}

/// Where the record of a file points.
pub open spec fn file_spot(entry: EntryModel, files: Seq<FileModel>) -> SpotModel {
    match file_of(entry, files) {
        Some(file) => SpotModel { extent: file.extent, length: recorded_length(entry, file) },
        None => SpotModel { extent: 0, length: Err(failure_of(ErrorKind::FileNotPlaced, entry.path)) },
    }
}

/// The index of the first entry with a path, from `index` on, or their number.
pub open spec fn find_entry_from(entries: Seq<EntryModel>, path: Seq<char>, index: int) -> int
    decreases entries.len() - index,
{
    if index < 0 || index >= entries.len() {
        entries.len() as int
    } else if entries[index].path == path {
        index
    } else {
        find_entry_from(entries, path, index + 1)
    }
}

/// Where the record of an entry of the Joliet tree points.
pub open spec fn joliet_spot(iso: IsoModel, state: PlacingModel, volume: JolietModel, index: int) -> SpotModel {
    let entry = volume.entries[index];
    match entry.source {
        None => {
            let directories = state.joliet.placements;
            let at = find_directory(directories, entry.path);
            if at < directories.len() {
                SpotModel { extent: directories[at].extent, length: Ok(directories[at].length) }
            } else {
                SpotModel { extent: 0, length: Err(failure_of(ErrorKind::FileNotPlaced, entry.path)) }
            }
        },
        Some(source) => {
            let at = find_entry_from(iso.entries, source, 0);
            if at < iso.entries.len() {
                file_spot(iso.entries[at], state.files)
            } else {
                SpotModel { extent: 0, length: Err(failure_of(ErrorKind::FileNotPlaced, source)) }
            }
        },
    }
}

fn find_entry(entries: &Vec<Entry>, path: &str) -> (index: usize)
    ensures
        index == find_entry_from(views(entries@), path@, 0),
        index <= entries.len(),
{
    let ghost model = views(entries@);
    let mut index: usize = 0;
    while index < entries.len()
        invariant
            index <= entries.len(),
            model == views(entries@),
            find_entry_from(model, path@, 0) == find_entry_from(model, path@, index as int),
        decreases entries.len() - index,
    {
        assert(model[index as int] == entries@[index as int]@);
        if same_text(entries[index].path.as_str(), path) {
            return index;
        }
        index = index + 1;
    }
    index
}

fn directory_spot(directories: &Vec<DirectoryPlacement>, path: &str) -> (spot: Spot)
    ensures
        ({
            let at = find_directory(views(directories@), path@);
            spot@ == if at < directories@.len() {
                SpotModel {
                    extent: views(directories@)[at].extent,
                    length: Ok(views(directories@)[at].length),
                }
            } else {
                SpotModel { extent: 0, length: Err(failure_of(ErrorKind::FileNotPlaced, path@)) }
            }
        }),
{
    let at: usize = directory_position(directories, path);
    if at < directories.len() {
        assert(views(directories@)[at as int] == directories@[at as int]@);
        Spot { extent: directories[at].extent, length: Ok(directories[at].length) }
    } else {
        Spot { extent: 0, length: Err(Error::of(ErrorKind::FileNotPlaced, path)) }
    }
}

fn make_file_spot(entry: &Entry, files: &Vec<FilePlacement>) -> (spot: Spot)
    ensures
        spot@ == file_spot(entry@, views(files@)),
{
    match find_file_of(entry, files) {
        Some(file) => Spot {
            extent: file.extent,
            length: directory_record_file_length(entry, &file),
        },
        None => Spot {
            extent: 0,
            length: Err(Error::of(ErrorKind::FileNotPlaced, entry.path.as_str())),
        },
    }
}

/// Where the records of the primary tree point.
pub open spec fn primary_spots(iso: IsoModel, state: PlacingModel, nodes: Seq<NodeModel>) -> Seq<SpotModel> {
    Seq::new(iso.entries.len(), |i: int| primary_spot(iso, state, nodes, i))
}

/// Where the records of the Joliet tree point.
pub open spec fn joliet_spots(iso: IsoModel, state: PlacingModel, volume: JolietModel) -> Seq<SpotModel> {
    Seq::new(volume.entries.len(), |i: int| joliet_spot(iso, state, volume, i))
}

fn list_primary_spots(iso: &Iso9660, state: &Placing, nodes: &Vec<Node>) -> (spots: Vec<Spot>)
    requires
        nodes.len() == iso.entries.len(),
    ensures
        views(spots@) == primary_spots(iso@, state@, views(nodes@)),
        spots.len() == iso.entries.len(),
{
    let ghost all = primary_spots(iso@, state@, views(nodes@));
    let mut spots: Vec<Spot> = Vec::new();
    let mut i: usize = 0;
    while i < iso.entries.len()
        invariant
            i <= iso.entries.len(),
            nodes.len() == iso.entries.len(),
            all == primary_spots(iso@, state@, views(nodes@)),
            views(spots@) == all.take(i as int),
        decreases iso.entries.len() - i,
    {
        let entry: &Entry = &iso.entries[i];
        assert(iso@.entries[i as int] == entry@);
        assert(views(nodes@)[i as int] == nodes@[i as int]@);
        let spot: Spot = if nodes[i].directory {
            directory_spot(&state.primary.placements, entry.path.as_str())
        } else {
            make_file_spot(entry, &state.files)
        };
        proof {
            views_push(spots@, spot);
            assert(spot@ =~= all[i as int]);
        }
        spots.push(spot);
        i = i + 1;
        assert(views(spots@) =~= all.take(i as int));
    }
    assert(all.take(i as int) =~= all);
    assert(views(spots@).len() == spots@.len());
    spots
}

fn list_joliet_spots(iso: &Iso9660, state: &Placing, volume: &JolietVolume) -> (spots: Vec<Spot>)
    ensures
        views(spots@) == joliet_spots(iso@, state@, volume@),
        spots.len() == volume.entries.len(),
{
    let ghost all = joliet_spots(iso@, state@, volume@);
    let mut spots: Vec<Spot> = Vec::new();
    let mut i: usize = 0;
    while i < volume.entries.len()
        invariant
            i <= volume.entries.len(),
            all == joliet_spots(iso@, state@, volume@),
            views(spots@) == all.take(i as int),
        decreases volume.entries.len() - i,
    {
        let entry = &volume.entries[i];
        assert(volume@.entries[i as int] == entry@);
        let spot: Spot = match &entry.source {
            None => directory_spot(&state.joliet.placements, entry.path.as_str()),
            Some(source) => {
                let at: usize = find_entry(&iso.entries, source.as_str());
                if at < iso.entries.len() {
                    assert(iso@.entries[at as int] == iso.entries@[at as int]@);
                    make_file_spot(&iso.entries[at], &state.files)
                } else {
                    Spot { extent: 0, length: Err(Error::of(ErrorKind::FileNotPlaced, source.as_str())) }
                }
            },
        };
        proof {
            views_push(spots@, spot);
            assert(spot@ =~= all[i as int]);
        }
        spots.push(spot);
        i = i + 1;
        assert(views(spots@) =~= all.take(i as int));
    }
    assert(all.take(i as int) =~= all);
    assert(views(spots@).len() == spots@.len());
    spots
}

/// The image with a block written at an extent.
pub open spec fn with_extent(image: Seq<u8>, extent: int, data: Seq<u8>) -> Seq<u8> {
    put(image, extent * 2048, data)
}

/// The image with a descriptor written `count` times from `extent` on.
pub open spec fn with_copies(image: Seq<u8>, extent: int, data: Seq<u8>, count: int) -> Seq<u8>
    decreases count,
{
    if count <= 0 {
        image
    } else {
        with_extent(with_copies(image, extent, data, count - 1), extent + count - 1, data)
    }
}

/// The path tables of a tree: given as digits, or made of its directories.
pub open spec fn table_bytes(
    directories: Seq<PlacementModel>,
    size: u32,
    little: Option<Seq<char>>,
    big: Option<Seq<char>>,
) -> Result<(Seq<u8>, Seq<u8>), Failure> {
    match (little, big) {
        (None, None) => match path_table(directories, false) {
            Err(failure) => Err(failure),
            Ok(little) => match path_table(directories, true) {
                Err(failure) => Err(failure),
                Ok(big) => Ok((little, big)),
            },
        },
        (Some(little), Some(big)) => match decoded(little, ErrorKind::TableLittleHex, Seq::empty()) {
            Err(failure) => Err(failure),
            Ok(little) => match decoded(big, ErrorKind::TableBigHex, Seq::empty()) {
                Err(failure) => Err(failure),
                Ok(big) => if little.len() == size && big.len() == size {
                    Ok((little, big))
                } else {
                    Err(failure_at(ErrorKind::TableHexSize, size as int))
                },
            },
        },
        _ => Err(failure(ErrorKind::TableHexPair)),
    }
}

/// The image with a path table written where it lies, if it lies anywhere.
pub open spec fn with_table(image: Seq<u8>, extent: u32, data: Seq<u8>, blocks: u32) -> Seq<u8> {
    if extent == 0 {
        image
    } else {
        with_extent(
            image,
            extent as int,
            data.take(
                if data.len() > blocks * 2048 {
                    blocks * 2048
                } else {
                    data.len() as int
                },
            ),
        )
    }
}

/// The image with the path tables of a tree written.
pub open spec fn with_tables(
    image: Seq<u8>,
    directories: Seq<PlacementModel>,
    tables: Seq<u32>,
    plan: TablePlan,
    little: Option<Seq<char>>,
    big: Option<Seq<char>>,
) -> Result<Seq<u8>, Failure> {
    match table_bytes(directories, plan.size, little, big) {
        Err(failure) => Err(failure),
        Ok(bytes) => {
            let image = with_table(image, tables[0], bytes.0, plan.blocks);
            let image = with_table(image, tables[1], bytes.0, plan.blocks);
            let image = with_table(image, tables[2], bytes.1, plan.blocks);
            Ok(with_table(image, tables[3], bytes.1, plan.blocks))
        },
    }
}

fn write_extent(image: &mut Vec<u8>, extent: u32, data: &[u8])
    ensures
        final(image)@ == with_extent(old(image)@, extent as int, data@),
{
    put_fitting(image, extent as u64 * 2048, data);
}

fn write_table(image: &mut Vec<u8>, extent: u32, data: &Vec<u8>, blocks: u32)
    ensures
        final(image)@ == with_table(old(image)@, extent, data@, blocks),
{
    if extent == 0 {
        return;
    }
    let limit: u64 = blocks as u64 * 2048;
    let size: usize = if data.len() as u64 > limit {
        limit as usize
    } else {
        data.len()
    };
    let part: &[u8] = slice_subrange(data.as_slice(), 0, size);
    assert(part@ =~= data@.take(size as int));
    write_extent(image, extent, part);
}

fn make_tables(
    directories: &Vec<DirectoryPlacement>,
    size: u32,
    little: &Option<String>,
    big: &Option<String>,
) -> (result: Result<(Vec<u8>, Vec<u8>), Error>)
    ensures
        match (
            result,
            table_bytes(views(directories@), size, opt_view(*little), opt_view(*big)),
        ) {
            (Ok(tables), Ok(expected)) => (tables.0@, tables.1@) == expected,
            (Err(error), Err(failure)) => error@ == failure,
            _ => false,
        },
{
    let nothing: &str = "";
    proof {
        reveal_strlit("");
        assert(nothing@ =~= Seq::empty());
    }
    match (little, big) {
        (None, None) => match serialize_path_table(directories, false) {
            Err(error) => Err(error),
            Ok(little) => match serialize_path_table(directories, true) {
                Err(error) => Err(error),
                Ok(big) => Ok((little, big)),
            },
        },
        (Some(little), Some(big)) => match decode(little.as_str(), ErrorKind::TableLittleHex, nothing) {
            Err(error) => Err(error),
            Ok(little) => match decode(big.as_str(), ErrorKind::TableBigHex, nothing) {
                Err(error) => Err(error),
                Ok(big) => if little.len() as u64 == size as u64 && big.len() as u64 == size as u64 {
                    Ok((little, big))
                } else {
                    Err(Error::at(ErrorKind::TableHexSize, size as u64))
                },
            },
        },
        _ => Err(Error::new(ErrorKind::TableHexPair)),
    }
}

/// Writes the path tables of a tree.
pub fn write_path_tables(
    image: &mut Vec<u8>,
    directories: &Vec<DirectoryPlacement>,
    tables: &[u32; 4],
    plan: TablePlan,
    little: &Option<String>,
    big: &Option<String>,
) -> (result: Result<(), Error>)
    ensures
        match (
            result,
            with_tables(
                old(image)@,
                views(directories@),
                tables@,
                plan,
                opt_view(*little),
                opt_view(*big),
            ),
        ) {
            (Ok(_), Ok(expected)) => final(image)@ == expected,
            (Err(error), Err(failure)) => error@ == failure && final(image)@ == old(image)@,
            _ => false,
        },
{
    match make_tables(directories, plan.size, little, big) {
        Err(error) => Err(error),
        Ok((little_table, big_table)) => {
            write_table(image, tables[0], &little_table, plan.blocks);
            write_table(image, tables[1], &little_table, plan.blocks);
            write_table(image, tables[2], &big_table, plan.blocks);
            write_table(image, tables[3], &big_table, plan.blocks);
            Ok(())
        },
    }
}

/// How the directories of the primary tree are written.
pub open spec fn primary_options(iso: IsoModel) -> TreeOptions {
    TreeOptions {
        xa_system_use: iso.xa_system_use,
        trailing_system_use_padding: iso.primary_volume.application_use
            == PrimaryVolumeApplicationUse::CdRep20131,
        packing: iso.directory_record_packing,
        parent_time: iso.directory_parent_recording_time,
    }
}

/// How the directories of the Joliet tree are written.
pub open spec fn joliet_options(iso: IsoModel, volume: JolietModel) -> TreeOptions {
    TreeOptions {
        xa_system_use: volume.xa_system_use,
        trailing_system_use_padding: volume.descriptor.application_use
            == PrimaryVolumeApplicationUse::CdRep20131,
        packing: iso.directory_record_packing,
        parent_time: iso.directory_parent_recording_time,
    }
}

/// The image with the directories of the primary tree from `index` on written;
/// those only referred to are not in it.
pub open spec fn with_directories_from(
    iso: IsoModel,
    nodes: Seq<NodeModel>,
    spots: Seq<SpotModel>,
    directories: Seq<PlacementModel>,
    image: Seq<u8>,
    index: int,
) -> Result<Seq<u8>, Failure>
    decreases directories.len() - index,
{
    if index < 0 || index >= directories.len() {
        Ok(image)
    } else {
        let directory = directories[index];
        let entry = iso.entries[directory.entry];
        if entry.directory_reference is Some {
            with_directories_from(iso, nodes, spots, directories, image, index + 1)
        } else {
            match directory_bytes(
                nodes,
                spots,
                directory,
                directories[directory.parent],
                entry.directory_slack,
                primary_options(iso),
            ) {
                Err(failure) => Err(failure),
                Ok(data) => with_directories_from(
                    iso,
                    nodes,
                    spots,
                    directories,
                    with_extent(image, directory.extent as int, data),
                    index + 1,
                ),
            }
        }
    }
}

/// The image with the directories of the Joliet tree from `index` on written.
pub open spec fn with_joliet_directories_from(
    nodes: Seq<NodeModel>,
    spots: Seq<SpotModel>,
    directories: Seq<PlacementModel>,
    options: TreeOptions,
    image: Seq<u8>,
    index: int,
) -> Result<Seq<u8>, Failure>
    decreases directories.len() - index,
{
    if index < 0 || index >= directories.len() {
        Ok(image)
    } else {
        let directory = directories[index];
        match directory_bytes(
            nodes,
            spots,
            directory,
            directories[directory.parent],
            None,
            options,
        ) {
            Err(failure) => Err(failure),
            Ok(data) => with_joliet_directories_from(
                nodes,
                spots,
                directories,
                options,
                with_extent(image, directory.extent as int, data),
                index + 1,
            ),
        }
    }
}

/// The records of every directory that an image is to hold fit its blocks.
pub open spec fn directories_have_room(iso: IsoModel, placed: Placed) -> bool {
    let state = placed.state;
    let nodes = primary_nodes(iso);
    let volume = iso.supplementary_volumes[0];
    &&& primary_has_room(
        iso,
        nodes,
        primary_spots(iso, state, nodes),
        state.primary.placements,
    )
    &&& placed.joliet matches Some(plan) ==> joliet_has_room(
        plan.nodes,
        joliet_spots(iso, state, volume),
        state.joliet.placements,
        joliet_options(iso, volume),
    )
}

/// The records of every directory of the primary tree fit its blocks; those that are
/// only referred to have none.
pub open spec fn primary_has_room(
    iso: IsoModel,
    nodes: Seq<NodeModel>,
    spots: Seq<SpotModel>,
    directories: Seq<PlacementModel>,
) -> bool {
    forall|i: int|
        0 <= i < directories.len() && iso.entries[(
        #[trigger] directories[i]).entry].directory_reference is None ==> has_room(
            nodes,
            spots,
            directories[i],
            directories[directories[i].parent],
            primary_options(iso),
        )
}

/// The records of every directory of the Joliet tree fit its blocks.
pub open spec fn joliet_has_room(
    nodes: Seq<NodeModel>,
    spots: Seq<SpotModel>,
    directories: Seq<PlacementModel>,
    options: TreeOptions,
) -> bool {
    forall|i: int|
        0 <= i < directories.len() ==> has_room(
            nodes,
            spots,
            #[trigger] directories[i],
            directories[directories[i].parent],
            options,
        )
}

fn write_directories(
    iso: &Iso9660,
    nodes: &Vec<Node>,
    spots: &Vec<Spot>,
    directories: &Vec<DirectoryPlacement>,
    image: &mut Vec<u8>,
) -> (result: Result<(), Error>)
    requires
        well_placed(views(directories@), iso.entries.len() as int),
        nodes.len() == iso.entries.len(),
        spots.len() == iso.entries.len(),
        primary_has_room(iso@, views(nodes@), views(spots@), views(directories@)),
    ensures
        match (
            result,
            with_directories_from(
                iso@,
                views(nodes@),
                views(spots@),
                views(directories@),
                old(image)@,
                0,
            ),
        ) {
            (Ok(_), Ok(expected)) => final(image)@ == expected,
            (Err(error), Err(failure)) => error@ == failure,
            _ => false,
        },
{
    let options = TreeOptions {
        xa_system_use: iso.xa_system_use,
        trailing_system_use_padding: iso.primary_volume.application_use
            == PrimaryVolumeApplicationUse::CdRep20131,
        packing: iso.directory_record_packing,
        parent_time: iso.directory_parent_recording_time,
    };
    let ghost tree = views(nodes@);
    let ghost points = views(spots@);
    let ghost model = views(directories@);
    let ghost start = image@;
    let mut i: usize = 0;
    while i < directories.len()
        invariant
            i <= directories.len(),
            tree == views(nodes@),
            points == views(spots@),
            model == views(directories@),
            start == old(image)@,
            options == primary_options(iso@),
            well_placed(model, iso.entries.len() as int),
            nodes.len() == iso.entries.len(),
            spots.len() == iso.entries.len(),
            primary_has_room(iso@, tree, points, model),
            with_directories_from(iso@, tree, points, model, start, 0) == with_directories_from(
                iso@,
                tree,
                points,
                model,
                image@,
                i as int,
            ),
        decreases directories.len() - i,
    {
        let directory: &DirectoryPlacement = &directories[i];
        assert(model[i as int] == directory@);
        assert(0 <= model[i as int].entry < iso.entries.len() && 0 <= model[i as int].parent
            < model.len());
        let parent: &DirectoryPlacement = &directories[directory.parent];
        assert(model[directory.parent as int] == parent@);
        assert(0 <= model[directory.parent as int].entry < iso.entries.len());
        let entry: &Entry = &iso.entries[directory.entry];
        assert(iso@.entries[directory.entry as int] == entry@);
        if entry.directory_reference.is_none() {
            match serialize_directory(
                nodes,
                spots,
                directory,
                parent,
                &entry.directory_slack,
                options,
            ) {
                Err(error) => return Err(error),
                Ok(data) => {
                    write_extent(image, directory.extent, data.as_slice());
                },
            }
        }
        i = i + 1;
    }
    Ok(())
}

fn write_joliet_directories(
    nodes: &Vec<Node>,
    spots: &Vec<Spot>,
    directories: &Vec<DirectoryPlacement>,
    options: TreeOptions,
    image: &mut Vec<u8>,
) -> (result: Result<(), Error>)
    requires
        well_placed(views(directories@), nodes.len() as int),
        spots.len() == nodes.len(),
        joliet_has_room(views(nodes@), views(spots@), views(directories@), options),
    ensures
        match (
            result,
            with_joliet_directories_from(
                views(nodes@),
                views(spots@),
                views(directories@),
                options,
                old(image)@,
                0,
            ),
        ) {
            (Ok(_), Ok(expected)) => final(image)@ == expected,
            (Err(error), Err(failure)) => error@ == failure,
            _ => false,
        },
{
    let ghost tree = views(nodes@);
    let ghost points = views(spots@);
    let ghost model = views(directories@);
    let ghost start = image@;
    let mut i: usize = 0;
    while i < directories.len()
        invariant
            i <= directories.len(),
            tree == views(nodes@),
            points == views(spots@),
            model == views(directories@),
            start == old(image)@,
            well_placed(model, nodes.len() as int),
            spots.len() == nodes.len(),
            joliet_has_room(tree, points, model, options),
            with_joliet_directories_from(tree, points, model, options, start, 0)
                == with_joliet_directories_from(tree, points, model, options, image@, i as int),
        decreases directories.len() - i,
    {
        let directory: &DirectoryPlacement = &directories[i];
        assert(model[i as int] == directory@);
        assert(0 <= model[i as int].entry < nodes.len() && 0 <= model[i as int].parent < model.len());
        let parent: &DirectoryPlacement = &directories[directory.parent];
        assert(model[directory.parent as int] == parent@);
        assert(0 <= model[directory.parent as int].entry < nodes.len());
        match serialize_joliet_directory(nodes, spots, directory, parent, options) {
            Err(error) => return Err(error),
            Ok(data) => {
                write_extent(image, directory.extent, data.as_slice());
            },
        }
        i = i + 1;
    }
    Ok(())
}

/// The image with the bytes that follow the data of an entry's file in its last
/// block.
pub open spec fn with_padding(image: Seq<u8>, entry: EntryModel, files: Seq<FileModel>) -> Result<
    Seq<u8>,
    Failure,
> {
    match entry.allocation_padding_hex {
        None => Ok(image),
        Some(text) => match file_of(entry, files) {
            None => Err(failure_of(ErrorKind::FileNotPlaced, entry.path)),
            Some(file) => {
                let offset = (file.length % 2048) as int;
                if offset == 0 || file.blocks == 0 {
                    Err(failure_of(ErrorKind::PaddingAligned, entry.path))
                } else {
                    match decoded(text, ErrorKind::PaddingHex, entry.path) {
                        Err(failure) => Err(failure),
                        Ok(data) => if data.len() == 0 || data.last() == 0 || data.len() > 2048
                            - offset {
                            Err(failure_of(ErrorKind::PaddingInvalid, entry.path))
                        } else {
                            Ok(put(image, (file.extent + file.blocks - 1) * 2048 + offset, data))
                        },
                    }
                }
            },
        },
    }
}

/// The image with the padding of the entries from `index` on.
pub open spec fn with_paddings_from(
    image: Seq<u8>,
    entries: Seq<EntryModel>,
    files: Seq<FileModel>,
    index: int,
) -> Result<Seq<u8>, Failure>
    decreases entries.len() - index,
{
    if index < 0 || index >= entries.len() {
        Ok(image)
    } else {
        match with_padding(image, entries[index], files) {
            Err(failure) => Err(failure),
            Ok(image) => with_paddings_from(image, entries, files, index + 1),
        }
    }
}

fn write_padding(image: &mut Vec<u8>, entry: &Entry, files: &Vec<FilePlacement>) -> (result: Result<
    (),
    Error,
>)
    ensures
        match (result, with_padding(old(image)@, entry@, views(files@))) {
            (Ok(_), Ok(expected)) => final(image)@ == expected,
            (Err(error), Err(failure)) => error@ == failure,
            _ => false,
        },
{
    let path: &str = entry.path.as_str();
    match &entry.allocation_padding_hex {
        None => Ok(()),
        Some(text) => match find_file_of(entry, files) {
            None => Err(Error::of(ErrorKind::FileNotPlaced, path)),
            Some(file) => {
                let offset: u64 = file.length % 2048;
                if offset == 0 || file.blocks == 0 {
                    return Err(Error::of(ErrorKind::PaddingAligned, path));
                }
                match decode(text.as_str(), ErrorKind::PaddingHex, path) {
                    Err(error) => Err(error),
                    Ok(data) => {
                        if data.len() == 0 || data[data.len() - 1] == 0 || data.len() as u64 > 2048
                            - offset {
                            return Err(Error::of(ErrorKind::PaddingInvalid, path));
                        }
                        put_fitting(
                            image,
                            (file.extent as u64 + file.blocks as u64 - 1) * 2048 + offset,
                            data.as_slice(),
                        );
                        Ok(())
                    },
                }
            },
        },
    }
}

fn write_paddings(image: &mut Vec<u8>, entries: &Vec<Entry>, files: &Vec<FilePlacement>) -> (result: Result<
    (),
    Error,
>)
    ensures
        match (result, with_paddings_from(old(image)@, views(entries@), views(files@), 0)) {
            (Ok(_), Ok(expected)) => final(image)@ == expected,
            (Err(error), Err(failure)) => error@ == failure,
            _ => false,
        },
{
    let ghost model = views(entries@);
    let ghost placed = views(files@);
    let ghost start = image@;
    let mut i: usize = 0;
    while i < entries.len()
        invariant
            i <= entries.len(),
            model == views(entries@),
            placed == views(files@),
            start == old(image)@,
            with_paddings_from(start, model, placed, 0) == with_paddings_from(
                image@,
                model,
                placed,
                i as int,
            ),
        decreases entries.len() - i,
    {
        assert(model[i as int] == entries@[i as int]@);
        match write_padding(image, &entries[i], files) {
            Err(error) => return Err(error),
            Ok(_) => {},
        }
        i = i + 1;
    }
    Ok(())
}

/// The blocks of an image.
pub open spec fn blocks_of(image: Seq<u8>) -> Seq<Seq<u8>> {
    Seq::new(image.len() / 2048, |b: int| image.subrange(b * 2048, b * 2048 + 2048))
}

fn cut_blocks(image: &Vec<u8>) -> (blocks: Vec<Block>)
    requires
        image.len() % 2048 == 0,
    ensures
        views(blocks@) == blocks_of(image@),
{
    let mut blocks: Vec<Block> = Vec::new();
    let mut offset: usize = 0;
    while offset < image.len()
        invariant
            offset <= image.len(),
            offset % 2048 == 0,
            image.len() % 2048 == 0,
            views(blocks@) == blocks_of(image@).take(offset as int / 2048),
        decreases image.len() - offset,
    {
        let block: Block = to_block(slice_subrange(image.as_slice(), offset, offset + 2048));
        proof {
            views_push(blocks@, block);
            assert((offset as int / 2048) * 2048 == offset);
            assert((offset + 2048) / 2048 == offset as int / 2048 + 1);
        }
        blocks.push(block);
        offset = offset + 2048;
        assert(views(blocks@) =~= blocks_of(image@).take(offset as int / 2048));
    }
    assert(blocks_of(image@).take(offset as int / 2048) =~= blocks_of(image@));
    blocks
}

/// What a Joliet volume adds to a layout.
#[verifier::ext_equal]
pub struct JolietPlan {
    pub nodes: Seq<NodeModel>,
    pub directories: Seq<PlacementModel>,
    pub table: TablePlan,
}

/// The Joliet tree of a volume, with its sizes.
pub open spec fn joliet_plan(iso: IsoModel) -> Result<JolietPlan, Failure> {
    let volume = iso.supplementary_volumes[0];
    match joliet_nodes(volume) {
        Err(failure) => Err(failure),
        Ok(nodes) => match directories_of(nodes, ErrorKind::UnreachableJolietDirectory) {
            Err(failure) => Err(failure),
            Ok(ordered) => match table_plan(
                ordered,
                volume.path_table_size,
                ErrorKind::JolietTableAllocation,
                ErrorKind::JolietTableAllocation,
            ) {
                Err(failure) => Err(failure),
                Ok(table) => match sized_joliet_from(
                    iso,
                    nodes,
                    volume.xa_system_use,
                    ordered,
                    0,
                    Seq::empty(),
                ) {
                    Err(failure) => Err(failure),
                    Ok(directories) => Ok(JolietPlan { nodes, directories, table }),
                },
            },
        },
    }
}

/// Where everything lies, and the sizes of both trees' path tables.
#[verifier::ext_equal]
pub struct Placed {
    pub state: PlacingModel,
    pub table: TablePlan,
    pub joliet: Option<JolietPlan>,
}

/// The metadata area with the contents that follow it.
pub open spec fn placed_filesystem(iso: IsoModel, lengths: Seq<FileLengthModel>) -> Result<
    Placed,
    Failure,
> {
    let nodes = primary_nodes(iso);
    match directories_of(nodes, ErrorKind::UnreachableDirectory) {
        Err(failure) => Err(failure),
        Ok(ordered) => match table_plan(
            ordered,
            iso.path_table_size,
            ErrorKind::TableSizeZero,
            ErrorKind::TableAllocation,
        ) {
            Err(failure) => Err(failure),
            Ok(table) => if table.blocks + iso.path_table_padding > u32::MAX {
                Err(failure(ErrorKind::TableStride))
            } else {
                match sized_directories_from(iso, nodes, ordered, 0, Seq::empty()) {
                    Err(failure) => Err(failure),
                    Ok(directories) => if iso.supplementary_volumes.len() > 0 {
                        match joliet_plan(iso) {
                            Err(failure) => Err(failure),
                            Ok(plan) => match place_joliet_metadata(
                                iso,
                                directories,
                                plan.directories,
                                table.blocks,
                                plan.table.blocks,
                            ) {
                                Err(failure) => Err(failure),
                                Ok(state) => match place_contents(iso, lengths, state) {
                                    Err(failure) => Err(failure),
                                    Ok(state) => Ok(Placed { state, table, joliet: Some(plan) }),
                                },
                            },
                        }
                    } else {
                        match place_plain_metadata(iso, directories, table.blocks) {
                            Err(failure) => Err(failure),
                            Ok(state) => match place_contents(iso, lengths, state) {
                                Err(failure) => Err(failure),
                                Ok(state) => Ok(Placed { state, table, joliet: None }),
                            },
                        }
                    },
                }
            },
        },
    }
}

/// The number of sectors of the gap that ends the image.
pub open spec fn trailing_sectors(trailing: Option<GapItem>) -> int {
    match trailing {
        Some(gap) => gap.sectors as int,
        None => 0,
    }
}

/// What the primary descriptor says of the image.
pub open spec fn primary_place(state: PlacingModel, table: TablePlan, size: u32) -> PlaceModel {
    PlaceModel {
        volume_blocks: size,
        path_table_size: table.size,
        pointers: state.tables,
        root_extent: state.primary.placements[0].extent,
        root_length: state.primary.placements[0].length,
    }
}

/// What the Joliet descriptor says of the image.
pub open spec fn joliet_place(state: PlacingModel, table: TablePlan, size: u32) -> PlaceModel {
    PlaceModel {
        volume_blocks: size,
        path_table_size: table.size,
        pointers: state.joliet_tables,
        root_extent: state.joliet.placements[0].extent,
        root_length: state.joliet.placements[0].length,
    }
}

/// The image with its descriptors.
#[verifier::opaque]
pub open spec fn with_descriptors(iso: IsoModel, placed: Placed, size: u32, image: Seq<u8>) -> Result<
    Seq<u8>,
    Failure,
> {
    let copies = iso.primary_volume_copies as int;
    match pvd_block(
        iso.primary_volume,
        primary_place(placed.state, placed.table, size),
        iso.entries[0],
    ) {
        Err(failure) => Err(failure),
        Ok(pvd) => {
            let image = with_copies(image, 16, pvd, copies);
            let terminator = 16 + copies + iso.supplementary_volumes.len();
            match placed.joliet {
                None => Ok(with_extent(image, terminator, descriptor_signature(255))),
                Some(plan) => match svd_block(
                    iso.supplementary_volumes[0],
                    joliet_place(placed.state, plan.table, size),
                ) {
                    Err(failure) => Err(failure),
                    Ok(svd) => Ok(
                        with_extent(
                            with_extent(image, 16 + copies, svd),
                            terminator,
                            descriptor_signature(255),
                        ),
                    ),
                },
            }
        },
    }
}

/// The image with its path tables.
#[verifier::opaque]
pub open spec fn with_all_tables(iso: IsoModel, placed: Placed, image: Seq<u8>) -> Result<
    Seq<u8>,
    Failure,
> {
    let state = placed.state;
    match with_tables(
        image,
        state.primary.placements,
        state.tables,
        placed.table,
        iso.path_table_little_hex,
        iso.path_table_big_hex,
    ) {
        Err(failure) => Err(failure),
        Ok(image) => match placed.joliet {
            None => Ok(image),
            Some(plan) => with_tables(
                image,
                state.joliet.placements,
                state.joliet_tables,
                plan.table,
                iso.supplementary_volumes[0].path_table_little_hex,
                iso.supplementary_volumes[0].path_table_big_hex,
            ),
        },
    }
}

/// The image with its directories.
#[verifier::opaque]
pub open spec fn with_all_directories(iso: IsoModel, placed: Placed, image: Seq<u8>) -> Result<
    Seq<u8>,
    Failure,
> {
    let state = placed.state;
    let nodes = primary_nodes(iso);
    match with_directories_from(
        iso,
        nodes,
        primary_spots(iso, state, nodes),
        state.primary.placements,
        image,
        0,
    ) {
        Err(failure) => Err(failure),
        Ok(image) => match placed.joliet {
            None => Ok(image),
            Some(plan) => with_joliet_directories_from(
                plan.nodes,
                joliet_spots(iso, state, iso.supplementary_volumes[0]),
                state.joliet.placements,
                joliet_options(iso, iso.supplementary_volumes[0]),
                image,
                0,
            ),
        },
    }
}

/// The image: descriptors, path tables, directories, padding.
pub open spec fn image_of(iso: IsoModel, placed: Placed, size: u32) -> Result<Seq<u8>, Failure> {
    let empty = fill((placed.state.next * 2048) as nat, 0);
    match with_descriptors(iso, placed, size, empty) {
        Err(failure) => Err(failure),
        Ok(image) => match with_all_tables(iso, placed, image) {
            Err(failure) => Err(failure),
            Ok(image) => match with_all_directories(iso, placed, image) {
                Err(failure) => Err(failure),
                Ok(image) => with_paddings_from(image, iso.entries, placed.state.files, 0),
            },
        },
    }
}

/// The layout of a filesystem whose parts have their places.
pub open spec fn layout_placed(iso: IsoModel, placed: Placed) -> Result<LayoutModel, Failure> {
    let state = placed.state;
    let end = state.next + trailing_sectors(state.trailing);
    if end > u32::MAX {
        Err(failure(ErrorKind::VolumeOverflow))
    } else {
        match logical_size(iso, state, end as u32) {
            Err(failure) => Err(failure),
            Ok(size) => match subheaders_of(
                iso,
                state,
                placed.table.blocks,
                match placed.joliet {
                    Some(plan) => plan.table.blocks,
                    None => 0,
                },
            ) {
                Err(failure) => Err(failure),
                Ok(marks) => if state.next * 2048 > usize::MAX {
                    Err(failure(ErrorKind::IntegerConversion))
                } else {
                    match image_of(iso, placed, size) {
                        Err(failure) => Err(failure),
                        Ok(image) => Ok(
                            LayoutModel {
                                blocks: blocks_of(image),
                                files: state.files,
                                xa_extents: state.xa_extents,
                                gaps: state.gaps,
                                marks,
                                trailing_gap_kind: match state.trailing {
                                    Some(gap) => Some(gap.kind),
                                    None => None,
                                },
                                volume_blocks: end as u32,
                            },
                        ),
                    }
                },
            },
        }
    }
}

/// The layout of a filesystem, given the sizes of its files.
pub open spec fn layout_of(iso: IsoModel, lengths: Seq<FileLengthModel>) -> Result<LayoutModel, Failure> {
    match description_check(iso) {
        Err(failure) => Err(failure),
        Ok(_) => match placed_filesystem(iso, lengths) {
            Err(failure) => Err(failure),
            Ok(placed) => layout_placed(iso, placed),
        },
    }
}

struct JolietWork<'a> {
    volume: &'a JolietVolume,
    nodes: Vec<Node<'a>>,
    table: TablePlan,
}

struct Work<'a> {
    nodes: Vec<Node<'a>>,
    state: Placing,
    table: TablePlan,
    joliet: Option<JolietWork<'a>>,
}

impl<'a> Work<'a> {
    spec fn is(self, iso: IsoModel, placed: Placed) -> bool {
        &&& views(self.nodes@) == primary_nodes(iso)
        &&& self.nodes@.len() == iso.entries.len()
        &&& self.state@ == placed.state
        &&& self.table == placed.table
        &&& self.state@.primary.shaped(iso.entries.len() as int)
        &&& self.state@.primary.placements.len() > 0
        &&& match (self.joliet, placed.joliet) {
            (None, None) => iso.supplementary_volumes.len() == 0,
            (Some(joliet), Some(plan)) => {
                &&& iso.supplementary_volumes.len() > 0
                &&& joliet.volume@ == iso.supplementary_volumes[0]
                &&& views(joliet.nodes@) == plan.nodes
                &&& joliet.nodes@.len() == joliet.volume.entries@.len()
                &&& joliet.nodes@.len() > 0
                &&& joliet.table == plan.table
                &&& self.state@.joliet.shaped(joliet.nodes@.len() as int)
                &&& self.state@.joliet.placements.len() > 0
            },
            _ => false,
        }
    }
}


fn plan_joliet<'a>(iso: &'a Iso9660) -> (result: Result<(JolietWork<'a>, Vec<DirectoryPlacement>), Error>)
    requires
        iso.supplementary_volumes.len() > 0,
        iso.supplementary_volumes[0].entries.len() > 0,
    ensures
        match (result, joliet_plan(iso@)) {
            (Ok((work, directories)), Ok(plan)) => {
                &&& work.volume == iso.supplementary_volumes[0]
                &&& views(work.nodes@) == plan.nodes
                &&& work.nodes@.len() == work.volume.entries@.len()
                &&& work.table == plan.table
                &&& views(directories@) == plan.directories
                &&& well_placed(plan.directories, work.nodes@.len() as int)
                &&& directories@.len() > 0
            },
            (Err(error), Err(failure)) => error@ == failure,
            _ => false,
        },
{
    let volume: &'a JolietVolume = &iso.supplementary_volumes[0];
    assert(iso@.supplementary_volumes[0] == volume@);
    let nodes: Vec<Node<'a>> = match collect_joliet_nodes(volume) {
        Ok(nodes) => nodes,
        Err(error) => return Err(error),
    };
    let ordered: Vec<DirectoryPlacement> = match order_directories(
        &nodes,
        ErrorKind::UnreachableJolietDirectory,
    ) {
        Ok(ordered) => ordered,
        Err(error) => return Err(error),
    };
    let table: TablePlan = match plan_table(
        &ordered,
        volume.path_table_size,
        ErrorKind::JolietTableAllocation,
        ErrorKind::JolietTableAllocation,
    ) {
        Ok(table) => table,
        Err(error) => return Err(error),
    };
    match size_joliet_directories(iso, &nodes, volume.xa_system_use, &ordered) {
        Err(error) => Err(error),
        Ok(directories) => Ok((JolietWork { volume, nodes, table }, directories)),
    }
}

fn place_with_joliet<'a>(
    iso: &'a Iso9660,
    lengths: &[FileLength],
    nodes: Vec<Node<'a>>,
    directories: Vec<DirectoryPlacement>,
    table: TablePlan,
) -> (result: Result<Work<'a>, Error>)
    requires
        iso.supplementary_volumes.len() == 1,
        iso.supplementary_volumes[0].entries.len() > 0,
        views(nodes@) == primary_nodes(iso@),
        well_placed(views(directories@), iso.entries.len() as int),
        directories.len() > 0,
    ensures
        match (
            result,
            match joliet_plan(iso@) {
                Err(failure) => Err(failure),
                Ok(plan) => match place_joliet_metadata(
                    iso@,
                    views(directories@),
                    plan.directories,
                    table.blocks,
                    plan.table.blocks,
                ) {
                    Err(failure) => Err(failure),
                    Ok(state) => match place_contents(iso@, views(lengths@), state) {
                        Err(failure) => Err(failure),
                        Ok(state) => Ok(Placed { state, table, joliet: Some(plan) }),
                    },
                },
            },
        ) {
            (Ok(work), Ok(placed)) => work.is(iso@, placed),
            (Err(error), Err(failure)) => error@ == failure,
            _ => false,
        },
{
    assert(views(nodes@).len() == nodes@.len());
    assert(iso@.supplementary_volumes[0] == iso.supplementary_volumes@[0]@);
    let (joliet, placements) = match plan_joliet(iso) {
        Ok(plan) => plan,
        Err(error) => return Err(error),
    };
    let ghost plan = joliet_plan(iso@)->Ok_0;
    let count: Ghost<int> = Ghost(iso.entries.len() as int);
    let joliet_count: Ghost<int> = Ghost(joliet.nodes@.len() as int);
    let next: u32 = 17 + iso.primary_volume_copies as u32 + iso.supplementary_volumes.len() as u32;
    let mut state: Placing = start_placing(iso, directories, placements, next, joliet_count);
    match state.place_metadata(
        &iso.metadata_layout,
        table.blocks,
        joliet.table.blocks,
        count,
        joliet_count,
    ) {
        Ok(_) => {},
        Err(error) => return Err(error),
    }
    match place_all_contents(iso, lengths, &mut state, joliet_count) {
        Ok(_) => {},
        Err(error) => return Err(error),
    }
    Ok(Work { nodes, state, table, joliet: Some(joliet) })
}

fn place_filesystem<'a>(iso: &'a Iso9660, lengths: &[FileLength]) -> (result: Result<Work<'a>, Error>)
    requires
        iso.entries.len() > 0,
        iso.supplementary_volumes.len() <= 1,
        iso.supplementary_volumes.len() > 0 ==> iso.supplementary_volumes[0].entries.len() > 0,
    ensures
        match (result, placed_filesystem(iso@, views(lengths@))) {
            (Ok(work), Ok(placed)) => work.is(iso@, placed),
            (Err(error), Err(failure)) => error@ == failure,
            _ => false,
        },
{
    let nodes: Vec<Node<'a>> = collect_primary_nodes(iso);
    assert(views(nodes@).len() == nodes@.len());
    let ordered: Vec<DirectoryPlacement> = match order_directories(&nodes, ErrorKind::UnreachableDirectory) {
        Ok(ordered) => ordered,
        Err(error) => return Err(error),
    };
    let table: TablePlan = match plan_table(
        &ordered,
        iso.path_table_size,
        ErrorKind::TableSizeZero,
        ErrorKind::TableAllocation,
    ) {
        Ok(table) => table,
        Err(error) => return Err(error),
    };
    if table.blocks.checked_add(iso.path_table_padding).is_none() {
        return Err(Error::new(ErrorKind::TableStride));
    }
    let directories: Vec<DirectoryPlacement> = match size_directories(iso, &nodes, &ordered) {
        Ok(directories) => directories,
        Err(error) => return Err(error),
    };
    if iso.supplementary_volumes.len() > 0 {
        return place_with_joliet(iso, lengths, nodes, directories, table);
    }
    let mut state: Placing = match place_plain(iso, directories, table.blocks) {
        Ok(state) => state,
        Err(error) => return Err(error),
    };
    match place_all_contents(iso, lengths, &mut state, Ghost(0int)) {
        Ok(_) => {},
        Err(error) => return Err(error),
    }
    Ok(Work { nodes, state, table, joliet: None })
}

fn write_copies(image: &mut Vec<u8>, extent: u32, data: &[u8], count: u8)
    requires
        extent < 0xffff,
    ensures
        final(image)@ == with_copies(old(image)@, extent as int, data@, count as int),
{
    let ghost start = image@;
    let mut i: u8 = 0;
    while i < count
        invariant
            start == old(image)@,
            i <= count,
            extent < 0xffff,
            image@ == with_copies(start, extent as int, data@, i as int),
        decreases count - i,
    {
        write_extent(image, extent + i as u32, data);
        i = i + 1;
    }
}

fn terminator() -> (bytes: [u8; 7])
    ensures
        bytes@ == descriptor_signature(255),
{
    let bytes: [u8; 7] = [255u8, 67u8, 68u8, 48u8, 48u8, 49u8, 1u8];
    assert(bytes@ =~= descriptor_signature(255));
    bytes
}

fn copy_tables(tables: &[u32; 4]) -> (copy: [u32; 4])
    ensures
        copy@ == tables@,
{
    let copy: [u32; 4] = [tables[0], tables[1], tables[2], tables[3]];
    assert(copy@ =~= tables@);
    copy
}

impl<'a> Work<'a> {
    fn write_descriptors(
        &self,
        iso: &Iso9660,
        size: u32,
        image: &mut Vec<u8>,
        placed: Ghost<Placed>,
    ) -> (result: Result<(), Error>)
        requires
            self.is(iso@, placed@),
            iso.entries.len() > 0,
            iso.supplementary_volumes.len() <= 1,
        ensures
            match (result, with_descriptors(iso@, placed@, size, old(image)@)) {
                (Ok(_), Ok(expected)) => final(image)@ == expected,
                (Err(error), Err(failure)) => error@ == failure,
                _ => false,
            },
    {
        reveal(with_descriptors);
        let state: &Placing = &self.state;
        assert(state@.primary.placements[0] == state.primary.placements@[0]@);
        assert(iso@.entries[0] == iso.entries@[0]@);
        let place = DescriptorPlace {
            volume_blocks: size,
            path_table_size: self.table.size,
            pointers: copy_tables(&state.tables),
            root_extent: state.primary.placements[0].extent,
            root_length: state.primary.placements[0].length,
        };
        assert(place@ =~= primary_place(placed@.state, placed@.table, size));
        let pvd: Block = match serialize_pvd(&iso.primary_volume, &place, &iso.entries[0]) {
            Ok(pvd) => pvd,
            Err(error) => return Err(error),
        };
        let copies: u8 = iso.primary_volume_copies;
        write_copies(image, 16, pvd.as_slice(), copies);
        let mut last: u32 = 16 + copies as u32;
        match &self.joliet {
            None => {},
            Some(joliet) => {
                assert(state@.joliet.placements[0] == state.joliet.placements@[0]@);
                let joliet_place_at = DescriptorPlace {
                    volume_blocks: size,
                    path_table_size: joliet.table.size,
                    pointers: copy_tables(&state.joliet_tables),
                    root_extent: state.joliet.placements[0].extent,
                    root_length: state.joliet.placements[0].length,
                };
                assert(joliet_place_at@ =~= joliet_place(
                    placed@.state,
                    placed@.joliet->Some_0.table,
                    size,
                ));
                let svd: Block = match serialize_joliet_svd(joliet.volume, &joliet_place_at) {
                    Ok(svd) => svd,
                    Err(error) => return Err(error),
                };
                write_extent(image, last, svd.as_slice());
                last = last + 1;
            },
        }
        write_extent(image, last, terminator().as_slice());
        Ok(())
    }

    fn write_tables(&self, iso: &Iso9660, image: &mut Vec<u8>, placed: Ghost<Placed>) -> (result: Result<
        (),
        Error,
    >)
        requires
            self.is(iso@, placed@),
        ensures
            match (result, with_all_tables(iso@, placed@, old(image)@)) {
                (Ok(_), Ok(expected)) => final(image)@ == expected,
                (Err(error), Err(failure)) => error@ == failure,
                _ => false,
            },
    {
        reveal(with_all_tables);
        let state: &Placing = &self.state;
        match write_path_tables(
            image,
            &state.primary.placements,
            &state.tables,
            self.table,
            &iso.path_table_little_hex,
            &iso.path_table_big_hex,
        ) {
            Ok(_) => {},
            Err(error) => return Err(error),
        }
        match &self.joliet {
            None => Ok(()),
            Some(joliet) => write_path_tables(
                image,
                &state.joliet.placements,
                &state.joliet_tables,
                joliet.table,
                &joliet.volume.path_table_little_hex,
                &joliet.volume.path_table_big_hex,
            ),
        }
    }

    fn write_all_directories(&self, iso: &Iso9660, image: &mut Vec<u8>, placed: Ghost<Placed>) -> (result: Result<
        (),
        Error,
    >)
        requires
            self.is(iso@, placed@),
            directories_have_room(iso@, placed@),
        ensures
            match (result, with_all_directories(iso@, placed@, old(image)@)) {
                (Ok(_), Ok(expected)) => final(image)@ == expected,
                (Err(error), Err(failure)) => error@ == failure,
                _ => false,
            },
    {
        reveal(with_all_directories);
        let state: &Placing = &self.state;
        let spots: Vec<Spot> = list_primary_spots(iso, state, &self.nodes);
        match write_directories(iso, &self.nodes, &spots, &state.primary.placements, image) {
            Ok(_) => {},
            Err(error) => return Err(error),
        }
        match &self.joliet {
            None => Ok(()),
            Some(joliet) => {
                let joliet_points: Vec<Spot> = list_joliet_spots(iso, state, joliet.volume);
                let options = TreeOptions {
                    xa_system_use: joliet.volume.xa_system_use,
                    trailing_system_use_padding: joliet.volume.descriptor.application_use
                        == PrimaryVolumeApplicationUse::CdRep20131,
                    packing: iso.directory_record_packing,
                    parent_time: iso.directory_parent_recording_time,
                };
                assert(options == joliet_options(iso@, iso@.supplementary_volumes[0]));
                write_joliet_directories(
                    &joliet.nodes,
                    &joliet_points,
                    &state.joliet.placements,
                    options,
                    image,
                )
            },
        }
    }

    fn make_image(&self, iso: &Iso9660, size: u32, placed: Ghost<Placed>) -> (result: Result<Vec<u8>, Error>)
        requires
            self.is(iso@, placed@),
            iso.entries.len() > 0,
            iso.supplementary_volumes.len() <= 1,
            self.state.next * 2048 <= usize::MAX,
            directories_have_room(iso@, placed@),
        ensures
            match (result, image_of(iso@, placed@, size)) {
                (Ok(image), Ok(expected)) => image@ == expected && image@.len() % 2048 == 0,
                (Err(error), Err(failure)) => error@ == failure,
                _ => false,
            },
    {
        let mut image: Vec<u8> = filled(self.state.next as usize * 2048, 0);
        match self.write_descriptors(iso, size, &mut image, placed) {
            Ok(_) => {},
            Err(error) => return Err(error),
        }
        match self.write_tables(iso, &mut image, placed) {
            Ok(_) => {},
            Err(error) => return Err(error),
        }
        match self.write_all_directories(iso, &mut image, placed) {
            Ok(_) => {},
            Err(error) => return Err(error),
        }
        match write_paddings(&mut image, &iso.entries, &self.state.files) {
            Ok(_) => {},
            Err(error) => return Err(error),
        }
        proof {
            image_keeps_size(iso@, placed@, size);
        }
        Ok(image)
    }
}

/// Writing a descriptor several times keeps the size of the image.
pub proof fn copies_keep_size(image: Seq<u8>, extent: int, data: Seq<u8>, count: int)
    ensures
        with_copies(image, extent, data, count).len() == image.len(),
    decreases count,
{
    if count > 0 {
        copies_keep_size(image, extent, data, count - 1);
    }
}

/// Writing directories keeps the size of the image.
proof fn directories_keep_size(
    iso: IsoModel,
    nodes: Seq<NodeModel>,
    spots: Seq<SpotModel>,
    directories: Seq<PlacementModel>,
    image: Seq<u8>,
    index: int,
)
    ensures
        with_directories_from(iso, nodes, spots, directories, image, index) matches Ok(written)
            ==> written.len() == image.len(),
    decreases directories.len() - index,
{
    if 0 <= index < directories.len() {
        let directory = directories[index];
        let entry = iso.entries[directory.entry];
        if entry.directory_reference is Some {
            directories_keep_size(iso, nodes, spots, directories, image, index + 1);
        } else {
            match directory_bytes(
                nodes,
                spots,
                directory,
                directories[directory.parent],
                entry.directory_slack,
                primary_options(iso),
            ) {
                Err(_) => {},
                Ok(data) => directories_keep_size(
                    iso,
                    nodes,
                    spots,
                    directories,
                    with_extent(image, directory.extent as int, data),
                    index + 1,
                ),
            }
        }
    }
}

/// Writing Joliet directories keeps the size of the image.
proof fn joliet_directories_keep_size(
    nodes: Seq<NodeModel>,
    spots: Seq<SpotModel>,
    directories: Seq<PlacementModel>,
    options: TreeOptions,
    image: Seq<u8>,
    index: int,
)
    ensures
        with_joliet_directories_from(nodes, spots, directories, options, image, index) matches Ok(
            written,
        ) ==> written.len() == image.len(),
    decreases directories.len() - index,
{
    if 0 <= index < directories.len() {
        let directory = directories[index];
        match directory_bytes(
            nodes,
            spots,
            directory,
            directories[directory.parent],
            None,
            options,
        ) {
            Err(_) => {},
            Ok(data) => joliet_directories_keep_size(
                nodes,
                spots,
                directories,
                options,
                with_extent(image, directory.extent as int, data),
                index + 1,
            ),
        }
    }
}

/// Writing padding keeps the size of the image.
proof fn paddings_keep_size(image: Seq<u8>, entries: Seq<EntryModel>, files: Seq<FileModel>, index: int)
    ensures
        with_paddings_from(image, entries, files, index) matches Ok(written) ==> written.len()
            == image.len(),
    decreases entries.len() - index,
{
    if 0 <= index < entries.len() {
        match with_padding(image, entries[index], files) {
            Err(_) => {},
            Ok(padded) => paddings_keep_size(padded, entries, files, index + 1),
        }
    }
}

/// An image has a whole number of blocks: as many as there are extents before
/// the gap that ends it.
pub proof fn image_keeps_size(iso: IsoModel, placed: Placed, size: u32)
    ensures
        image_of(iso, placed, size) matches Ok(image) ==> image.len() == placed.state.next * 2048,
{
    reveal(with_descriptors);
    reveal(with_all_tables);
    reveal(with_all_directories);
    let empty = fill((placed.state.next * 2048) as nat, 0);
    let state = placed.state;
    if let Ok(first) = with_descriptors(iso, placed, size, empty) {
        copies_keep_size(
            empty,
            16,
            pvd_block(iso.primary_volume, primary_place(state, placed.table, size), iso.entries[0])->Ok_0,
            iso.primary_volume_copies as int,
        );
        assert(first.len() == empty.len());
        if let Ok(second) = with_all_tables(iso, placed, first) {
            assert(second.len() == first.len());
            let nodes = primary_nodes(iso);
            let spots = primary_spots(iso, state, nodes);
            directories_keep_size(iso, nodes, spots, state.primary.placements, second, 0);
            if let Ok(middle) = with_directories_from(iso, nodes, spots, state.primary.placements, second, 0) {
                if let Some(plan) = placed.joliet {
                    joliet_directories_keep_size(
                        plan.nodes,
                        joliet_spots(iso, state, iso.supplementary_volumes[0]),
                        state.joliet.placements,
                        joliet_options(iso, iso.supplementary_volumes[0]),
                        middle,
                        0,
                    );
                }
            }
            if let Ok(third) = with_all_directories(iso, placed, second) {
                paddings_keep_size(third, iso.entries, state.files, 0);
            }
        }
    }
}

/// Lays a filesystem out.
pub fn layout(iso: &Iso9660, file_lengths: &[FileLength]) -> (result: Result<Layout, Error>)
    ensures
        agrees(result, layout_of(iso@, views(file_lengths@))),
{
    match validate_entries(iso) {
        Ok(_) => {},
        Err(error) => return Err(error),
    }
    let work = match place_filesystem(iso, file_lengths) {
        Ok(work) => work,
        Err(error) => return Err(error),
    };
    let ghost placed = placed_filesystem(iso@, views(file_lengths@))->Ok_0;
    let trailing: u32 = match &work.state.trailing {
        Some(gap) => gap.sectors,
        None => 0,
    };
    let volume_blocks: u32 = match work.state.next.checked_add(trailing) {
        Some(end) => end,
        None => return Err(Error::new(ErrorKind::VolumeOverflow)),
    };
    let size: u32 = match find_logical_size(iso, &work.state, volume_blocks) {
        Ok(size) => size,
        Err(error) => return Err(error),
    };
    let joliet_blocks: u32 = match &work.joliet {
        Some(joliet) => joliet.table.blocks,
        None => 0,
    };
    let marks: Subheaders = match collect_subheaders(
        iso,
        &work.state,
        work.table.blocks,
        joliet_blocks,
    ) {
        Ok(marks) => marks,
        Err(error) => return Err(error),
    };
    if work.state.next as u64 * 2048 > usize::MAX as u64 {
        return Err(Error::new(ErrorKind::IntegerConversion));
    }
    proof {
        all_have_room(iso@, views(file_lengths@), placed);
    }
    let image: Vec<u8> = match work.make_image(iso, size, Ghost(placed)) {
        Ok(image) => image,
        Err(error) => return Err(error),
    };
    let blocks: Vec<Block> = cut_blocks(&image);
    let trailing_gap_kind: Option<GapKind> = match &work.state.trailing {
        Some(gap) => Some(gap.kind),
        None => None,
    };
    let laid_out = Layout {
        blocks,
        files: work.state.files,
        xa_extents: work.state.xa_extents,
        gaps: work.state.gaps,
        data_subheader_sectors: marks.data,
        trailing_gap_kind,
        end_of_file_data_subheader_sectors: marks.end_of_file,
        metadata_subheader_sectors: marks.metadata,
        framing_subheader_sectors: marks.framing,
        sector_file_numbers: marks.file_numbers,
        volume_blocks,
    };
    assert(laid_out@ =~= layout_of(iso@, views(file_lengths@))->Ok_0);
    Ok(laid_out)
}

} // verus!
