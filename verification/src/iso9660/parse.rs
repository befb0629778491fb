//! Reading an ISO 9660 filesystem out of the blocks of an image.
use vstd::prelude::*;
use vstd::slice::slice_subrange;

use crate::bytes::same_bytes;
use crate::error::{failure, failure_at, failure_over, Error, ErrorKind, Failure};
use crate::iso9660::description::{
    Entry, EntryModel, EntryXa, FileLayoutItem, IdentifierPolicy, Iso9660, IsoModel, ItemModel,
    JolietVolume, PathTableCopies, PrimaryVolume, VolumeModel,
};
use crate::iso9660::descriptor::{parse_pvd, parsed_volume};
use crate::iso9660::descriptor_write::descriptor_signature;
use crate::iso9660::fields::{read_both32, read_both_u32};
use crate::iso9660::joliet_parse::{
    distinct_time, find_difference, find_distinct_time, is_table_inside, parse_joliet,
    parsed_joliet, read_pointers, table_inside, table_pointers, table_record, ParsedJoliet,
    TableDifference, TableRecord,
};
use crate::iso9660::joliet_walk::{found_placement, place_found};
use crate::iso9660::metadata::{
    derive_metadata_layout, infer_directory_length_policy, length_policy, metadata_order,
    ParsedPathTables, TablesModel,
};
use crate::iso9660::order::{comes_before, order_by, places, stable_order, stable_order_sorts};
use crate::iso9660::path_table::{
    extent_bytes, path_table, read_path_table, references_check, serialize_path_table,
    validate_directory_reference_path_tables, DirectoryPlacement, PlacementModel,
};
use crate::iso9660::placing::GapPlacement;
use crate::iso9660::read::{directory_contents, read_directory, ContentsModel, DirectoryContents};
use crate::iso9660::record::{
    entry_xa, parse_record, parsed_record, parsed_xa, record_fields_check, validate_record_fields,
    Record, RecordModel,
};
use crate::iso9660::time::{parse_recording_time, recording_time_text};
use crate::iso9660::tree::bytes_of;
use crate::iso9660::walk::{
    walked_from, FoundModel, ParsedDirectory, ParsedFile, Walk, WalkModel,
};
use crate::manifest::{
    DirectoryLengthPolicy, DirectoryParentRecordingTime, DirectoryRecordPacking,
    EntrySectorSubheader, IsoMetadataSubheader, PathTableOrder,
};
use crate::model::{ceil_div, ceil_div_u32, opt_view, views, views_push};
use crate::raw_cd::Block;
use crate::text::{file_name, is_root, name_of, root_path, root_text, utf8};

verus! {

/// What was read out of an image.
#[derive(Clone, Debug)]
pub struct ParsedIso {
    pub manifest: Iso9660,
    pub files: Vec<ParsedFile>,
    pub directories: Vec<ParsedDirectory>,
    pub path_tables: Option<ParsedPathTables>,
    pub supplementary_directories: Vec<ParsedDirectory>,
    pub supplementary_path_tables: Option<ParsedPathTables>,
    pub metadata_gaps: Vec<GapPlacement>,
}

/// The mathematical form of a [`ParsedIso`].
#[verifier::ext_equal]
pub struct ParsedModel {
    pub manifest: IsoModel,
    pub files: Seq<FoundModel>,
    pub directories: Seq<FoundModel>,
    pub path_tables: Option<TablesModel>,
    pub supplementary_directories: Seq<FoundModel>,
    pub supplementary_path_tables: Option<TablesModel>,
    pub metadata_gaps: Seq<GapPlacement>,
}

impl View for ParsedIso {
    type V = ParsedModel;

    open spec fn view(&self) -> ParsedModel {
        ParsedModel {
            manifest: self.manifest@,
            files: views(self.files@),
            directories: views(self.directories@),
            path_tables: opt_view(self.path_tables),
            supplementary_directories: views(self.supplementary_directories@),
            supplementary_path_tables: opt_view(self.supplementary_path_tables),
            metadata_gaps: self.metadata_gaps@,
        }
    }
}

/// A block begins a descriptor of a kind.
pub open spec fn is_descriptor(block: Seq<u8>, kind: u8) -> bool {
    block.take(7) == descriptor_signature(kind)
}

fn has_signature(block: &Block, kind: u8) -> (found: bool)
    ensures
        found == is_descriptor(block@, kind),
{
    let signature: [u8; 7] = [kind, 67u8, 68u8, 48u8, 48u8, 49u8, 1u8];
    assert(signature@ =~= descriptor_signature(kind));
    let head: &[u8] = slice_subrange(block.as_slice(), 0, 7);
    assert(head@ =~= block@.take(7));
    same_bytes(head, signature.as_slice())
}

/// The number of primary descriptors, `known` of which have been seen. All are the
/// same.
pub open spec fn copies_from(blocks: Seq<Block>, known: int) -> Result<int, Failure>
    decreases blocks.len() - known,
{
    if known < 0 || 16 + known >= blocks.len() || !is_descriptor(blocks[16 + known]@, 1) {
        Ok(known)
    } else if blocks[16 + known]@ != blocks[16]@ {
        Err(failure(ErrorKind::PrimaryCopiesDiffer))
    } else {
        copies_from(blocks, known + 1)
    }
}

/// The descriptors at the start of an image.
#[derive(Clone, Copy, Debug, PartialEq, Eq, Structural)]
pub struct VolumeSet {
    pub primary_copies: u8,
    pub supplementary: bool,
}

impl VolumeSet {
    /// Where the set ends.
    pub open spec fn terminator(self) -> int {
        16 + self.primary_copies + if self.supplementary {
            1int
        } else {
            0
        }
    }
}

/// The descriptors at the start of an image.
pub open spec fn volume_set(blocks: Seq<Block>) -> Result<VolumeSet, Failure> {
    if blocks.len() <= 22 {
        Err(failure(ErrorKind::ImageTooSmall))
    } else if !is_descriptor(blocks[16]@, 1) {
        Err(failure(ErrorKind::PrimaryMissing))
    } else {
        match copies_from(blocks, 1) {
            Err(failure) => Err(failure),
            Ok(copies) => if copies > 3 {
                Err(failure_at(ErrorKind::PrimaryCopyCount, copies))
            } else {
                let set = VolumeSet {
                    primary_copies: copies as u8,
                    supplementary: 16 + copies < blocks.len() && is_descriptor(
                        blocks[16 + copies]@,
                        2,
                    ),
                };
                if set.terminator() < blocks.len() && is_descriptor(
                    blocks[set.terminator()]@,
                    255,
                ) {
                    Ok(set)
                } else {
                    Err(failure_at(ErrorKind::TerminatorMissing, set.terminator()))
                }
            },
        }
    }
}

fn find_volume_set(blocks: &[Block]) -> (result: Result<VolumeSet, Error>)
    ensures
        match (result, volume_set(blocks@)) {
            (Ok(set), Ok(expected)) => set == expected,
            (Err(error), Err(failure)) => error@ == failure,
            _ => false,
        },
{
    let total: usize = blocks.len();
    if total <= 22 {
        return Err(Error::new(ErrorKind::ImageTooSmall));
    }
    if !has_signature(&blocks[16], 1) {
        return Err(Error::new(ErrorKind::PrimaryMissing));
    }
    let mut copies: usize = 1;
    while copies < total - 16 && has_signature(&blocks[16 + copies], 1)
        invariant
            1 <= copies <= total - 16,
            total == blocks@.len(),
            total > 22,
            is_descriptor(blocks@[16]@, 1),
            copies_from(blocks@, 1) == copies_from(blocks@, copies as int),
        decreases total - copies,
    {
        let left: &Block = &blocks[16 + copies];
        let right: &Block = &blocks[16];
        if !same_bytes(left.as_slice(), right.as_slice()) {
            return Err(Error::new(ErrorKind::PrimaryCopiesDiffer));
        }
        copies = copies + 1;
    }
    if copies > 3 {
        return Err(Error::at(ErrorKind::PrimaryCopyCount, copies as u64));
    }
    let supplementary: bool = 16 + copies < total && has_signature(&blocks[16 + copies], 2);
    let terminator: usize = 16 + copies + if supplementary {
        1usize
    } else {
        0
    };
    if terminator >= total || !has_signature(&blocks[terminator], 255) {
        return Err(Error::at(ErrorKind::TerminatorMissing, terminator as u64));
    }
    Ok(VolumeSet { primary_copies: copies as u8, supplementary })
}

/// What the primary descriptor says of the image and its path tables.
#[verifier::ext_equal]
pub struct PrimaryHead {
    pub space_size: u32,
    pub table_size: u32,
    pub tables: TablesModel,
    pub copies: PathTableCopies,
    pub order: PathTableOrder,
}

/// The lesser of two extents of which the second may be missing.
pub open spec fn first_of(extent: u32, copy: u32) -> u32 {
    if copy != 0 && copy < extent {
        copy
    } else {
        extent
    }
}

/// The path tables that are there lie within an image of `count` blocks.
pub open spec fn tables_inside(tables: TablesModel, count: int) -> bool {
    forall|k: int|
        0 <= k < 4 ==> #[trigger] tables.extents[k] == 0 || table_inside(
            tables.extents[k],
            tables.blocks,
            count,
        )
}

/// What the primary descriptor of an image of `count` blocks says of it.
pub open spec fn primary_head(block: Seq<u8>, count: int) -> Result<PrimaryHead, Failure> {
    match read_both32(block, 80) {
        Err(failure) => Err(failure),
        Ok(space_size) => if space_size == 0 {
            Err(failure(ErrorKind::SpaceSize))
        } else {
            match read_both32(block, 132) {
                Err(failure) => Err(failure),
                Ok(table_size) => if table_size == 0 {
                    Err(failure(ErrorKind::TableSize))
                } else {
                    let extents = table_pointers(block);
                    let tables = TablesModel {
                        extents,
                        blocks: ceil_div(table_size as int, 2048) as u32,
                    };
                    let little = first_of(extents[0], extents[1]);
                    let big = first_of(extents[2], extents[3]);
                    if extents[0] == 0 || extents[2] == 0 {
                        Err(failure(ErrorKind::TableMissing))
                    } else if (extents[1] == 0) != (extents[3] == 0) {
                        Err(failure(ErrorKind::TableCopies))
                    } else if little == big {
                        Err(failure(ErrorKind::TablesShared))
                    } else if !tables_inside(tables, count) {
                        Err(failure(ErrorKind::TableOutside))
                    } else {
                        Ok(
                            PrimaryHead {
                                space_size,
                                table_size,
                                tables,
                                copies: if extents[1] == 0 {
                                    PathTableCopies::Single
                                } else {
                                    PathTableCopies::Duplicate
                                },
                                order: if little < big {
                                    PathTableOrder::LittleEndianFirst
                                } else {
                                    PathTableOrder::BigEndianFirst
                                },
                            },
                        )
                    }
                },
            }
        },
    }
}

struct Head {
    space_size: u32,
    table_size: u32,
    tables: ParsedPathTables,
    copies: PathTableCopies,
    order: PathTableOrder,
}

impl Head {
    spec fn model(&self) -> PrimaryHead {
        PrimaryHead {
            space_size: self.space_size,
            table_size: self.table_size,
            tables: self.tables@,
            copies: self.copies,
            order: self.order,
        }
    }
}

fn lesser(extent: u32, copy: u32) -> (first: u32)
    ensures
        first == first_of(extent, copy),
{
    if copy != 0 && copy < extent {
        copy
    } else {
        extent
    }
}

fn are_tables_inside(tables: &ParsedPathTables, count: usize) -> (inside: bool)
    ensures
        inside == tables_inside(tables@, count as int),
{
    let mut k: usize = 0;
    while k < 4
        invariant
            k <= 4,
            forall|j: int|
                0 <= j < k ==> #[trigger] tables@.extents[j] == 0 || table_inside(
                    tables@.extents[j],
                    tables.blocks,
                    count as int,
                ),
        decreases 4 - k,
    {
        assert(tables@.extents[k as int] == tables.extents[k as int]);
        if tables.extents[k] != 0 && !is_table_inside(tables.extents[k], tables.blocks, count) {
            return false;
        }
        k = k + 1;
    }
    true
}

fn read_primary_head(block: &Block, count: usize) -> (result: Result<Head, Error>)
    ensures
        match (result, primary_head(block@, count as int)) {
            (Ok(head), Ok(expected)) => head.model() == expected,
            (Err(error), Err(failure)) => error@ == failure,
            _ => false,
        },
{
    let bytes: &[u8] = block.as_slice();
    let space_size: u32 = match read_both_u32(bytes, 80) {
        Ok(value) => value,
        Err(error) => return Err(error),
    };
    if space_size == 0 {
        return Err(Error::new(ErrorKind::SpaceSize));
    }
    let table_size: u32 = match read_both_u32(bytes, 132) {
        Ok(value) => value,
        Err(error) => return Err(error),
    };
    if table_size == 0 {
        return Err(Error::new(ErrorKind::TableSize));
    }
    let extents: [u32; 4] = read_pointers(block);
    if extents[0] == 0 || extents[2] == 0 {
        return Err(Error::new(ErrorKind::TableMissing));
    }
    if (extents[1] == 0) != (extents[3] == 0) {
        return Err(Error::new(ErrorKind::TableCopies));
    }
    let copies: PathTableCopies = if extents[1] == 0 {
        PathTableCopies::Single
    } else {
        PathTableCopies::Duplicate
    };
    let little: u32 = lesser(extents[0], extents[1]);
    let big: u32 = lesser(extents[2], extents[3]);
    if little == big {
        return Err(Error::new(ErrorKind::TablesShared));
    }
    let order: PathTableOrder = if little < big {
        PathTableOrder::LittleEndianFirst
    } else {
        PathTableOrder::BigEndianFirst
    };
    let tables = ParsedPathTables { extents, blocks: ceil_div_u32(table_size, 2048) };
    if !are_tables_inside(&tables, count) {
        return Err(Error::new(ErrorKind::TableOutside));
    }
    Ok(Head { space_size, table_size, tables, copies, order })
}

/// The extents of the path tables that are there.
pub open spec fn present_tables(extents: Seq<u32>) -> Seq<u32> {
    if extents[1] == 0 {
        seq![extents[0], extents[2]]
    } else {
        extents
    }
}

/// Extents in rising order.
pub open spec fn sorted_extents(extents: Seq<u32>) -> Seq<u32> {
    let order = stable_order(extents, extents.len() as int);
    Seq::new(extents.len(), |i: int| extents[order[i]])
}

/// Path tables stand one stride apart, and the root directory one more.
pub open spec fn strides_evenly(sorted: Seq<u32>, root: u32) -> bool {
    let stride = sorted[1] - sorted[0];
    &&& forall|i: int| 0 <= i < sorted.len() - 1 ==> (#[trigger] sorted[i]) + stride == sorted[i + 1]
    &&& sorted.last() + stride == root
}

/// The sectors that pad each path table of an image without a Joliet volume.
pub open spec fn table_padding(tables: TablesModel, root: u32, supplementary: bool) -> u32 {
    let sorted = sorted_extents(present_tables(tables.extents));
    let stride = sorted[1] - sorted[0];
    if !supplementary && stride >= tables.blocks && strides_evenly(sorted, root) {
        (stride - tables.blocks) as u32
    } else {
        0
    }
}

fn list_present(extents: &[u32; 4]) -> (present: Vec<u32>)
    ensures
        present@ == present_tables(extents@),
{
    let mut present: Vec<u32> = Vec::new();
    present.push(extents[0]);
    if extents[1] != 0 {
        present.push(extents[1]);
        present.push(extents[2]);
        present.push(extents[3]);
    } else {
        present.push(extents[2]);
    }
    assert(present@ =~= present_tables(extents@));
    present
}

fn sort_extents(extents: &Vec<u32>) -> (sorted: Vec<u32>)
    ensures
        sorted@ == sorted_extents(extents@),
{
    let order: Vec<usize> = order_by(extents);
    let ghost all = sorted_extents(extents@);
    let mut sorted: Vec<u32> = Vec::new();
    let mut i: usize = 0;
    while i < order.len()
        invariant
            i <= order.len(),
            order.len() == extents.len(),
            all == sorted_extents(extents@),
            places(order@) == stable_order(extents@, extents.len() as int),
            forall|k: int| 0 <= k < order.len() ==> #[trigger] order[k] < extents.len(),
            sorted@ == all.take(i as int),
        decreases order.len() - i,
    {
        assert(places(order@)[i as int] == order@[i as int]);
        sorted.push(extents[order[i]]);
        i = i + 1;
        assert(sorted@ =~= all.take(i as int));
    }
    assert(all.take(i as int) =~= all);
    sorted
}

fn find_table_padding(tables: &ParsedPathTables, root: u32, supplementary: bool) -> (padding: u32)
    ensures
        padding == table_padding(tables@, root, supplementary),
{
    let present: Vec<u32> = list_present(&tables.extents);
    let sorted: Vec<u32> = sort_extents(&present);
    proof {
        stable_order_sorts(present@, present@.len() as int);
        let order = stable_order(present@, present@.len() as int);
        assert(comes_before(present@, order[0], order[1]));
        assert(sorted@[0] <= sorted@[1]);
    }
    let stride: u32 = sorted[1] - sorted[0];
    if supplementary || stride < tables.blocks {
        return 0;
    }
    let mut i: usize = 0;
    while i + 1 < sorted.len()
        invariant
            i < sorted.len(),
            sorted.len() <= 4,
            sorted@ == sorted_extents(present_tables(tables@.extents)),
            stride == sorted@[1] - sorted@[0],
            stride >= tables.blocks,
            !supplementary,
            forall|j: int| 0 <= j < i ==> (#[trigger] sorted@[j]) + stride == sorted@[j + 1],
        decreases sorted.len() - i,
    {
        if sorted[i] as u64 + stride as u64 != sorted[i + 1] as u64 {
            assert(!strides_evenly(sorted@, root));
            return 0;
        }
        i = i + 1;
    }
    let last: u32 = sorted[sorted.len() - 1];
    if last as u64 + stride as u64 != root as u64 {
        return 0;
    }
    assert(strides_evenly(sorted@, root));
    stride - tables.blocks
}

/// The root record of the primary descriptor, and the descriptor.
#[verifier::ext_equal]
pub struct PrimaryRoot {
    pub record: RecordModel,
    pub volume: VolumeModel,
}

/// The root record of the primary descriptor, and the descriptor.
pub open spec fn primary_root(block: Seq<u8>) -> Result<PrimaryRoot, Failure> {
    match parsed_volume(block, false) {
        Err(failure) => Err(failure),
        Ok(volume) => match parsed_record(block.subrange(156, 2048)) {
            Err(failure) => Err(failure),
            Ok(record) => match record_fields_check(record, true) {
                Err(failure) => Err(failure),
                Ok(_) => if block[156] == 34 {
                    if record.system_use.len() > 0 {
                        Err(failure(ErrorKind::RootSystemUse))
                    } else {
                        Ok(PrimaryRoot { record, volume })
                    }
                } else if block[156] < 34 {
                    Err(failure_at(ErrorKind::RootLength, block[156] as int))
                } else {
                    Ok(
                        PrimaryRoot {
                            record,
                            volume: VolumeModel {
                                root_directory_record_length: Some(block[156]),
                                ..volume
                            },
                        },
                    )
                },
            },
        },
    }
}

fn read_primary_root(block: &Block) -> (result: Result<(Record, PrimaryVolume), Error>)
    ensures
        match (result, primary_root(block@)) {
            (Ok((record, volume)), Ok(expected)) => record@ == expected.record && volume@
                == expected.volume,
            (Err(error), Err(failure)) => error@ == failure,
            _ => false,
        },
{
    let parsed: PrimaryVolume = match parse_pvd(block) {
        Ok(value) => value,
        Err(error) => return Err(error),
    };
    let record: Record = match parse_record(slice_subrange(block.as_slice(), 156, 2048)) {
        Ok(value) => value,
        Err(error) => return Err(error),
    };
    match validate_record_fields(&record, true) {
        Ok(_) => {},
        Err(error) => return Err(error),
    }
    let length: u8 = block[156];
    if length == 34 {
        if record.system_use.len() > 0 {
            return Err(Error::new(ErrorKind::RootSystemUse));
        }
        return Ok((record, parsed));
    }
    if length < 34 {
        return Err(Error::at(ErrorKind::RootLength, length as u64));
    }
    let ghost plain = parsed@;
    let mut volume: PrimaryVolume = parsed;
    volume.root_directory_record_length = Some(length);
    assert(volume@ =~= (VolumeModel { root_directory_record_length: Some(length), ..plain }));
    Ok((record, volume))
}

/// What is known before the walk of the primary tree.
#[verifier::ext_equal]
pub struct PrimaryStart {
    pub volume: VolumeModel,
    pub xa_system_use: bool,
    pub walk: WalkModel,
}

/// What is known before the walk, given the contents of the root directory.
pub open spec fn primary_start_of(root: PrimaryRoot, contents: ContentsModel) -> Result<
    PrimaryStart,
    Failure,
> {
    let records = contents.records;
    let dot = records[0];
    let xa_system_use = dot.system_use.len() > 0;
    if records.len() < 2 {
        Err(failure(ErrorKind::RootDots))
    } else {
        match parsed_xa(dot.system_use, true, xa_system_use) {
            Err(failure) => Err(failure),
            Ok(xa) => Ok(
                PrimaryStart {
                    volume: VolumeModel {
                        root_directory_recording_time: distinct_time(root.record, dot),
                        ..root.volume
                    },
                    xa_system_use,
                    walk: WalkModel {
                        entries: seq![
                            EntryModel {
                                path: root_path(),
                                recording_time: recording_time_text(dot.recording_time),
                                hidden: root.record.flags & 1 != 0,
                                associated: root.record.flags & 4 != 0,
                                unbacked: false,
                                directory_reference: None,
                                directory_slack: None,
                                allocation_padding_hex: None,
                                sector_subheader: EntrySectorSubheader::Canonical,
                                xa,
                                extent: None,
                                length: None,
                            },
                        ],
                        files: Seq::empty(),
                        omissions: Seq::empty(),
                        directories: seq![
                            FoundModel {
                                path: root_path(),
                                extent: root.record.extent,
                                length: root.record.length,
                            },
                        ],
                        identifier_policy: IdentifierPolicy::IsoLevel1,
                        parent_time: None,
                        observation: contents.observation,
                    },
                },
            ),
        }
    }
}

/// What is known before the walk of the primary tree.
pub open spec fn primary_start(blocks: Seq<Block>, root: PrimaryRoot) -> Result<
    PrimaryStart,
    Failure,
> {
    match directory_contents(blocks, root.record.extent, root.record.length) {
        Err(under) => Err(failure_over(ErrorKind::ReadingRoot, Seq::empty(), 0, under)),
        Ok(contents) => primary_start_of(root, contents),
    }
}

fn start_walk_of(record: &Record, volume: PrimaryVolume, contents: &DirectoryContents) -> (result: Result<
    (PrimaryVolume, bool, Walk),
    Error,
>)
    ensures
        match (
            result,
            primary_start_of(PrimaryRoot { record: record@, volume: volume@ }, contents@),
        ) {
            (Ok((volume, xa_system_use, walk)), Ok(expected)) => {
                &&& volume@ == expected.volume
                &&& xa_system_use == expected.xa_system_use
                &&& walk@ == expected.walk
            },
            (Err(error), Err(failure)) => error@ == failure,
            _ => false,
        },
{
    let records: &Vec<Record> = &contents.records;
    if records.len() < 2 {
        return Err(Error::new(ErrorKind::RootDots));
    }
    let dot: &Record = &records[0];
    assert(contents@.records[0] == dot@);
    let xa_system_use: bool = dot.system_use.len() > 0;
    let ghost plain = volume@;
    let mut volume = volume;
    volume.root_directory_recording_time = find_distinct_time(record, dot);
    assert(volume@ =~= (VolumeModel {
        root_directory_recording_time: distinct_time(record@, dot@),
        ..plain
    }));
    let xa: Option<EntryXa> = match entry_xa(dot, true, xa_system_use) {
        Ok(value) => value,
        Err(error) => return Err(error),
    };
    let root = Entry {
        path: root_text(),
        recording_time: parse_recording_time(dot.recording_time),
        hidden: record.flags & 1 != 0,
        associated: record.flags & 4 != 0,
        unbacked: false,
        directory_reference: None,
        directory_slack: None,
        allocation_padding_hex: None,
        sector_subheader: EntrySectorSubheader::Canonical,
        xa,
        extent: None,
        length: None,
    };
    let found = ParsedDirectory {
        path: root_text(),
        extent: record.extent,
        length: record.length,
    };
    let mut entries: Vec<Entry> = Vec::new();
    entries.push(root);
    let mut directories: Vec<ParsedDirectory> = Vec::new();
    directories.push(found);
    let walk = Walk {
        entries,
        files: Vec::new(),
        omissions: Vec::new(),
        directories,
        identifier_policy: IdentifierPolicy::IsoLevel1,
        parent_time: None,
        observation: contents.observation,
    };
    proof {
        let expected = primary_start_of(
            PrimaryRoot { record: record@, volume: plain },
            contents@,
        )->Ok_0;
        assert(walk@.entries =~= seq![root@]);
        assert(walk@.directories =~= seq![found@]);
        assert(expected.walk.entries[0] =~= root@);
        assert(expected.walk.directories[0] =~= found@);
        assert(walk@ =~= expected.walk);
    }
    Ok((volume, xa_system_use, walk))
}

fn start_walk(blocks: &[Block], record: &Record, volume: PrimaryVolume) -> (result: Result<
    (PrimaryVolume, bool, Walk),
    Error,
>)
    ensures
        match (
            result,
            primary_start(blocks@, PrimaryRoot { record: record@, volume: volume@ }),
        ) {
            (Ok((volume, xa_system_use, walk)), Ok(expected)) => {
                &&& volume@ == expected.volume
                &&& xa_system_use == expected.xa_system_use
                &&& walk@ == expected.walk
            },
            (Err(error), Err(failure)) => error@ == failure,
            _ => false,
        },
{
    let nothing: &str = "";
    proof {
        reveal_strlit("");
        assert(nothing@ =~= Seq::empty());
    }
    match read_directory(blocks, record.extent, record.length) {
        Err(error) => Err(Error::over(ErrorKind::ReadingRoot, nothing, 0, error)),
        Ok(contents) => start_walk_of(record, volume, &contents),
    }
}

/// The end of the last fixed extent among the entries from `index` on, or `end`.
pub open spec fn external_end_from(entries: Seq<EntryModel>, end: u32, index: int) -> Result<
    u32,
    Failure,
>
    decreases entries.len() - index,
{
    if index < 0 || index >= entries.len() {
        Ok(end)
    } else {
        match (entries[index].extent, entries[index].length) {
            (None, _) => external_end_from(entries, end, index + 1),
            (Some(_), None) => Err(failure(ErrorKind::CddaLength)),
            (Some(extent), Some(length)) => {
                let next = extent + ceil_div(length as int, 2048);
                if next > u32::MAX {
                    Err(failure(ErrorKind::CddaOverflow))
                } else {
                    external_end_from(
                        entries,
                        if next > end {
                            next as u32
                        } else {
                            end
                        },
                        index + 1,
                    )
                }
            },
        }
    }
}

fn find_external_end(entries: &Vec<Entry>, start: u32) -> (result: Result<u32, Error>)
    ensures
        match (result, external_end_from(views(entries@), start, 0)) {
            (Ok(end), Ok(expected)) => end == expected,
            (Err(error), Err(failure)) => error@ == failure,
            _ => false,
        },
{
    let ghost model = views(entries@);
    let mut end: u32 = start;
    let mut i: usize = 0;
    while i < entries.len()
        invariant
            i <= entries.len(),
            model == views(entries@),
            external_end_from(model, start, 0) == external_end_from(model, end, i as int),
        decreases entries.len() - i,
    {
        assert(model[i as int] == entries@[i as int]@);
        match entries[i].extent {
            None => {},
            Some(extent) => match entries[i].length {
                None => return Err(Error::new(ErrorKind::CddaLength)),
                Some(length) => match extent.checked_add(ceil_div_u32(length, 2048)) {
                    None => return Err(Error::new(ErrorKind::CddaOverflow)),
                    Some(next) => {
                        if next > end {
                            end = next;
                        }
                    },
                },
            },
        }
        i = i + 1;
    }
    Ok(end)
}

/// The length of a directory's identifier in the path table.
pub open spec fn table_name_length(path: Seq<char>) -> int {
    if path == root_path() {
        1
    } else {
        utf8(name_of(path)).len() as int
    }
}

/// The size of the path table of the directories from `index` on.
pub open spec fn found_table_size(directories: Seq<FoundModel>, index: int) -> int
    decreases directories.len() - index,
{
    if index < 0 || index >= directories.len() {
        0
    } else {
        let length = table_name_length(directories[index].path);
        8 + length + length % 2 + found_table_size(directories, index + 1)
    }
}

/// A path table takes no less than nothing.
proof fn found_table_size_grows(directories: Seq<FoundModel>, index: int)
    ensures
        found_table_size(directories, index) >= 0,
    decreases directories.len() - index,
{
    if 0 <= index < directories.len() {
        found_table_size_grows(directories, index + 1);
    }
}

fn measure_found(directories: &Vec<ParsedDirectory>) -> (size: Option<u32>)
    ensures
        match size {
            Some(size) => size == found_table_size(views(directories@), 0),
            None => found_table_size(views(directories@), 0) > u32::MAX,
        },
{
    let ghost model = views(directories@);
    let mut size: u64 = 0;
    let mut i: usize = 0;
    while i < directories.len()
        invariant
            i <= directories.len(),
            model == views(directories@),
            size <= u32::MAX,
            found_table_size(model, 0) == size + found_table_size(model, i as int),
        decreases directories.len() - i,
    {
        assert(model[i as int] == directories@[i as int]@);
        let path: &str = directories[i].path.as_str();
        let length: usize = if is_root(path) {
            1
        } else {
            bytes_of(file_name(path).as_str()).len()
        };
        proof {
            found_table_size_grows(model, i + 1);
        }
        if length > 0xffff_ffff {
            return None;
        }
        let total: u64 = size + 8 + length as u64 + length as u64 % 2;
        if total > 0xffff_ffff {
            return None;
        }
        size = total;
        i = i + 1;
    }
    Some(size as u32)
}

/// `placed`, and then the places of the directories from `index` on.
pub open spec fn primary_placements_from(
    directories: Seq<FoundModel>,
    index: int,
    placed: Seq<PlacementModel>,
) -> Result<Seq<PlacementModel>, Failure>
    decreases directories.len() - index,
{
    if index < 0 || index >= directories.len() {
        Ok(placed)
    } else {
        match found_placement(
            directories,
            index,
            utf8(name_of(directories[index].path)),
            ErrorKind::TableParent,
        ) {
            Err(failure) => Err(failure),
            Ok(placement) => primary_placements_from(
                directories,
                index + 1,
                placed.push(placement),
            ),
        }
    }
}

fn place_primary(directories: &Vec<ParsedDirectory>) -> (result: Result<Vec<DirectoryPlacement>, Error>)
    ensures
        match (result, primary_placements_from(views(directories@), 0, Seq::empty())) {
            (Ok(placements), Ok(expected)) => views(placements@) == expected,
            (Err(error), Err(failure)) => error@ == failure,
            _ => false,
        },
{
    let ghost model = views(directories@);
    let mut placements: Vec<DirectoryPlacement> = Vec::new();
    let mut i: usize = 0;
    assert(views(placements@) =~= Seq::<PlacementModel>::empty());
    while i < directories.len()
        invariant
            i <= directories.len(),
            model == views(directories@),
            primary_placements_from(model, 0, Seq::empty()) == primary_placements_from(
                model,
                i as int,
                views(placements@),
            ),
        decreases directories.len() - i,
    {
        assert(model[i as int] == directories@[i as int]@);
        let name: Vec<u8> = bytes_of(file_name(directories[i].path.as_str()).as_str());
        let placement: DirectoryPlacement = match place_found(
            directories,
            i,
            name,
            ErrorKind::TableParent,
        ) {
            Ok(value) => value,
            Err(error) => return Err(error),
        };
        proof {
            views_push(placements@, placement);
        }
        placements.push(placement);
        i = i + 1;
    }
    Ok(placements)
}

/// The bytes of one of the primary path tables.
pub open spec fn table_at(blocks: Seq<Block>, head: PrimaryHead, k: int) -> Seq<u8> {
    extent_bytes(blocks, head.tables.extents[k] as int, head.table_size as int)
}

/// The primary path tables.
#[verifier::opaque]
pub open spec fn primary_tables(
    blocks: Seq<Block>,
    head: PrimaryHead,
    entries: Seq<EntryModel>,
    directories: Seq<FoundModel>,
) -> Result<TableRecord, Failure> {
    let generated = found_table_size(directories, 0);
    if generated > u32::MAX {
        Err(failure(ErrorKind::GeneratedTableOverflow))
    } else if ceil_div(head.table_size as int, 2048) != ceil_div(generated, 2048) {
        Err(failure(ErrorKind::TableSizeAllocation))
    } else {
        match primary_placements_from(directories, 0, Seq::empty()) {
            Err(failure) => Err(failure),
            Ok(placements) => match path_table(placements, false) {
                Err(failure) => Err(failure),
                Ok(canonical_little) => match path_table(placements, true) {
                    Err(failure) => Err(failure),
                    Ok(canonical_big) => {
                        let little = table_at(blocks, head, 0);
                        let big = table_at(blocks, head, 2);
                        let record = table_record(
                            head.table_size,
                            generated,
                            little,
                            big,
                            canonical_little,
                            canonical_big,
                        );
                        match references_check(entries, placements, little, big) {
                            Err(failure) => Err(failure),
                            Ok(_) => if record.little is None {
                                Ok(record)
                            } else if head.tables.extents[1] != 0 && table_at(blocks, head, 1)
                                != little {
                                Err(failure(ErrorKind::LittleCopiesDiffer))
                            } else if head.tables.extents[3] != 0 && table_at(blocks, head, 3)
                                != big {
                                Err(failure(ErrorKind::BigCopiesDiffer))
                            } else {
                                Ok(record)
                            },
                        }
                    },
                },
            },
        }
    }
}

fn read_primary_tables(
    blocks: &[Block],
    head: &Head,
    entries: &Vec<Entry>,
    directories: &Vec<ParsedDirectory>,
) -> (result: Result<TableDifference, Error>)
    requires
        head.table_size > 0,
        head.tables.blocks == ceil_div(head.table_size as int, 2048),
        head.tables.extents[0] != 0,
        head.tables.extents[2] != 0,
        tables_inside(head.tables@, blocks@.len() as int),
    ensures
        match (
            result,
            primary_tables(blocks@, head.model(), views(entries@), views(directories@)),
        ) {
            (Ok(difference), Ok(expected)) => difference.model() == expected,
            (Err(error), Err(failure)) => error@ == failure,
            _ => false,
        },
{
    reveal(primary_tables);
    proof {
        found_table_size_grows(views(directories@), 0);
        assert(head.tables@.extents[0] == head.tables.extents[0]);
        assert(head.tables@.extents[1] == head.tables.extents[1]);
        assert(head.tables@.extents[2] == head.tables.extents[2]);
        assert(head.tables@.extents[3] == head.tables.extents[3]);
    }
    let size: u32 = head.table_size;
    let generated: u32 = match measure_found(directories) {
        Some(generated) => generated,
        None => return Err(Error::new(ErrorKind::GeneratedTableOverflow)),
    };
    if ceil_div_u32(size, 2048) != ceil_div_u32(generated, 2048) {
        return Err(Error::new(ErrorKind::TableSizeAllocation));
    }
    let placements: Vec<DirectoryPlacement> = match place_primary(directories) {
        Ok(value) => value,
        Err(error) => return Err(error),
    };
    let canonical_little: Vec<u8> = match serialize_path_table(&placements, false) {
        Ok(value) => value,
        Err(error) => return Err(error),
    };
    let canonical_big: Vec<u8> = match serialize_path_table(&placements, true) {
        Ok(value) => value,
        Err(error) => return Err(error),
    };
    let little: Vec<u8> = read_path_table(blocks, head.tables.extents[0], size);
    let big: Vec<u8> = read_path_table(blocks, head.tables.extents[2], size);
    match validate_directory_reference_path_tables(
        entries,
        &placements,
        little.as_slice(),
        big.as_slice(),
    ) {
        Ok(_) => {},
        Err(error) => return Err(error),
    }
    let difference: TableDifference = find_difference(
        size,
        generated,
        &little,
        &big,
        &canonical_little,
        &canonical_big,
    );
    if difference.little.is_some() {
        if head.tables.extents[1] != 0 {
            let copy: Vec<u8> = read_path_table(blocks, head.tables.extents[1], size);
            if !same_bytes(copy.as_slice(), little.as_slice()) {
                return Err(Error::new(ErrorKind::LittleCopiesDiffer));
            }
        }
        if head.tables.extents[3] != 0 {
            let copy: Vec<u8> = read_path_table(blocks, head.tables.extents[3], size);
            if !same_bytes(copy.as_slice(), big.as_slice()) {
                return Err(Error::new(ErrorKind::BigCopiesDiffer));
            }
        }
    }
    Ok(difference)
}

/// Where files lie.
pub open spec fn extents_of(files: Seq<FoundModel>) -> Seq<u32> {
    Seq::new(files.len(), |i: int| files[i].extent)
}

/// The file area: the files in the order of their extents.
pub open spec fn file_order(files: Seq<FoundModel>) -> Seq<ItemModel> {
    let order = stable_order(extents_of(files), files.len() as int);
    Seq::new(files.len(), |i: int| ItemModel::Path { path: files[order[i]].path })
}

fn list_extents(files: &Vec<ParsedFile>) -> (extents: Vec<u32>)
    ensures
        extents@ == extents_of(views(files@)),
{
    let ghost all = extents_of(views(files@));
    let mut extents: Vec<u32> = Vec::new();
    let mut i: usize = 0;
    while i < files.len()
        invariant
            i <= files.len(),
            all == extents_of(views(files@)),
            extents@ == all.take(i as int),
        decreases files.len() - i,
    {
        assert(views(files@)[i as int] == files@[i as int]@);
        extents.push(files[i].extent);
        i = i + 1;
        assert(extents@ =~= all.take(i as int));
    }
    assert(all.take(i as int) =~= all);
    extents
}

fn order_files(files: &Vec<ParsedFile>) -> (items: Vec<FileLayoutItem>)
    ensures
        views(items@) == file_order(views(files@)),
{
    let order: Vec<usize> = order_by(&list_extents(files));
    let ghost all = file_order(views(files@));
    let mut items: Vec<FileLayoutItem> = Vec::new();
    let mut i: usize = 0;
    while i < order.len()
        invariant
            i <= order.len(),
            order.len() == files.len(),
            all == file_order(views(files@)),
            places(order@) == stable_order(
                extents_of(views(files@)),
                files.len() as int,
            ),
            forall|k: int| 0 <= k < order.len() ==> #[trigger] order[k] < files.len(),
            views(items@) == all.take(i as int),
        decreases order.len() - i,
    {
        assert(places(order@)[i as int] == order@[i as int]);
        let file: &ParsedFile = &files[order[i]];
        assert(views(files@)[order@[i as int] as int] == file@);
        let item = FileLayoutItem::Path { path: file.path.clone() };
        proof {
            views_push(items@, item);
        }
        items.push(item);
        i = i + 1;
        assert(views(items@) =~= all.take(i as int));
    }
    assert(all.take(i as int) =~= all);
    items
}

/// The description of an image without its Joliet volume.
pub open spec fn plain_description(
    set: VolumeSet,
    head: PrimaryHead,
    start: PrimaryStart,
    walk: WalkModel,
    end: u32,
    record: TableRecord,
    root: u32,
) -> IsoModel {
    IsoModel {
        primary_volume: VolumeModel {
            volume_space_size: if head.space_size != end {
                Some(head.space_size)
            } else {
                None
            },
            ..start.volume
        },
        primary_volume_copies: set.primary_copies,
        supplementary_volumes: Seq::empty(),
        metadata_layout: Seq::empty(),
        xa_system_use: start.xa_system_use,
        xa_system_use_omissions: walk.omissions,
        metadata_subheader: IsoMetadataSubheader::Canonical,
        metadata_framing_subheader: None,
        identifier_policy: walk.identifier_policy,
        directory_record_packing: if walk.observation.skipped_exact_fit {
            DirectoryRecordPacking::AvoidExactFit
        } else {
            DirectoryRecordPacking::Fill
        },
        directory_parent_recording_time: match walk.parent_time {
            Some(time) => time,
            None => DirectoryParentRecordingTime::Parent,
        },
        directory_length_policy: DirectoryLengthPolicy::Allocated,
        path_table_size: record.size,
        path_table_padding: table_padding(head.tables, root, set.supplementary),
        path_table_little_hex: record.little,
        path_table_big_hex: record.big,
        path_table_copies: head.copies,
        path_table_order: head.order,
        path_table_subheader: EntrySectorSubheader::Canonical,
        path_table_framing_subheader: None,
        entries: walk.entries,
        files: file_order(walk.files),
    }
}

/// What was read of the primary tree.
#[verifier::ext_equal]
pub struct PlainModel {
    pub set: VolumeSet,
    pub tables: TablesModel,
    pub manifest: IsoModel,
    pub files: Seq<FoundModel>,
    pub directories: Seq<FoundModel>,
}

/// What is read after the walk of the primary tree.
pub open spec fn plain_after(
    blocks: Seq<Block>,
    set: VolumeSet,
    head: PrimaryHead,
    start: PrimaryStart,
    walk: WalkModel,
    root: u32,
) -> Result<PlainModel, Failure> {
    if walk.observation.skipped_exact_fit && walk.observation.packed_exact_fit {
        Err(failure(ErrorKind::PackingInconsistent))
    } else if blocks.len() > u32::MAX {
        Err(failure(ErrorKind::IntegerConversion))
    } else {
        match external_end_from(walk.entries, blocks.len() as u32, 0) {
            Err(failure) => Err(failure),
            Ok(end) => match primary_tables(blocks, head, walk.entries, walk.directories) {
                Err(failure) => Err(failure),
                Ok(record) => Ok(
                    PlainModel {
                        set,
                        tables: head.tables,
                        manifest: plain_description(set, head, start, walk, end, record, root),
                        files: walk.files,
                        directories: walk.directories,
                    },
                ),
            },
        }
    }
}

/// What is read of the primary tree.
#[verifier::opaque]
pub open spec fn plain_parsed(blocks: Seq<Block>) -> Result<PlainModel, Failure> {
    match volume_set(blocks) {
        Err(failure) => Err(failure),
        Ok(set) => match primary_head(blocks[16]@, blocks.len() as int) {
            Err(failure) => Err(failure),
            Ok(head) => match primary_root(blocks[16]@) {
                Err(failure) => Err(failure),
                Ok(root) => match primary_start(blocks, root) {
                    Err(failure) => Err(failure),
                    Ok(start) => match walked_from(
                        blocks,
                        start.xa_system_use,
                        start.walk,
                        0,
                        0,
                    ) {
                        Err(failure) => Err(failure),
                        Ok(walk) => plain_after(
                            blocks,
                            set,
                            head,
                            start,
                            walk,
                            root.record.extent,
                        ),
                    },
                },
            },
        },
    }
}

struct Plain {
    set: VolumeSet,
    tables: ParsedPathTables,
    manifest: Iso9660,
    files: Vec<ParsedFile>,
    directories: Vec<ParsedDirectory>,
}

impl Plain {
    spec fn model(&self) -> PlainModel {
        PlainModel {
            set: self.set,
            tables: self.tables@,
            manifest: self.manifest@,
            files: views(self.files@),
            directories: views(self.directories@),
        }
    }
}

fn read_after(
    blocks: &[Block],
    set: VolumeSet,
    head: Head,
    volume: PrimaryVolume,
    xa_system_use: bool,
    walk: Walk,
    root: u32,
    start: Ghost<PrimaryStart>,
) -> (result: Result<Plain, Error>)
    requires
        head.table_size > 0,
        head.tables.blocks == ceil_div(head.table_size as int, 2048),
        head.tables.extents[0] != 0,
        head.tables.extents[2] != 0,
        tables_inside(head.tables@, blocks@.len() as int),
        volume@ == start@.volume,
        xa_system_use == start@.xa_system_use,
    ensures
        match (result, plain_after(blocks@, set, head.model(), start@, walk@, root)) {
            (Ok(plain), Ok(expected)) => plain.model() == expected,
            (Err(error), Err(failure)) => error@ == failure,
            _ => false,
        },
{
    if walk.observation.skipped_exact_fit && walk.observation.packed_exact_fit {
        return Err(Error::new(ErrorKind::PackingInconsistent));
    }
    if blocks.len() as u64 > 0xffff_ffff {
        return Err(Error::new(ErrorKind::IntegerConversion));
    }
    let end: u32 = match find_external_end(&walk.entries, blocks.len() as u32) {
        Ok(value) => value,
        Err(error) => return Err(error),
    };
    let difference: TableDifference = match read_primary_tables(
        blocks,
        &head,
        &walk.entries,
        &walk.directories,
    ) {
        Ok(value) => value,
        Err(error) => return Err(error),
    };
    let files: Vec<FileLayoutItem> = order_files(&walk.files);
    let path_table_padding: u32 = find_table_padding(&head.tables, root, set.supplementary);
    let ghost model = walk@;
    let ghost head_model = head.model();
    let ghost record = difference.model();
    let mut primary_volume: PrimaryVolume = volume;
    primary_volume.volume_space_size = if head.space_size != end {
        Some(head.space_size)
    } else {
        None
    };
    let TableDifference { size, little, big } = difference;
    let manifest = Iso9660 {
        primary_volume,
        primary_volume_copies: set.primary_copies,
        supplementary_volumes: Vec::new(),
        metadata_layout: Vec::new(),
        xa_system_use,
        xa_system_use_omissions: walk.omissions,
        metadata_subheader: IsoMetadataSubheader::Canonical,
        metadata_framing_subheader: None,
        identifier_policy: walk.identifier_policy,
        directory_record_packing: if walk.observation.skipped_exact_fit {
            DirectoryRecordPacking::AvoidExactFit
        } else {
            DirectoryRecordPacking::Fill
        },
        directory_parent_recording_time: match walk.parent_time {
            Some(time) => time,
            None => DirectoryParentRecordingTime::Parent,
        },
        directory_length_policy: DirectoryLengthPolicy::Allocated,
        path_table_size: size,
        path_table_padding,
        path_table_little_hex: little,
        path_table_big_hex: big,
        path_table_copies: head.copies,
        path_table_order: head.order,
        path_table_subheader: EntrySectorSubheader::Canonical,
        path_table_framing_subheader: None,
        entries: walk.entries,
        files,
    };
    proof {
        let expected = plain_description(set, head_model, start@, model, end, record, root);
        assert(manifest@.primary_volume =~= expected.primary_volume);
        assert(manifest@ =~= expected);
    }
    Ok(
        Plain {
            set,
            tables: head.tables,
            manifest,
            files: walk.files,
            directories: walk.directories,
        },
    )
}

fn parse_plain(blocks: &[Block]) -> (result: Result<Plain, Error>)
    ensures
        match (result, plain_parsed(blocks@)) {
            (Ok(plain), Ok(expected)) => {
                &&& plain.model() == expected
                &&& volume_set(blocks@) == Ok::<VolumeSet, Failure>(plain.set)
            },
            (Err(error), Err(failure)) => error@ == failure,
            _ => false,
        },
{
    reveal(plain_parsed);
    let set: VolumeSet = match find_volume_set(blocks) {
        Ok(value) => value,
        Err(error) => return Err(error),
    };
    let block: &Block = &blocks[16];
    let head: Head = match read_primary_head(block, blocks.len()) {
        Ok(value) => value,
        Err(error) => return Err(error),
    };
    let (record, volume) = match read_primary_root(block) {
        Ok(value) => value,
        Err(error) => return Err(error),
    };
    let root: u32 = record.extent;
    let (start_volume, xa_system_use, walk) = match start_walk(blocks, &record, volume) {
        Ok(value) => value,
        Err(error) => return Err(error),
    };
    let ghost start = primary_start(
        blocks@,
        PrimaryRoot { record: record@, volume: volume@ },
    )->Ok_0;
    let mut walk: Walk = walk;
    match walk.visit_all(blocks, xa_system_use) {
        Ok(_) => {},
        Err(error) => return Err(error),
    }
    proof {
        assert(head.tables@.extents[0] == head.tables.extents[0]);
        assert(head.tables@.extents[2] == head.tables.extents[2]);
    }
    read_after(blocks, set, head, start_volume, xa_system_use, walk, root, Ghost(start))
}

/// What an image with a Joliet volume holds, given its primary tree.
pub open spec fn with_supplementary(blocks: Seq<Block>, plain: PlainModel) -> Result<
    ParsedModel,
    Failure,
> {
    let terminator = plain.set.terminator();
    if plain.manifest.path_table_copies != PathTableCopies::Single {
        Err(failure(ErrorKind::JolietTableCopies))
    } else {
        match parsed_joliet(blocks, blocks[terminator - 1]@, plain.files) {
            Err(failure) => Err(failure),
            Ok(joliet) => match metadata_order(
                blocks,
                (terminator + 1) as u32,
                plain.tables,
                plain.directories,
                joliet.path_tables,
                joliet.directories,
            ) {
                Err(failure) => Err(failure),
                Ok(order) => {
                    let manifest = IsoModel {
                        supplementary_volumes: seq![joliet.volume],
                        metadata_layout: order.layout,
                        ..plain.manifest
                    };
                    match length_policy(manifest, plain.directories, joliet.directories) {
                        Err(failure) => Err(failure),
                        Ok(directory_length_policy) => Ok(
                            ParsedModel {
                                manifest: IsoModel { directory_length_policy, ..manifest },
                                files: plain.files,
                                directories: plain.directories,
                                path_tables: Some(plain.tables),
                                supplementary_directories: joliet.directories,
                                supplementary_path_tables: Some(joliet.path_tables),
                                metadata_gaps: order.gaps,
                            },
                        ),
                    }
                },
            },
        }
    }
}

/// What an image holds.
pub open spec fn parsed_iso(blocks: Seq<Block>) -> Result<ParsedModel, Failure> {
    match plain_parsed(blocks) {
        Err(failure) => Err(failure),
        Ok(plain) => if plain.set.supplementary {
            with_supplementary(blocks, plain)
        } else {
            Ok(
                ParsedModel {
                    manifest: plain.manifest,
                    files: plain.files,
                    directories: plain.directories,
                    path_tables: Some(plain.tables),
                    supplementary_directories: Seq::empty(),
                    supplementary_path_tables: None,
                    metadata_gaps: Seq::empty(),
                },
            )
        },
    }
}

#[verifier::rlimit(60)]
#[verifier::spinoff_prover]
fn parse_supplementary(blocks: &[Block], plain: Plain) -> (result: Result<ParsedIso, Error>)
    requires
        plain.set.supplementary,
        plain.set.primary_copies <= 3,
        blocks.len() > 22,
    ensures
        match (result, with_supplementary(blocks@, plain.model())) {
            (Ok(parsed), Ok(expected)) => parsed@ == expected,
            (Err(error), Err(failure)) => error@ == failure,
            _ => false,
        },
{
    let Plain { set, tables, manifest, files, directories } = plain;
    if manifest.path_table_copies != PathTableCopies::Single {
        return Err(Error::new(ErrorKind::JolietTableCopies));
    }
    let at: usize = 16 + set.primary_copies as usize;
    let joliet: ParsedJoliet = match parse_joliet(blocks, &blocks[at], &files) {
        Ok(value) => value,
        Err(error) => return Err(error),
    };
    let (metadata_layout, metadata_gaps) = match derive_metadata_layout(
        blocks,
        at as u32 + 2,
        &tables,
        &directories,
        &joliet.path_tables,
        &joliet.directories,
    ) {
        Ok(value) => value,
        Err(error) => return Err(error),
    };
    let ghost plain_manifest = manifest@;
    let ghost joliet_model = joliet@;
    let mut manifest: Iso9660 = manifest;
    let ParsedJoliet { volume, directories: supplementary_directories, path_tables } = joliet;
    let mut supplementary_volumes: Vec<JolietVolume> = Vec::new();
    supplementary_volumes.push(volume);
    manifest.supplementary_volumes = supplementary_volumes;
    manifest.metadata_layout = metadata_layout;
    let ghost extended = IsoModel {
        supplementary_volumes: seq![joliet_model.volume],
        metadata_layout: metadata_layout@,
        ..plain_manifest
    };
    proof {
        assert(manifest@.supplementary_volumes =~= seq![joliet_model.volume]);
        assert(manifest@ =~= extended);
    }
    let policy: DirectoryLengthPolicy = match infer_directory_length_policy(
        &manifest,
        &directories,
        &supplementary_directories,
    ) {
        Ok(value) => value,
        Err(error) => return Err(error),
    };
    manifest.directory_length_policy = policy;
    assert(manifest@ =~= (IsoModel { directory_length_policy: policy, ..extended }));
    Ok(
        ParsedIso {
            manifest,
            files,
            directories,
            path_tables: Some(tables),
            supplementary_directories,
            supplementary_path_tables: Some(path_tables),
            metadata_gaps,
        },
    )
}

/// Reads the filesystem that the blocks of an image hold.
pub fn parse(blocks: &[Block]) -> (result: Result<ParsedIso, Error>)
    ensures
        match (result, parsed_iso(blocks@)) {
            (Ok(parsed), Ok(expected)) => parsed@ == expected,
            (Err(error), Err(failure)) => error@ == failure,
            _ => false,
        },
{
    let plain: Plain = match parse_plain(blocks) {
        Ok(value) => value,
        Err(error) => return Err(error),
    };
    if plain.set.supplementary {
        proof {
            copies_grow(blocks@, 1);
        }
        return parse_supplementary(blocks, plain);
    }
    let Plain { set: _, tables, manifest, files, directories } = plain;
    let parsed = ParsedIso {
        manifest,
        files,
        directories,
        path_tables: Some(tables),
        supplementary_directories: Vec::new(),
        supplementary_path_tables: None,
        metadata_gaps: Vec::new(),
    };
    assert(parsed@ =~= parsed_iso(blocks@)->Ok_0);
    Ok(parsed)
}

/// There are as many primary descriptors as have been seen, or more.
proof fn copies_grow(blocks: Seq<Block>, known: int)
    requires
        known >= 1,
    ensures
        copies_from(blocks, known) matches Ok(copies) ==> copies >= known,
    decreases blocks.len() - known,
{
    if 16 + known < blocks.len() && is_descriptor(blocks[16 + known]@, 1) && blocks[16 + known]@
        == blocks[16]@ {
        copies_grow(blocks, known + 1);
    }
}

} // verus!
