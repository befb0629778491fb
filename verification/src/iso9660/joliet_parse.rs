//! Reading a Joliet volume: its descriptor, its tree and its path tables.
use vstd::prelude::*;
use vstd::slice::slice_subrange;

use crate::bytes::{field, from_be32, from_le32, read_be32, read_le32, same_bytes};
use crate::error::{failure, Error, ErrorKind, Failure};
use crate::hexcode::{encode, hex_text};
use crate::iso9660::description::{
    EntryXa, JolietEntry, JolietEntryModel, JolietModel, JolietVolume, PrimaryVolume, VolumeModel,
};
use crate::iso9660::descriptor::{parse_joliet_descriptor, parsed_volume};
use crate::iso9660::fields::{read_both32, read_both_u32};
use crate::iso9660::joliet::{level_of, parse_joliet_level};
use crate::iso9660::joliet_walk::{
    joliet_placements_from, joliet_string_padding, joliet_walked_from, or_spaces,
    parsed_joliet_placements, string_padding, JolietWalk, JolietWalkModel,
};
use crate::iso9660::metadata::{ParsedPathTables, TablesModel};
use crate::iso9660::path_table::{
    extent_bytes, path_table, read_path_table, serialize_path_table, DirectoryPlacement,
};
use crate::iso9660::read::{directory_contents, read_directory, DirectoryContents};
use crate::iso9660::record::{
    entry_xa, parse_record, parsed_record, parsed_xa, record_fields_check, validate_record_fields,
    Record, RecordModel,
};
use crate::iso9660::time::{parse_recording_time, recording_time_text};
use crate::iso9660::walk::{FoundModel, ParsedDirectory, ParsedFile};
use crate::manifest::JolietLevel;
use crate::model::{ceil_div, ceil_div_u32, opt_view, views};
use crate::raw_cd::Block;
use crate::text::{root_path, root_text, same_text};

verus! {

/// The extents of the path tables that a descriptor names.
pub open spec fn table_pointers(block: Seq<u8>) -> Seq<u32> {
    seq![
        from_le32(field(block, 140, 4)),
        from_le32(field(block, 144, 4)),
        from_be32(field(block, 148, 4)),
        from_be32(field(block, 152, 4)),
    ]
}

pub(crate) fn read_pointers(block: &Block) -> (pointers: [u32; 4])
    ensures
        pointers@ == table_pointers(block@),
{
    let bytes: &[u8] = block.as_slice();
    let pointers: [u32; 4] = [
        read_le32(bytes, 140),
        read_le32(bytes, 144),
        read_be32(bytes, 148),
        read_be32(bytes, 152),
    ];
    assert(pointers@ =~= table_pointers(block@));
    pointers
}

/// A path table lies within an image.
pub open spec fn table_inside(extent: u32, blocks: u32, count: int) -> bool {
    extent + blocks <= u32::MAX && extent + blocks <= count
}

pub(crate) fn is_table_inside(extent: u32, blocks: u32, count: usize) -> (inside: bool)
    ensures
        inside == table_inside(extent, blocks, count as int),
{
    match extent.checked_add(blocks) {
        Some(end) => end as u64 <= count as u64,
        None => false,
    }
}

/// What a Joliet descriptor says of its path tables and its level.
#[verifier::ext_equal]
pub struct JolietHead {
    pub level: JolietLevel,
    pub size: u32,
    pub tables: TablesModel,
}

/// What a Joliet descriptor says of its path tables and its level, in an image of
/// `count` blocks.
pub open spec fn joliet_head(block: Seq<u8>, count: int) -> Result<JolietHead, Failure> {
    match level_of(block.subrange(88, 120)) {
        Err(failure) => Err(failure),
        Ok(level) => match read_both32(block, 132) {
            Err(failure) => Err(failure),
            Ok(size) => {
                let pointers = table_pointers(block);
                let blocks = ceil_div(size as int, 2048) as u32;
                if size == 0 {
                    Err(failure(ErrorKind::JolietTableSize))
                } else if pointers[0] == 0 || pointers[1] != 0 || pointers[2] == 0 || pointers[3]
                    != 0 {
                    Err(failure(ErrorKind::JolietTables))
                } else if !table_inside(pointers[0], blocks, count) || !table_inside(
                    pointers[2],
                    blocks,
                    count,
                ) {
                    Err(failure(ErrorKind::JolietTableOutside))
                } else {
                    Ok(JolietHead { level, size, tables: TablesModel { extents: pointers, blocks } })
                }
            },
        },
    }
}

fn read_head(block: &Block, count: usize) -> (result: Result<(JolietLevel, u32, ParsedPathTables), Error>)
    ensures
        match (result, joliet_head(block@, count as int)) {
            (Ok((level, size, tables)), Ok(expected)) => {
                &&& level == expected.level
                &&& size == expected.size
                &&& tables@ == expected.tables
            },
            (Err(error), Err(failure)) => error@ == failure,
            _ => false,
        },
{
    let bytes: &[u8] = block.as_slice();
    let level: JolietLevel = match parse_joliet_level(slice_subrange(bytes, 88, 120)) {
        Ok(value) => value,
        Err(error) => return Err(error),
    };
    let size: u32 = match read_both_u32(bytes, 132) {
        Ok(value) => value,
        Err(error) => return Err(error),
    };
    if size == 0 {
        return Err(Error::new(ErrorKind::JolietTableSize));
    }
    let blocks: u32 = ceil_div_u32(size, 2048);
    let extents: [u32; 4] = read_pointers(block);
    if extents[0] == 0 || extents[1] != 0 || extents[2] == 0 || extents[3] != 0 {
        return Err(Error::new(ErrorKind::JolietTables));
    }
    if !is_table_inside(extents[0], blocks, count) || !is_table_inside(extents[2], blocks, count) {
        return Err(Error::new(ErrorKind::JolietTableOutside));
    }
    Ok((level, size, ParsedPathTables { extents, blocks }))
}

/// The root of a Joliet tree: the descriptor with the root's time, whether its
/// records carry XA data, and the root itself.
#[verifier::ext_equal]
pub struct JolietRoot {
    pub descriptor: VolumeModel,
    pub xa_system_use: bool,
    pub walk: JolietWalkModel,
}

/// The time of a descriptor's root record, where it is not that of the root.
pub open spec fn distinct_time(record: RecordModel, dot: RecordModel) -> Option<Seq<char>> {
    let time = recording_time_text(record.recording_time);
    if time == recording_time_text(dot.recording_time) {
        None
    } else {
        Some(time)
    }
}

pub(crate) fn find_distinct_time(record: &Record, dot: &Record) -> (time: Option<String>)
    ensures
        opt_view(time) == distinct_time(record@, dot@),
{
    let recorded: String = parse_recording_time(record.recording_time);
    let own: String = parse_recording_time(dot.recording_time);
    if same_text(recorded.as_str(), own.as_str()) {
        None
    } else {
        Some(recorded)
    }
}

/// The root of the Joliet tree.
pub open spec fn joliet_root(blocks: Seq<Block>, block: Seq<u8>) -> Result<JolietRoot, Failure> {
    match parsed_volume(block, true) {
        Err(failure) => Err(failure),
        Ok(descriptor) => match parsed_record(block.subrange(156, 2048)) {
            Err(failure) => Err(failure),
            Ok(record) => match record_fields_check(record, true) {
                Err(failure) => Err(failure),
                Ok(_) => if record.system_use.len() > 0 {
                    Err(failure(ErrorKind::JolietRootSystemUse))
                } else {
                    match directory_contents(blocks, record.extent, record.length) {
                        Err(failure) => Err(failure),
                        Ok(contents) => joliet_root_of(descriptor, record, contents.records),
                    }
                },
            },
        },
    }
}

/// The root of the Joliet tree, given its records.
pub open spec fn joliet_root_of(
    descriptor: VolumeModel,
    record: RecordModel,
    records: Seq<RecordModel>,
) -> Result<JolietRoot, Failure> {
    let dot = records[0];
    let xa_system_use = dot.system_use.len() > 0;
    if records.len() < 2 {
        Err(failure(ErrorKind::JolietRootDots))
    } else {
        match parsed_xa(dot.system_use, true, xa_system_use) {
            Err(failure) => Err(failure),
            Ok(xa) => Ok(
                JolietRoot {
                    descriptor: VolumeModel {
                        root_directory_recording_time: distinct_time(record, dot),
                        ..descriptor
                    },
                    xa_system_use,
                    walk: JolietWalkModel {
                        entries: seq![
                            JolietEntryModel {
                                path: root_path(),
                                source: None,
                                omit_version: false,
                                recording_time: recording_time_text(dot.recording_time),
                                hidden: record.flags & 1 != 0,
                                associated: record.flags & 4 != 0,
                                xa,
                            },
                        ],
                        directories: seq![
                            FoundModel {
                                path: root_path(),
                                extent: record.extent,
                                length: record.length,
                            },
                        ],
                    },
                },
            ),
        }
    }
}

fn read_root_of(descriptor: PrimaryVolume, record: &Record, records: &Vec<Record>) -> (result: Result<
    (PrimaryVolume, bool, JolietWalk),
    Error,
>)
    ensures
        match (result, joliet_root_of(descriptor@, record@, views(records@))) {
            (Ok((descriptor, xa_system_use, walk)), Ok(expected)) => {
                &&& descriptor@ == expected.descriptor
                &&& xa_system_use == expected.xa_system_use
                &&& walk@ == expected.walk
            },
            (Err(error), Err(failure)) => error@ == failure,
            _ => false,
        },
{
    if records.len() < 2 {
        return Err(Error::new(ErrorKind::JolietRootDots));
    }
    let dot: &Record = &records[0];
    assert(views(records@)[0] == dot@);
    let xa_system_use: bool = dot.system_use.len() > 0;
    let ghost plain = descriptor@;
    let mut descriptor = descriptor;
    descriptor.root_directory_recording_time = find_distinct_time(record, dot);
    assert(descriptor@ =~= (VolumeModel {
        root_directory_recording_time: distinct_time(record@, dot@),
        ..plain
    }));
    let xa: Option<EntryXa> = match entry_xa(dot, true, xa_system_use) {
        Ok(value) => value,
        Err(error) => return Err(error),
    };
    let root = JolietEntry {
        path: root_text(),
        source: None,
        omit_version: false,
        recording_time: parse_recording_time(dot.recording_time),
        hidden: record.flags & 1 != 0,
        associated: record.flags & 4 != 0,
        xa,
    };
    let found = ParsedDirectory {
        path: root_text(),
        extent: record.extent,
        length: record.length,
    };
    let mut entries: Vec<JolietEntry> = Vec::new();
    entries.push(root);
    let mut directories: Vec<ParsedDirectory> = Vec::new();
    directories.push(found);
    let walk = JolietWalk { entries, directories };
    proof {
        let expected = joliet_root_of(plain, record@, views(records@))->Ok_0;
        assert(walk@.entries =~= seq![root@]);
        assert(walk@.directories =~= seq![found@]);
        assert(expected.walk.entries[0] =~= root@);
        assert(expected.walk.directories[0] =~= found@);
        assert(walk@ =~= expected.walk);
    }
    Ok((descriptor, xa_system_use, walk))
}

fn read_root(blocks: &[Block], block: &Block) -> (result: Result<(PrimaryVolume, bool, JolietWalk), Error>)
    ensures
        match (result, joliet_root(blocks@, block@)) {
            (Ok((descriptor, xa_system_use, walk)), Ok(expected)) => {
                &&& descriptor@ == expected.descriptor
                &&& xa_system_use == expected.xa_system_use
                &&& walk@ == expected.walk
            },
            (Err(error), Err(failure)) => error@ == failure,
            _ => false,
        },
{
    let descriptor: PrimaryVolume = match parse_joliet_descriptor(block) {
        Ok(value) => value,
        Err(error) => return Err(error),
    };
    let record: Record = match parse_record(slice_subrange(block.as_slice(), 156, 2048)) {
        Ok(value) => value,
        Err(error) => return Err(error),
    };
    match validate_record_fields(&record, true) {
        Ok(_) => {},
        Err(error) => return Err(error),
    }
    if record.system_use.len() > 0 {
        return Err(Error::new(ErrorKind::JolietRootSystemUse));
    }
    let contents: DirectoryContents = match read_directory(blocks, record.extent, record.length) {
        Ok(value) => value,
        Err(error) => return Err(error),
    };
    read_root_of(descriptor, &record, &contents.records)
}

/// A Joliet volume that was read.
pub struct ParsedJoliet {
    pub volume: JolietVolume,
    pub directories: Vec<ParsedDirectory>,
    pub path_tables: ParsedPathTables,
}

/// The mathematical form of a [`ParsedJoliet`].
#[verifier::ext_equal]
pub struct ParsedJolietModel {
    pub volume: JolietModel,
    pub directories: Seq<FoundModel>,
    pub path_tables: TablesModel,
}

impl View for ParsedJoliet {
    type V = ParsedJolietModel;

    open spec fn view(&self) -> ParsedJolietModel {
        ParsedJolietModel {
            volume: self.volume@,
            directories: views(self.directories@),
            path_tables: self.path_tables@,
        }
    }
}

/// The path tables of a volume, where they are not those that its directories give.
#[verifier::ext_equal]
pub struct TableRecord {
    pub size: Option<u32>,
    pub little: Option<Seq<char>>,
    pub big: Option<Seq<char>>,
}

/// How the path tables of the image differ from those that directories give.
pub open spec fn table_record(
    size: u32,
    generated: int,
    little: Seq<u8>,
    big: Seq<u8>,
    canonical_little: Seq<u8>,
    canonical_big: Seq<u8>,
) -> TableRecord {
    let differs = size != generated || little != canonical_little || big != canonical_big;
    TableRecord {
        size: if size != generated {
            Some(size)
        } else {
            None
        },
        little: if differs {
            Some(hex_text(little))
        } else {
            None
        },
        big: if differs {
            Some(hex_text(big))
        } else {
            None
        },
    }
}

/// The path tables of a Joliet volume.
#[verifier::opaque]
pub open spec fn joliet_tables(blocks: Seq<Block>, head: JolietHead, directories: Seq<FoundModel>) -> Result<
    TableRecord,
    Failure,
> {
    match joliet_placements_from(directories, 0, Seq::empty()) {
        Err(failure) => Err(failure),
        Ok(placements) => match path_table(placements, false) {
            Err(failure) => Err(failure),
            Ok(little) => if little.len() > u32::MAX {
                Err(failure(ErrorKind::IntegerConversion))
            } else if ceil_div(little.len() as int, 2048) != head.tables.blocks {
                Err(failure(ErrorKind::JolietTableAllocationChanged))
            } else {
                match path_table(placements, true) {
                    Err(failure) => Err(failure),
                    Ok(big) => Ok(
                        table_record(
                            head.size,
                            little.len() as int,
                            extent_bytes(blocks, head.tables.extents[0] as int, head.size as int),
                            extent_bytes(blocks, head.tables.extents[2] as int, head.size as int),
                            little,
                            big,
                        ),
                    ),
                }
            },
        },
    }
}

/// How the path tables of an image differ from those that directories give.
pub struct TableDifference {
    pub size: Option<u32>,
    pub little: Option<String>,
    pub big: Option<String>,
}

impl TableDifference {
    /// The mathematical form of the difference.
    pub open spec fn model(&self) -> TableRecord {
        TableRecord { size: self.size, little: opt_view(self.little), big: opt_view(self.big) }
    }
}

pub(crate) fn find_difference(
    size: u32,
    generated: u32,
    little: &Vec<u8>,
    big: &Vec<u8>,
    canonical_little: &Vec<u8>,
    canonical_big: &Vec<u8>,
) -> (difference: TableDifference)
    ensures
        difference.model() == table_record(
            size,
            generated as int,
            little@,
            big@,
            canonical_little@,
            canonical_big@,
        ),
{
    let same_size: bool = size == generated;
    if same_size && same_bytes(little.as_slice(), canonical_little.as_slice()) && same_bytes(
        big.as_slice(),
        canonical_big.as_slice(),
    ) {
        return TableDifference { size: None, little: None, big: None };
    }
    TableDifference {
        size: if same_size {
            None
        } else {
            Some(size)
        },
        little: Some(encode(little.as_slice())),
        big: Some(encode(big.as_slice())),
    }
}

fn read_tables(
    blocks: &[Block],
    size: u32,
    tables: &ParsedPathTables,
    directories: &Vec<ParsedDirectory>,
    head: Ghost<JolietHead>,
) -> (result: Result<TableDifference, Error>)
    requires
        head@.size == size,
        head@.tables == tables@,
        tables.blocks == ceil_div(size as int, 2048),
        table_inside(tables.extents[0], tables.blocks, blocks@.len() as int),
        table_inside(tables.extents[2], tables.blocks, blocks@.len() as int),
    ensures
        match (result, joliet_tables(blocks@, head@, views(directories@))) {
            (Ok(difference), Ok(expected)) => difference.model() == expected,
            (Err(error), Err(failure)) => error@ == failure,
            _ => false,
        },
{
    reveal(joliet_tables);
    let placements: Vec<DirectoryPlacement> = match parsed_joliet_placements(directories) {
        Ok(value) => value,
        Err(error) => return Err(error),
    };
    let canonical_little: Vec<u8> = match serialize_path_table(&placements, false) {
        Ok(value) => value,
        Err(error) => return Err(error),
    };
    if canonical_little.len() as u64 > 0xffff_ffff {
        return Err(Error::new(ErrorKind::IntegerConversion));
    }
    let generated: u32 = canonical_little.len() as u32;
    if ceil_div_u32(generated, 2048) != tables.blocks {
        return Err(Error::new(ErrorKind::JolietTableAllocationChanged));
    }
    let canonical_big: Vec<u8> = match serialize_path_table(&placements, true) {
        Ok(value) => value,
        Err(error) => return Err(error),
    };
    let little: Vec<u8> = read_path_table(blocks, tables.extents[0], size);
    let big: Vec<u8> = read_path_table(blocks, tables.extents[2], size);
    Ok(find_difference(size, generated, &little, &big, &canonical_little, &canonical_big))
}

/// The bytes that follow the file identifiers of a Joliet descriptor.
pub open spec fn odd_identifier_bytes(block: Seq<u8>) -> Seq<u8> {
    seq![block[738], block[775], block[812]]
}

/// A Joliet volume, given the files of the primary tree.
pub open spec fn parsed_joliet(blocks: Seq<Block>, block: Seq<u8>, files: Seq<FoundModel>) -> Result<
    ParsedJolietModel,
    Failure,
> {
    match joliet_head(block, blocks.len() as int) {
        Err(failure) => Err(failure),
        Ok(head) => match joliet_root(blocks, block) {
            Err(failure) => Err(failure),
            Ok(root) => match joliet_walked_from(
                blocks,
                files,
                root.xa_system_use,
                root.walk,
                0,
            ) {
                Err(failure) => Err(failure),
                Ok(walk) => match joliet_tables(blocks, head, walk.directories) {
                    Err(failure) => Err(failure),
                    Ok(record) => match string_padding(block, root.descriptor) {
                        Err(failure) => Err(failure),
                        Ok(padding) => Ok(
                            ParsedJolietModel {
                                volume: JolietModel {
                                    level: head.level,
                                    flags: block[7],
                                    zero_fill_empty_strings: or_spaces(padding.empty),
                                    zero_pad_strings: or_spaces(padding.rest),
                                    volume_set_identifier_raw_hex: padding.raw,
                                    descriptor: VolumeModel {
                                        volume_space_size: None,
                                        ..root.descriptor
                                    },
                                    xa_system_use: root.xa_system_use,
                                    path_table_size: record.size,
                                    path_table_little_hex: record.little,
                                    path_table_big_hex: record.big,
                                    file_identifier_odd_bytes_hex: if odd_identifier_bytes(block)
                                        == seq![0u8, 0u8, 0u8] {
                                        None
                                    } else {
                                        Some(hex_text(odd_identifier_bytes(block)))
                                    },
                                    entries: walk.entries,
                                },
                                directories: walk.directories,
                                path_tables: head.tables,
                            },
                        ),
                    },
                },
            },
        },
    }
}

fn find_odd_bytes(block: &Block) -> (hex: Option<String>)
    ensures
        opt_view(hex) == if odd_identifier_bytes(block@) == seq![0u8, 0u8, 0u8] {
            None
        } else {
            Some(hex_text(odd_identifier_bytes(block@)))
        },
{
    let bytes: [u8; 3] = [block[738], block[775], block[812]];
    assert(bytes@ =~= odd_identifier_bytes(block@));
    if block[738] == 0 && block[775] == 0 && block[812] == 0 {
        assert(bytes@ =~= seq![0u8, 0u8, 0u8]);
        None
    } else {
        assert(bytes@ != seq![0u8, 0u8, 0u8]) by {
            if bytes@ == seq![0u8, 0u8, 0u8] {
                assert(bytes@[0] == 0 && bytes@[1] == 0 && bytes@[2] == 0);
            }
        }
        Some(encode(bytes.as_slice()))
    }
}

/// Reads the Joliet volume that a descriptor begins.
pub fn parse_joliet(blocks: &[Block], block: &Block, primary_files: &Vec<ParsedFile>) -> (result: Result<
    ParsedJoliet,
    Error,
>)
    ensures
        match (result, parsed_joliet(blocks@, block@, views(primary_files@))) {
            (Ok(parsed), Ok(expected)) => parsed@ == expected,
            (Err(error), Err(failure)) => error@ == failure,
            _ => false,
        },
{
    let (level, size, path_tables) = match read_head(block, blocks.len()) {
        Ok(value) => value,
        Err(error) => return Err(error),
    };
    let ghost head = joliet_head(block@, blocks@.len() as int)->Ok_0;
    let (root_descriptor, xa_system_use, mut walk) = match read_root(blocks, block) {
        Ok(value) => value,
        Err(error) => return Err(error),
    };
    match walk.visit_all(blocks, primary_files, xa_system_use) {
        Ok(_) => {},
        Err(error) => return Err(error),
    }
    let difference: TableDifference = match read_tables(
        blocks,
        size,
        &path_tables,
        &walk.directories,
        Ghost(head),
    ) {
        Ok(value) => value,
        Err(error) => return Err(error),
    };
    let (zero_fill_empty_strings, zero_pad_strings, volume_set_identifier_raw_hex) =
        match joliet_string_padding(block, &root_descriptor) {
            Ok(value) => value,
            Err(error) => return Err(error),
        };
    let ghost plain = root_descriptor@;
    let mut descriptor: PrimaryVolume = root_descriptor;
    descriptor.volume_space_size = None;
    assert(descriptor@ =~= (VolumeModel { volume_space_size: None, ..plain }));
    let JolietWalk { entries, directories } = walk;
    let TableDifference { size: path_table_size, little, big } = difference;
    let parsed = ParsedJoliet {
        volume: JolietVolume {
            level,
            flags: block[7],
            zero_fill_empty_strings,
            zero_pad_strings,
            volume_set_identifier_raw_hex,
            descriptor,
            xa_system_use,
            path_table_size,
            path_table_little_hex: little,
            path_table_big_hex: big,
            file_identifier_odd_bytes_hex: find_odd_bytes(block),
            entries,
        },
        directories,
        path_tables,
    };
    proof {
        let expected = parsed_joliet(blocks@, block@, views(primary_files@))->Ok_0;
        assert(parsed@.volume =~= expected.volume);
        assert(parsed@ =~= expected);
    }
    Ok(parsed)
}

} // verus!
