//! The bytes of directories.
use vstd::prelude::*;

use crate::bytes::{copy_of, fill, filled, put, put_bytes};
use crate::error::{failure, failure_of, Error, ErrorKind, Failure};
use crate::hexcode::{decode, decoded};
use crate::iso9660::description::{DirectorySlack, Entry, EntryModel, SlackModel};
use crate::iso9660::descriptor_write::{make_record_flags, record_flags};
use crate::iso9660::path_table::{DirectoryPlacement, PlacementModel};
use crate::iso9660::record::{
    record_bytes, serialize_directory_record_system_use, serialize_record, system_use_bytes, Record,
    RecordModel,
};
use crate::iso9660::time::{recording_time_bytes, serialize_recording_time};
use crate::iso9660::tree::{is_child, record_start, Node, NodeModel};
use crate::manifest::{DirectoryParentRecordingTime, DirectoryRecordPacking, XaLengthEncoding};
use crate::model::{agrees, opt_view, views, views_push};
use crate::text::{is_root, same_text};

verus! {

/// A file and where it lies.
#[derive(Debug)]
pub struct FilePlacement {
    pub path: String,
    pub extent: u32,
    pub length: u64,
    pub blocks: u32,
}

/// The mathematical form of a [`FilePlacement`].
#[verifier::ext_equal]
pub struct FileModel {
    pub path: Seq<char>,
    pub extent: u32,
    pub length: u64,
    pub blocks: u32,
}

impl View for FilePlacement {
    type V = FileModel;

    open spec fn view(&self) -> FileModel {
        FileModel {
            path: self.path@,
            extent: self.extent,
            length: self.length,
            blocks: self.blocks,
        }
    }
}

/// The length that the record of a file gives.
pub open spec fn recorded_length(entry: EntryModel, file: FileModel) -> Result<u32, Failure> {
    let plain = if file.length > u32::MAX {
        Err(failure(ErrorKind::FileLength))
    } else {
        Ok(file.length as u32)
    };
    match entry.xa {
        None => plain,
        Some(xa) => match xa.logical_length {
            Some(length) => Ok(length),
            None => match xa.length_encoding {
                XaLengthEncoding::Logical2048 => plain,
                XaLengthEncoding::Mode2_2336 => if file.length != file.blocks * 2048 {
                    Err(failure_of(ErrorKind::Mode2LengthPartial, entry.path))
                } else if file.blocks * 2336 > u32::MAX {
                    Err(failure(ErrorKind::Mode2LengthOverflow))
                } else {
                    Ok((file.blocks * 2336) as u32)
                },
            },
        },
    }
}

/// Finds the length that the record of a file gives.
pub fn directory_record_file_length(entry: &Entry, file: &FilePlacement) -> (result: Result<u32, Error>)
    ensures
        agrees(result, recorded_length(entry@, file@)),
{
    match &entry.xa {
        Some(xa) => {
            match xa.logical_length {
                Some(length) => return Ok(length),
                None => {},
            }
            match xa.length_encoding {
                XaLengthEncoding::Logical2048 => {},
                XaLengthEncoding::Mode2_2336 => {
                    if file.length != file.blocks as u64 * 2048 {
                        return Err(
                            Error::of(ErrorKind::Mode2LengthPartial, entry.path.as_str()),
                        );
                    }
                    let length: u64 = file.blocks as u64 * 2336;
                    if length > 0xffff_ffff {
                        return Err(Error::new(ErrorKind::Mode2LengthOverflow));
                    }
                    return Ok(length as u32);
                },
            }
        },
        None => {},
    }
    if file.length > 0xffff_ffff {
        return Err(Error::new(ErrorKind::FileLength));
    }
    Ok(file.length as u32)
}

/// Where a record points: an extent, and a length unless none can be given.
pub struct Spot {
    pub extent: u32,
    pub length: Result<u32, Error>,
}

/// The mathematical form of a [`Spot`].
#[verifier::ext_equal]
pub struct SpotModel {
    pub extent: u32,
    pub length: Result<u32, Failure>,
}

impl View for Spot {
    type V = SpotModel;

    open spec fn view(&self) -> SpotModel {
        SpotModel {
            extent: self.extent,
            length: match self.length {
                Ok(length) => Ok(length),
                Err(error) => Err(error@),
            },
        }
    }
}

/// How the directories of a tree are written.
#[derive(Clone, Copy)]
pub struct TreeOptions {
    pub xa_system_use: bool,
    pub trailing_system_use_padding: bool,
    pub packing: DirectoryRecordPacking,
    pub parent_time: DirectoryParentRecordingTime,
}

/// The record of a node under a given identifier.
pub open spec fn node_record(
    node: NodeModel,
    extent: u32,
    length: u32,
    name: Seq<u8>,
    directory: bool,
    trailing: bool,
    system_use: bool,
) -> Result<Seq<u8>, Failure> {
    match recording_time_bytes(node.recording_time) {
        Err(failure) => Err(failure),
        Ok(time) => match system_use_bytes(node.path, node.xa, directory, system_use) {
            Err(failure) => Err(failure),
            Ok(data) => record_bytes(
                RecordModel {
                    extent,
                    length,
                    recording_time: time,
                    flags: record_flags(directory, node.hidden, node.associated),
                    file_unit_size: 0,
                    interleave_gap_size: 0,
                    volume_sequence_number: 1,
                    name,
                    system_use: data,
                    trailing_system_use_padding: trailing,
                },
            ),
        },
    }
}

/// Makes the record of a node under a given identifier.
pub fn make_record_with_padding(
    node: &Node,
    extent: u32,
    length: u32,
    name: Vec<u8>,
    directory: bool,
    trailing_system_use_padding: bool,
    xa_system_use: bool,
) -> (result: Result<Vec<u8>, Error>)
    ensures
        agrees(
            result,
            node_record(
                node@,
                extent,
                length,
                name@,
                directory,
                trailing_system_use_padding,
                xa_system_use,
            ),
        ),
        result matches Ok(bytes) ==> 34 <= bytes.len() <= 255,
{
    let recording_time: [u8; 7] = match serialize_recording_time(node.recording_time) {
        Ok(time) => time,
        Err(error) => return Err(error),
    };
    let system_use: Vec<u8> = match serialize_directory_record_system_use(
        node.path,
        node.xa,
        directory,
        xa_system_use,
    ) {
        Ok(data) => data,
        Err(error) => return Err(error),
    };
    let record = Record {
        extent,
        length,
        recording_time,
        flags: make_record_flags(directory, node.hidden, node.associated),
        file_unit_size: 0,
        interleave_gap_size: 0,
        volume_sequence_number: 1,
        name,
        system_use,
        trailing_system_use_padding,
    };
    serialize_record(&record)
}

/// The record of a node in the directory that holds it.
pub open spec fn child_record(node: NodeModel, spot: SpotModel, trailing: bool) -> Result<
    Seq<u8>,
    Failure,
> {
    match spot.length {
        Err(failure) => Err(failure),
        Ok(length) => node_record(
            node,
            spot.extent,
            length,
            node.identifier,
            node.directory,
            trailing,
            node.system_use,
        ),
    }
}

/// `made`, and then the records of the nodes from `index` on that lie in the
/// directory.
pub open spec fn child_records_from(
    nodes: Seq<NodeModel>,
    spots: Seq<SpotModel>,
    path: Seq<char>,
    trailing: bool,
    index: int,
    made: Seq<Seq<u8>>,
) -> Result<Seq<Seq<u8>>, Failure>
    decreases nodes.len() - index,
{
    if index < 0 || index >= nodes.len() {
        Ok(made)
    } else if is_child(nodes[index], path) {
        match child_record(nodes[index], spots[index], trailing) {
            Err(failure) => Err(failure),
            Ok(record) => child_records_from(
                nodes,
                spots,
                path,
                trailing,
                index + 1,
                made.push(record),
            ),
        }
    } else {
        child_records_from(nodes, spots, path, trailing, index + 1, made)
    }
}

/// The record of the directory above, with the time that the options say.
pub open spec fn parent_record(
    nodes: Seq<NodeModel>,
    directory: PlacementModel,
    parent: PlacementModel,
    options: TreeOptions,
) -> Result<Seq<u8>, Failure> {
    match node_record(
        nodes[parent.entry],
        parent.extent,
        parent.length,
        seq![1u8],
        true,
        options.trailing_system_use_padding,
        options.xa_system_use,
    ) {
        Err(failure) => Err(failure),
        Ok(record) => if options.parent_time == DirectoryParentRecordingTime::Current {
            match recording_time_bytes(nodes[directory.entry].recording_time) {
                Err(failure) => Err(failure),
                Ok(time) => Ok(put(record, 18, time)),
            }
        } else {
            Ok(record)
        },
    }
}

/// The records of a directory: itself, the one above, and what lies in it.
pub open spec fn directory_records(
    nodes: Seq<NodeModel>,
    spots: Seq<SpotModel>,
    directory: PlacementModel,
    parent: PlacementModel,
    options: TreeOptions,
) -> Result<Seq<Seq<u8>>, Failure> {
    match node_record(
        nodes[directory.entry],
        directory.extent,
        directory.length,
        seq![0u8],
        true,
        options.trailing_system_use_padding,
        options.xa_system_use,
    ) {
        Err(failure) => Err(failure),
        Ok(own) => match parent_record(nodes, directory, parent, options) {
            Err(failure) => Err(failure),
            Ok(above) => child_records_from(
                nodes,
                spots,
                directory.path,
                options.trailing_system_use_padding,
                0,
                seq![own, above],
            ),
        },
    }
}

fn single(byte: u8) -> (bytes: Vec<u8>)
    ensures
        bytes@ == seq![byte],
{
    let mut bytes: Vec<u8> = Vec::new();
    bytes.push(byte);
    assert(bytes@ =~= seq![byte]);
    bytes
}

fn make_parent_record(
    nodes: &Vec<Node>,
    directory: &DirectoryPlacement,
    parent: &DirectoryPlacement,
    options: TreeOptions,
) -> (result: Result<Vec<u8>, Error>)
    requires
        directory.entry < nodes.len(),
        parent.entry < nodes.len(),
    ensures
        agrees(result, parent_record(views(nodes@), directory@, parent@, options)),
{
    assert(views(nodes@)[parent.entry as int] == nodes@[parent.entry as int]@);
    assert(views(nodes@)[directory.entry as int] == nodes@[directory.entry as int]@);
    let mut record: Vec<u8> = match make_record_with_padding(
        &nodes[parent.entry],
        parent.extent,
        parent.length,
        single(1),
        true,
        options.trailing_system_use_padding,
        options.xa_system_use,
    ) {
        Ok(record) => record,
        Err(error) => return Err(error),
    };
    if options.parent_time == DirectoryParentRecordingTime::Current {
        match serialize_recording_time(nodes[directory.entry].recording_time) {
            Ok(time) => {
                put_bytes(&mut record, 18, time.as_slice());
            },
            Err(error) => return Err(error),
        }
    }
    Ok(record)
}

/// Makes the records of a directory.
pub fn make_directory_records(
    nodes: &Vec<Node>,
    spots: &Vec<Spot>,
    directory: &DirectoryPlacement,
    parent: &DirectoryPlacement,
    options: TreeOptions,
) -> (result: Result<Vec<Vec<u8>>, Error>)
    requires
        directory.entry < nodes.len(),
        parent.entry < nodes.len(),
        spots.len() == nodes.len(),
    ensures
        match (
            result,
            directory_records(views(nodes@), views(spots@), directory@, parent@, options),
        ) {
            (Ok(records), Ok(expected)) => views(records@) == expected,
            (Err(error), Err(failure)) => error@ == failure,
            _ => false,
        },
{
    let ghost model = views(nodes@);
    let ghost places = views(spots@);
    assert(model[directory.entry as int] == nodes@[directory.entry as int]@);
    let trailing: bool = options.trailing_system_use_padding;
    let own: Vec<u8> = match make_record_with_padding(
        &nodes[directory.entry],
        directory.extent,
        directory.length,
        single(0),
        true,
        trailing,
        options.xa_system_use,
    ) {
        Ok(record) => record,
        Err(error) => return Err(error),
    };
    let above: Vec<u8> = match make_parent_record(nodes, directory, parent, options) {
        Ok(record) => record,
        Err(error) => return Err(error),
    };
    let ghost first = seq![own@, above@];
    let mut records: Vec<Vec<u8>> = Vec::new();
    records.push(own);
    records.push(above);
    assert(views(records@) =~= first);
    let ghost expected = child_records_from(model, places, directory.path@, trailing, 0, first);
    let mut i: usize = 0;
    while i < nodes.len()
        invariant
            i <= nodes.len(),
            spots.len() == nodes.len(),
            model == views(nodes@),
            places == views(spots@),
            expected == child_records_from(
                model,
                places,
                directory.path@,
                trailing,
                i as int,
                views(records@),
            ),
            directory_records(model, places, directory@, parent@, options) == expected,
        decreases nodes.len() - i,
    {
        let node: &Node = &nodes[i];
        let spot: &Spot = &spots[i];
        assert(model[i as int] == node@);
        assert(places[i as int] == spot@);
        if !is_root(node.path) && same_text(node.parent.as_str(), directory.path.as_str()) {
            let length: u32 = match &spot.length {
                Ok(length) => *length,
                Err(error) => return Err(error.copy()),
            };
            let name: Vec<u8> = copy_of(
                node.identifier.as_slice(),
                0,
                node.identifier.len(),
            );
            assert(name@ =~= node.identifier@);
            match make_record_with_padding(
                node,
                spot.extent,
                length,
                name,
                node.directory,
                trailing,
                node.system_use,
            ) {
                Ok(record) => {
                    proof {
                        views_push(records@, record);
                    }
                    records.push(record);
                },
                Err(error) => return Err(error),
            }
        }
        i = i + 1;
    }
    Ok(records)
}

/// `written` with the records from `index` on put in from `offset` on, and where
/// they end.
pub open spec fn pack_records_from(
    records: Seq<Seq<u8>>,
    index: int,
    offset: int,
    written: Seq<u8>,
    packing: DirectoryRecordPacking,
) -> (Seq<u8>, int)
    decreases records.len() - index,
{
    if index < 0 || index >= records.len() {
        (written, offset)
    } else {
        let record = records[index];
        let start = record_start(offset, record.len() as int, packing);
        pack_records_from(
            records,
            index + 1,
            start + record.len(),
            put(written, start, record),
            packing,
        )
    }
}

/// Writes what fits of `data` over `bytes` at `offset`.
pub fn put_fitting(bytes: &mut Vec<u8>, offset: u64, data: &[u8])
    ensures
        final(bytes)@ == put(old(bytes)@, offset as int, data@),
{
    let size: usize = bytes.len();
    let mut i: usize = 0;
    while i < data.len() && offset < size as u64 && i < size - offset as usize
        invariant
            i <= data.len(),
            size == old(bytes).len(),
            bytes@ == put(old(bytes)@, offset as int, data@.take(i as int)),
        decreases data.len() - i,
    {
        bytes.set(offset as usize + i, data[i]);
        i = i + 1;
        assert(bytes@ =~= put(old(bytes)@, offset as int, data@.take(i as int)));
    }
    assert(bytes@ =~= put(old(bytes)@, offset as int, data@));
}

fn pack_records(records: &Vec<Vec<u8>>, size: usize, packing: DirectoryRecordPacking) -> (result: Option<
    (Vec<u8>, u64),
>)
    ensures
        ({
            let expected = pack_records_from(
                views(records@),
                0,
                0,
                fill(size as nat, 0),
                packing,
            );
            match result {
                Some(packed) => packed.0@ == expected.0 && packed.1 == expected.1 && packed.1
                    <= u32::MAX,
                None => expected.1 > u32::MAX,
            }
        }),
{
    let ghost model = views(records@);
    let mut written: Vec<u8> = filled(size, 0);
    let ghost expected = pack_records_from(model, 0, 0, written@, packing);
    let mut offset: u64 = 0;
    let mut i: usize = 0;
    while i < records.len()
        invariant
            i <= records.len(),
            model == views(records@),
            offset <= u32::MAX,
            expected == pack_records_from(model, 0, 0, fill(size as nat, 0), packing),
            expected == pack_records_from(model, i as int, offset as int, written@, packing),
        decreases records.len() - i,
    {
        let record: &Vec<u8> = &records[i];
        assert(model[i as int] == record@);
        let length: usize = record.len();
        proof {
            let start = record_start(offset as int, length as int, packing);
            pack_records_grow(
                model,
                i + 1,
                start + length,
                put(written@, start, record@),
                packing,
            );
        }
        if length > 0xffff_ffff {
            return None;
        }
        let in_block: u64 = offset % 2048;
        let mut start: u64 = offset;
        if in_block + length as u64 > 2048 || (in_block + length as u64 == 2048 && packing
            == DirectoryRecordPacking::AvoidExactFit) {
            start = offset + (2048 - in_block);
        }
        put_fitting(&mut written, start, record.as_slice());
        if start + length as u64 > 0xffff_ffff {
            return None;
        }
        offset = start + length as u64;
        i = i + 1;
    }
    Some((written, offset))
}

/// Records end no earlier than where they start.
pub proof fn pack_records_grow(
    records: Seq<Seq<u8>>,
    index: int,
    offset: int,
    written: Seq<u8>,
    packing: DirectoryRecordPacking,
)
    requires
        offset >= 0,
    ensures
        pack_records_from(records, index, offset, written, packing).1 >= offset,
    decreases records.len() - index,
{
    if 0 <= index < records.len() {
        let record = records[index];
        let start = record_start(offset, record.len() as int, packing);
        pack_records_grow(
            records,
            index + 1,
            start + record.len(),
            put(written, start, record),
            packing,
        );
    }
}

/// A directory with the bytes that follow its records.
pub open spec fn with_slack(
    written: Seq<u8>,
    end: int,
    slack: Option<SlackModel>,
    path: Seq<char>,
    length: u32,
) -> Result<Seq<u8>, Failure> {
    match slack {
        None => Ok(written),
        Some(slack) => match decoded(slack.hex, ErrorKind::SlackHex, path) {
            Err(failure) => Err(failure),
            Ok(data) => if data.len() == 0 {
                Err(failure_of(ErrorKind::SlackEmpty, path))
            } else if slack.offset < end {
                Err(failure_of(ErrorKind::SlackOverlap, path))
            } else if slack.offset + data.len() > length {
                Err(failure_of(ErrorKind::SlackBeyond, path))
            } else {
                Ok(put(written, slack.offset as int, data))
            },
        },
    }
}

fn add_slack(
    written: &mut Vec<u8>,
    end: u64,
    slack: &Option<DirectorySlack>,
    path: &str,
    length: u32,
) -> (result: Result<(), Error>)
    ensures
        match (result, with_slack(old(written)@, end as int, opt_view(*slack), path@, length)) {
            (Ok(_), Ok(expected)) => final(written)@ == expected,
            (Err(error), Err(failure)) => error@ == failure,
            _ => false,
        },
{
    match slack {
        None => Ok(()),
        Some(slack) => match decode(slack.hex.as_str(), ErrorKind::SlackHex, path) {
            Err(error) => Err(error),
            Ok(data) => {
                if data.len() == 0 {
                    return Err(Error::of(ErrorKind::SlackEmpty, path));
                }
                if (slack.offset as u64) < end {
                    return Err(Error::of(ErrorKind::SlackOverlap, path));
                }
                if data.len() > 0xffff_ffff || slack.offset as u64 + data.len() as u64
                    > length as u64 {
                    return Err(Error::of(ErrorKind::SlackBeyond, path));
                }
                put_fitting(written, slack.offset as u64, data.as_slice());
                Ok(())
            },
        },
    }
}

/// The records of a directory fit its blocks.
pub open spec fn has_room(
    nodes: Seq<NodeModel>,
    spots: Seq<SpotModel>,
    directory: PlacementModel,
    parent: PlacementModel,
    options: TreeOptions,
) -> bool {
    directory_records(nodes, spots, directory, parent, options) matches Ok(records)
        ==> pack_records_from(
        records,
        0,
        0,
        fill((directory.blocks * 2048) as nat, 0),
        options.packing,
    ).1 <= directory.blocks * 2048
}

/// The bytes of a directory's blocks.
pub open spec fn directory_bytes(
    nodes: Seq<NodeModel>,
    spots: Seq<SpotModel>,
    directory: PlacementModel,
    parent: PlacementModel,
    slack: Option<SlackModel>,
    options: TreeOptions,
) -> Result<Seq<u8>, Failure> {
    match directory_records(nodes, spots, directory, parent, options) {
        Err(failure) => Err(failure),
        Ok(records) => {
            let (written, end) = pack_records_from(
                records,
                0,
                0,
                fill((directory.blocks * 2048) as nat, 0),
                options.packing,
            );
            if directory.blocks * 2048 > usize::MAX || end > u32::MAX {
                Err(failure(ErrorKind::IntegerConversion))
            } else {
                with_slack(
                    written,
                    end,
                    slack,
                    nodes[directory.entry].path,
                    directory.length,
                )
            }
        },
    }
}

/// Writes a directory: its records, packed into its blocks, and its slack.
pub fn serialize_directory(
    nodes: &Vec<Node>,
    spots: &Vec<Spot>,
    directory: &DirectoryPlacement,
    parent: &DirectoryPlacement,
    slack: &Option<DirectorySlack>,
    options: TreeOptions,
) -> (result: Result<Vec<u8>, Error>)
    requires
        directory.entry < nodes.len(),
        parent.entry < nodes.len(),
        spots.len() == nodes.len(),
        has_room(views(nodes@), views(spots@), directory@, parent@, options),
    ensures
        agrees(
            result,
            directory_bytes(
                views(nodes@),
                views(spots@),
                directory@,
                parent@,
                opt_view(*slack),
                options,
            ),
        ),
{
    assert(views(nodes@)[directory.entry as int] == nodes@[directory.entry as int]@);
    let records: Vec<Vec<u8>> = match make_directory_records(
        nodes,
        spots,
        directory,
        parent,
        options,
    ) {
        Ok(records) => records,
        Err(error) => return Err(error),
    };
    if directory.blocks as u64 * 2048 > usize::MAX as u64 {
        return Err(Error::new(ErrorKind::IntegerConversion));
    }
    let size: usize = directory.blocks as usize * 2048;
    match pack_records(&records, size, options.packing) {
        None => Err(Error::new(ErrorKind::IntegerConversion)),
        Some((packed, end)) => {
            let mut written: Vec<u8> = packed;
            match add_slack(
                &mut written,
                end,
                slack,
                nodes[directory.entry].path,
                directory.length,
            ) {
                Ok(_) => Ok(written),
                Err(error) => Err(error),
            }
        },
    }
}

/// Writes a directory of the Joliet tree, which has no slack.
pub fn serialize_joliet_directory(
    nodes: &Vec<Node>,
    spots: &Vec<Spot>,
    directory: &DirectoryPlacement,
    parent: &DirectoryPlacement,
    options: TreeOptions,
) -> (result: Result<Vec<u8>, Error>)
    requires
        directory.entry < nodes.len(),
        parent.entry < nodes.len(),
        spots.len() == nodes.len(),
        has_room(views(nodes@), views(spots@), directory@, parent@, options),
    ensures
        agrees(
            result,
            directory_bytes(
                views(nodes@),
                views(spots@),
                directory@,
                parent@,
                None,
                options,
            ),
        ),
{
    serialize_directory(nodes, spots, directory, parent, &None, options)
}

} // verus!
