//! Path tables: every directory of a volume, in one list.
use vstd::prelude::*;

use crate::bytes::{
    append_bytes, be16, be16_bytes, be32, be32_bytes, copy_of, field, from_be16, from_be32,
    from_le16, from_le32, le16, le16_bytes, le32, le32_bytes, read_be16, read_be32, read_le16,
    read_le32, same_bytes,
};
use crate::error::{failure, failure_of, Error, ErrorKind, Failure};
use crate::iso9660::description::{DirectoryReference, Entry, EntryModel};
use crate::model::{accepts, agrees, both, ceil_div, views, views_push};
use crate::raw_cd::Block;
use crate::text::same_text;

verus! {

/// A directory and where it lies.
#[derive(Debug)]
pub struct DirectoryPlacement {
    pub path: String,
    /// The identifier, as the path table writes it.
    pub name: Vec<u8>,
    /// The index of the directory that holds this one; the root holds itself.
    pub parent: usize,
    /// The index of the entry that describes the directory.
    pub entry: usize,
    pub extent: u32,
    pub blocks: u32,
    pub length: u32,
}

/// The mathematical form of a [`DirectoryPlacement`].
#[verifier::ext_equal]
pub struct PlacementModel {
    pub path: Seq<char>,
    pub name: Seq<u8>,
    pub parent: int,
    pub entry: int,
    pub extent: u32,
    pub blocks: u32,
    pub length: u32,
}

impl View for DirectoryPlacement {
    type V = PlacementModel;

    open spec fn view(&self) -> PlacementModel {
        PlacementModel {
            path: self.path@,
            name: self.name@,
            parent: self.parent as int,
            entry: self.entry as int,
            extent: self.extent,
            blocks: self.blocks,
            length: self.length,
        }
    }
}

/// One zero byte after an identifier of odd length.
pub open spec fn odd_padding(length: int) -> Seq<u8> {
    if length % 2 == 1 {
        seq![0u8]
    } else {
        Seq::empty()
    }
}

/// The record of a directory in a path table.
pub open spec fn path_record(directory: PlacementModel, big: bool) -> Result<Seq<u8>, Failure> {
    let name = directory.name;
    if name.len() > 255 || directory.parent + 1 > 0xffff {
        Err(failure(ErrorKind::IntegerConversion))
    } else {
        Ok(
            seq![name.len() as u8, 0u8] + (if big {
                be32(directory.extent) + be16((directory.parent + 1) as u16)
            } else {
                le32(directory.extent) + le16((directory.parent + 1) as u16)
            }) + name + odd_padding(name.len() as int),
        )
    }
}

/// `written`, and then the records of the directories from `index` on.
pub open spec fn path_table_from(
    directories: Seq<PlacementModel>,
    index: int,
    written: Seq<u8>,
    big: bool,
) -> Result<Seq<u8>, Failure>
    decreases directories.len() - index,
{
    if index < 0 || index >= directories.len() {
        Ok(written)
    } else {
        match path_record(directories[index], big) {
            Ok(record) => path_table_from(directories, index + 1, written + record, big),
            Err(failure) => Err(failure),
        }
    }
}

/// A path table: the records of all directories.
pub open spec fn path_table(directories: Seq<PlacementModel>, big: bool) -> Result<Seq<u8>, Failure> {
    path_table_from(directories, 0, Seq::empty(), big)
}

fn serialize_path_record(directory: &DirectoryPlacement, big: bool) -> (result: Result<Vec<u8>, Error>)
    ensures
        agrees(result, path_record(directory@, big)),
{
    if directory.name.len() > 255 || directory.parent >= 0xffff {
        return Err(Error::new(ErrorKind::IntegerConversion));
    }
    let parent: u16 = (directory.parent + 1) as u16;
    let head: [u8; 2] = [directory.name.len() as u8, 0u8];
    let mut record: Vec<u8> = Vec::new();
    append_bytes(&mut record, head.as_slice());
    if big {
        append_bytes(&mut record, be32_bytes(directory.extent).as_slice());
        append_bytes(&mut record, be16_bytes(parent).as_slice());
    } else {
        append_bytes(&mut record, le32_bytes(directory.extent).as_slice());
        append_bytes(&mut record, le16_bytes(parent).as_slice());
    }
    append_bytes(&mut record, directory.name.as_slice());
    if directory.name.len() % 2 == 1 {
        record.push(0);
    }
    proof {
        assert(head@ =~= seq![directory.name@.len() as u8, 0u8]);
        assert(record@ =~= path_record(directory@, big)->Ok_0);
    }
    Ok(record)
}

/// Writes a path table.
pub fn serialize_path_table(directories: &Vec<DirectoryPlacement>, big: bool) -> (result: Result<
    Vec<u8>,
    Error,
>)
    ensures
        agrees(result, path_table(views(directories@), big)),
{
    let mut written: Vec<u8> = Vec::new();
    let mut i: usize = 0;
    let ghost model = views(directories@);
    while i < directories.len()
        invariant
            i <= directories.len(),
            model == views(directories@),
            path_table(model, big) == path_table_from(model, i as int, written@, big),
        decreases directories.len() - i,
    {
        match serialize_path_record(&directories[i], big) {
            Ok(record) => {
                append_bytes(&mut written, record.as_slice());
            },
            Err(error) => return Err(error),
        }
        i = i + 1;
    }
    Ok(written)
}

/// The bytes of an extent.
pub open spec fn extent_bytes(blocks: Seq<Block>, extent: int, size: int) -> Seq<u8> {
    Seq::new(size as nat, |k: int| blocks[extent + k / 2048]@[k % 2048])
}

/// The extent lies within the image.
pub open spec fn extent_inside(blocks: Seq<Block>, extent: int, size: int) -> bool {
    0 <= extent && extent + ceil_div(size, 2048) <= blocks.len()
}

/// Reads the bytes of an extent that lies within the image.
pub fn read_extent(blocks: &[Block], extent: u32, size: u32) -> (result: Vec<u8>)
    requires
        extent_inside(blocks@, extent as int, size as int),
    ensures
        result@ == extent_bytes(blocks@, extent as int, size as int),
{
    let total: usize = blocks.len();
    let mut result: Vec<u8> = Vec::new();
    let mut k: u32 = 0;
    while k < size
        invariant
            k <= size,
            total == blocks@.len(),
            extent_inside(blocks@, extent as int, size as int),
            result@ == extent_bytes(blocks@, extent as int, k as int),
        decreases size - k,
    {
        assert(extent + k / 2048 < blocks@.len()) by {
            assert(k / 2048 < (size + 2047) / 2048);
        }
        let block: usize = extent as usize + (k / 2048) as usize;
        let byte: usize = (k % 2048) as usize;
        result.push(blocks[block][byte]);
        k = k + 1;
        assert(result@ =~= extent_bytes(blocks@, extent as int, k as int));
    }
    result
}

/// Reads a path table that lies within the image.
pub fn read_path_table(blocks: &[Block], extent: u32, size: u32) -> (result: Vec<u8>)
    requires
        extent_inside(blocks@, extent as int, size as int),
    ensures
        result@ == extent_bytes(blocks@, extent as int, size as int),
{
    read_extent(blocks, extent, size)
}

/// A record of a path table.
#[derive(Debug)]
pub struct PathTableRecord {
    pub extent: u32,
    pub parent: u16,
    pub name: Vec<u8>,
}

/// The mathematical form of a [`PathTableRecord`].
#[verifier::ext_equal]
pub struct PathRecordModel {
    pub extent: u32,
    pub parent: u16,
    pub name: Seq<u8>,
}

impl View for PathTableRecord {
    type V = PathRecordModel;

    open spec fn view(&self) -> PathRecordModel {
        PathRecordModel { extent: self.extent, parent: self.parent, name: self.name@ }
    }
}

/// The size of a path table record.
pub open spec fn path_record_size(name_length: int) -> int {
    8 + name_length + name_length % 2
}

/// The path table record that stands at `offset`.
pub open spec fn parsed_path_record(bytes: Seq<u8>, offset: int, big: bool) -> Result<
    PathRecordModel,
    Failure,
> {
    let name_length = bytes[offset] as int;
    if offset + 8 > bytes.len() {
        Err(failure(ErrorKind::PathRecordTruncated))
    } else if name_length == 0 {
        Err(failure(ErrorKind::PathRecordEmpty))
    } else if offset + path_record_size(name_length) > bytes.len() {
        Err(failure(ErrorKind::PathRecordIdentifierTruncated))
    } else {
        Ok(
            PathRecordModel {
                extent: if big {
                    from_be32(field(bytes, offset + 2, 4))
                } else {
                    from_le32(field(bytes, offset + 2, 4))
                },
                parent: if big {
                    from_be16(field(bytes, offset + 6, 2))
                } else {
                    from_le16(field(bytes, offset + 6, 2))
                },
                name: field(bytes, offset + 8, name_length),
            },
        )
    }
}

/// `read`, and then the records that stand from `offset` on.
pub open spec fn parsed_path_table_from(
    bytes: Seq<u8>,
    offset: int,
    read: Seq<PathRecordModel>,
    big: bool,
) -> Result<Seq<PathRecordModel>, Failure>
    decreases bytes.len() - offset,
{
    if offset < 0 || offset >= bytes.len() {
        Ok(read)
    } else {
        match parsed_path_record(bytes, offset, big) {
            Ok(record) => parsed_path_table_from(
                bytes,
                offset + path_record_size(record.name.len() as int),
                read.push(record),
                big,
            ),
            Err(failure) => Err(failure),
        }
    }
}

/// The records of a path table.
pub open spec fn parsed_path_table(bytes: Seq<u8>, big: bool) -> Result<Seq<PathRecordModel>, Failure> {
    parsed_path_table_from(bytes, 0, Seq::empty(), big)
}

fn parse_path_record(bytes: &[u8], offset: usize, big: bool) -> (result: Result<PathTableRecord, Error>)
    requires
        offset < bytes.len(),
    ensures
        agrees(result, parsed_path_record(bytes@, offset as int, big)),
{
    if bytes.len() - offset < 8 {
        return Err(Error::new(ErrorKind::PathRecordTruncated));
    }
    let name_length: usize = bytes[offset] as usize;
    if name_length == 0 {
        return Err(Error::new(ErrorKind::PathRecordEmpty));
    }
    let size: usize = 8 + name_length + name_length % 2;
    if bytes.len() - offset < size {
        return Err(Error::new(ErrorKind::PathRecordIdentifierTruncated));
    }
    let record = PathTableRecord {
        extent: if big {
            read_be32(bytes, offset + 2)
        } else {
            read_le32(bytes, offset + 2)
        },
        parent: if big {
            read_be16(bytes, offset + 6)
        } else {
            read_le16(bytes, offset + 6)
        },
        name: copy_of(bytes, offset + 8, name_length),
    };
    Ok(record)
}

/// Reads the records of a path table.
pub fn parse_path_table_records(bytes: &[u8], big: bool) -> (result: Result<Vec<PathTableRecord>, Error>)
    ensures
        match (result, parsed_path_table(bytes@, big)) {
            (Ok(records), Ok(expected)) => views(records@) == expected,
            (Err(error), Err(failure)) => error@ == failure,
            _ => false,
        },
{
    let mut records: Vec<PathTableRecord> = Vec::new();
    let mut offset: usize = 0;
    assert(views(records@) =~= Seq::<PathRecordModel>::empty());
    while offset < bytes.len()
        invariant
            offset <= bytes.len(),
            parsed_path_table(bytes@, big) == parsed_path_table_from(
                bytes@,
                offset as int,
                views(records@),
                big,
            ),
        decreases bytes.len() - offset,
    {
        match parse_path_record(bytes, offset, big) {
            Ok(record) => {
                let length: usize = record.name.len();
                proof {
                    views_push(records@, record);
                }
                records.push(record);
                offset = offset + 8 + length + length % 2;
            },
            Err(error) => return Err(error),
        }
    }
    Ok(records)
}

/// The index of the first directory with a path, from `index` on; the number of
/// directories if there is none.
pub open spec fn find_directory_from(directories: Seq<PlacementModel>, path: Seq<char>, index: int) -> int
    decreases directories.len() - index,
{
    if index < 0 || index >= directories.len() {
        directories.len() as int
    } else if directories[index].path == path {
        index
    } else {
        find_directory_from(directories, path, index + 1)
    }
}

/// The index of the first directory with a path, or the number of directories.
pub open spec fn find_directory(directories: Seq<PlacementModel>, path: Seq<char>) -> int {
    find_directory_from(directories, path, 0)
}

/// Finds the first directory with a path.
pub fn directory_position(directories: &Vec<DirectoryPlacement>, path: &str) -> (index: usize)
    ensures
        index == find_directory(views(directories@), path@),
        index <= directories.len(),
{
    let ghost model = views(directories@);
    let mut index: usize = 0;
    while index < directories.len()
        invariant
            index <= directories.len(),
            model == views(directories@),
            find_directory(model, path@) == find_directory_from(model, path@, index as int),
        decreases directories.len() - index,
    {
        if same_text(directories[index].path.as_str(), path) {
            return index;
        }
        index = index + 1;
    }
    index
}

/// Some record other than the one at `index` names it as its parent.
pub open spec fn has_children(records: Seq<PathRecordModel>, index: int) -> bool {
    exists|child: int|
        0 <= child < records.len() && child != index && #[trigger] records[child].parent == index + 1
}

fn any_children(records: &Vec<PathTableRecord>, index: usize) -> (found: bool)
    requires
        index < usize::MAX,
    ensures
        found == has_children(views(records@), index as int),
{
    let ghost model = views(records@);
    let mut child: usize = 0;
    while child < records.len()
        invariant
            child <= records.len(),
            index < usize::MAX,
            model == views(records@),
            forall|c: int|
                0 <= c < child && c != index ==> #[trigger] model[c].parent != index + 1,
        decreases records.len() - child,
    {
        if child != index && records[child].parent as usize == index + 1 {
            assert(model[child as int].parent == index + 1);
            return true;
        }
        child = child + 1;
    }
    false
}

/// A path table agrees with a reference to the directory at `index`.
pub open spec fn reference_in_table(
    path: Seq<char>,
    reference: DirectoryReference,
    directory: PlacementModel,
    index: int,
    records: Seq<PathRecordModel>,
) -> Result<(), Failure> {
    if index >= records.len() {
        Err(failure_of(ErrorKind::ReferenceNotInTable, path))
    } else if !(records[index].extent == reference.extent && records[index].parent == directory.parent
        + 1 && records[index].name == directory.name) {
        Err(failure_of(ErrorKind::ReferenceDisagrees, path))
    } else if has_children(records, index) {
        Err(failure_of(ErrorKind::ReferenceHasChildren, path))
    } else {
        Ok(())
    }
}

fn check_reference_in_table(
    path: &str,
    reference: DirectoryReference,
    directory: &DirectoryPlacement,
    index: usize,
    records: &Vec<PathTableRecord>,
) -> (result: Result<(), Error>)
    requires
        directory.parent < 0xffff,
    ensures
        accepts(
            result,
            reference_in_table(path@, reference, directory@, index as int, views(records@)),
        ),
{
    if index >= records.len() {
        return Err(Error::of(ErrorKind::ReferenceNotInTable, path));
    }
    let record: &PathTableRecord = &records[index];
    assert(views(records@)[index as int] == record@);
    if !(record.extent == reference.extent && record.parent as usize == directory.parent + 1
        && same_bytes(record.name.as_slice(), directory.name.as_slice())) {
        return Err(Error::of(ErrorKind::ReferenceDisagrees, path));
    }
    if any_children(records, index) {
        return Err(Error::of(ErrorKind::ReferenceHasChildren, path));
    }
    Ok(())
}

/// Both path tables agree with one reference.
pub open spec fn reference_check(
    path: Seq<char>,
    reference: DirectoryReference,
    directories: Seq<PlacementModel>,
    little: Seq<PathRecordModel>,
    big: Seq<PathRecordModel>,
) -> Result<(), Failure> {
    let index = find_directory(directories, path);
    if index >= directories.len() {
        Err(failure_of(ErrorKind::ReferenceNotPlaced, path))
    } else if directories[index].parent + 1 > 0xffff {
        Err(failure(ErrorKind::IntegerConversion))
    } else {
        both(
            reference_in_table(path, reference, directories[index], index, little),
            reference_in_table(path, reference, directories[index], index, big),
        )
    }
}

/// Both path tables agree with the references of the entries from `index` on.
pub open spec fn references_check_from(
    entries: Seq<EntryModel>,
    index: int,
    directories: Seq<PlacementModel>,
    little: Seq<PathRecordModel>,
    big: Seq<PathRecordModel>,
) -> Result<(), Failure>
    decreases entries.len() - index,
{
    if index < 0 || index >= entries.len() {
        Ok(())
    } else {
        both(
            match entries[index].directory_reference {
                Some(reference) => reference_check(
                    entries[index].path,
                    reference,
                    directories,
                    little,
                    big,
                ),
                None => Ok(()),
            },
            references_check_from(entries, index + 1, directories, little, big),
        )
    }
}

/// Some entry is a reference to a directory.
pub open spec fn has_references(entries: Seq<EntryModel>) -> bool {
    exists|i: int| 0 <= i < entries.len() && (#[trigger] entries[i]).directory_reference is Some
}

/// Both path tables agree with every reference to a directory.
pub open spec fn references_check(
    entries: Seq<EntryModel>,
    directories: Seq<PlacementModel>,
    little: Seq<u8>,
    big: Seq<u8>,
) -> Result<(), Failure> {
    if !has_references(entries) {
        Ok(())
    } else {
        match (parsed_path_table(little, false), parsed_path_table(big, true)) {
            (Err(failure), _) => Err(failure),
            (_, Err(failure)) => Err(failure),
            (Ok(little), Ok(big)) => references_check_from(entries, 0, directories, little, big),
        }
    }
}

fn any_references(entries: &Vec<Entry>) -> (found: bool)
    ensures
        found == has_references(views(entries@)),
{
    let ghost model = views(entries@);
    let mut i: usize = 0;
    while i < entries.len()
        invariant
            i <= entries.len(),
            model == views(entries@),
            forall|j: int| 0 <= j < i ==> (#[trigger] model[j]).directory_reference is None,
        decreases entries.len() - i,
    {
        if entries[i].directory_reference.is_some() {
            assert(model[i as int].directory_reference is Some);
            return true;
        }
        i = i + 1;
    }
    false
}

/// Checks that the path tables agree with every reference to a directory.
pub fn validate_directory_reference_path_tables(
    entries: &Vec<Entry>,
    directories: &Vec<DirectoryPlacement>,
    little: &[u8],
    big: &[u8],
) -> (result: Result<(), Error>)
    ensures
        accepts(
            result,
            references_check(views(entries@), views(directories@), little@, big@),
        ),
{
    if !any_references(entries) {
        return Ok(());
    }
    let little_records: Vec<PathTableRecord> = match parse_path_table_records(little, false) {
        Ok(records) => records,
        Err(error) => return Err(error),
    };
    let big_records: Vec<PathTableRecord> = match parse_path_table_records(big, true) {
        Ok(records) => records,
        Err(error) => return Err(error),
    };
    let ghost model = views(entries@);
    let ghost placed = views(directories@);
    let ghost first = views(little_records@);
    let ghost second = views(big_records@);
    let mut i: usize = 0;
    while i < entries.len()
        invariant
            i <= entries.len(),
            model == views(entries@),
            placed == views(directories@),
            first == views(little_records@),
            second == views(big_records@),
            references_check(model, placed, little@, big@) == references_check_from(
                model,
                0,
                placed,
                first,
                second,
            ),
            references_check_from(model, 0, placed, first, second) == references_check_from(
                model,
                i as int,
                placed,
                first,
                second,
            ),
        decreases entries.len() - i,
    {
        let entry: &Entry = &entries[i];
        assert(model[i as int] == entry@);
        match entry.directory_reference {
            Some(reference) => {
                let path: &str = entry.path.as_str();
                let index: usize = directory_position(directories, path);
                if index >= directories.len() {
                    return Err(Error::of(ErrorKind::ReferenceNotPlaced, path));
                }
                let directory: &DirectoryPlacement = &directories[index];
                assert(placed[index as int] == directory@);
                if directory.parent >= 0xffff {
                    return Err(Error::new(ErrorKind::IntegerConversion));
                }
                match check_reference_in_table(path, reference, directory, index, &little_records) {
                    Ok(_) => {},
                    Err(error) => return Err(error),
                }
                match check_reference_in_table(path, reference, directory, index, &big_records) {
                    Ok(_) => {},
                    Err(error) => return Err(error),
                }
            },
            None => {},
        }
        i = i + 1;
    }
    Ok(())
}

} // verus!
