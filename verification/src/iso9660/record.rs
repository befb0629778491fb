//! Directory records and the XA data that they carry.
use vstd::prelude::*;
use vstd::slice::slice_subrange;

use crate::bytes::{append_bytes, be16, be16_bytes, copy_of, field, from_be16, read_be16};
use crate::error::{failure, failure_of, Error, ErrorKind, Failure};
use crate::iso9660::description::{EntryXa, EntryXaModel};
use crate::iso9660::fields::{
    both16, both16_bytes, both32, both32_bytes, read_both16, read_both32, read_both_u16,
    read_both_u32,
};
use crate::manifest::{XaAttributeFlag, XaAttributes, XaLengthEncoding, DEFAULT_XA_PERMISSIONS};
use crate::model::{accepts, agrees, both, opt_view};

verus! {

/// The record's entry is hidden.
pub const HIDDEN_FLAG: u8 = 1;

/// The record's entry is a directory.
pub const DIRECTORY_FLAG: u8 = 2;

/// The record's entry is an associated file.
pub const ASSOCIATED_FLAG: u8 = 4;

/// The size of XA system-use data.
pub const XA_SYSTEM_USE_SIZE: usize = 14;

/// The attribute bits of the XA attribute field; the others are permissions.
pub const XA_ATTRIBUTE_MASK: u16 = 0xf800;

/// The permission bits of the XA attribute field.
pub const XA_PERMISSION_MASK: u16 = 0x07ff;

/// A directory record.
#[derive(Clone, Debug)]
pub struct Record {
    pub extent: u32,
    pub length: u32,
    pub recording_time: [u8; 7],
    pub flags: u8,
    pub file_unit_size: u8,
    pub interleave_gap_size: u8,
    pub volume_sequence_number: u16,
    pub name: Vec<u8>,
    pub system_use: Vec<u8>,
    /// The padding byte of an even identifier stands after the system-use data.
    pub trailing_system_use_padding: bool,
}

/// The mathematical form of a [`Record`].
#[verifier::ext_equal]
pub struct RecordModel {
    pub extent: u32,
    pub length: u32,
    pub recording_time: Seq<u8>,
    pub flags: u8,
    pub file_unit_size: u8,
    pub interleave_gap_size: u8,
    pub volume_sequence_number: u16,
    pub name: Seq<u8>,
    pub system_use: Seq<u8>,
    pub trailing_system_use_padding: bool,
}

impl View for Record {
    type V = RecordModel;

    open spec fn view(&self) -> RecordModel {
        RecordModel {
            extent: self.extent,
            length: self.length,
            recording_time: self.recording_time@,
            flags: self.flags,
            file_unit_size: self.file_unit_size,
            interleave_gap_size: self.interleave_gap_size,
            volume_sequence_number: self.volume_sequence_number,
            name: self.name@,
            system_use: self.system_use@,
            trailing_system_use_padding: self.trailing_system_use_padding,
        }
    }
}

/// The size of a record: an even identifier takes a padding byte.
pub open spec fn size_of_record(name_length: int, system_use_length: int) -> int {
    33 + name_length + (if name_length % 2 == 0 { 1int } else { 0 }) + system_use_length
}

/// The size of a record.
pub fn record_size(name_length: usize, system_use_length: usize) -> (size: usize)
    requires
        name_length + system_use_length + 34 <= usize::MAX,
    ensures
        size == size_of_record(name_length as int, system_use_length as int),
{
    33 + name_length + (if name_length % 2 == 0 { 1usize } else { 0 }) + system_use_length
}

/// One zero byte if `present`.
pub open spec fn padding(present: bool) -> Seq<u8> {
    if present {
        seq![0u8]
    } else {
        Seq::empty()
    }
}

/// The bytes of a record, in order.
pub open spec fn record_layout(record: RecordModel) -> Seq<u8> {
    let even = record.name.len() % 2 == 0;
    seq![
        size_of_record(record.name.len() as int, record.system_use.len() as int) as u8,
        0u8,
    ] + both32(record.extent) + both32(record.length) + record.recording_time + seq![
        record.flags,
        record.file_unit_size,
        record.interleave_gap_size,
    ] + both16(record.volume_sequence_number) + seq![record.name.len() as u8] + record.name + padding(
        even && !record.trailing_system_use_padding,
    ) + record.system_use + padding(even && record.trailing_system_use_padding)
}

/// The bytes of a record, if its size fits a byte.
pub open spec fn record_bytes(record: RecordModel) -> Result<Seq<u8>, Failure> {
    if size_of_record(record.name.len() as int, record.system_use.len() as int) > 255 {
        Err(failure(ErrorKind::RecordTooLong))
    } else {
        Ok(record_layout(record))
    }
}

/// Writes a directory record.
pub fn serialize_record(record: &Record) -> (result: Result<Vec<u8>, Error>)
    ensures
        agrees(result, record_bytes(record@)),
{
    if record.name.len() > 255 || record.system_use.len() > 255 {
        return Err(Error::new(ErrorKind::RecordTooLong));
    }
    let length: usize = record_size(record.name.len(), record.system_use.len());
    if length > 255 {
        return Err(Error::new(ErrorKind::RecordTooLong));
    }
    let even: bool = record.name.len() % 2 == 0;
    let none: [u8; 0] = [];
    let one: [u8; 1] = [0u8];
    assert(none@ =~= padding(false));
    assert(one@ =~= padding(true));
    let head: [u8; 2] = [length as u8, 0u8];
    let marks: [u8; 3] = [record.flags, record.file_unit_size, record.interleave_gap_size];
    let name_length: [u8; 1] = [record.name.len() as u8];
    let mut bytes: Vec<u8> = Vec::new();
    append_bytes(&mut bytes, head.as_slice());
    append_bytes(&mut bytes, both32_bytes(record.extent).as_slice());
    append_bytes(&mut bytes, both32_bytes(record.length).as_slice());
    append_bytes(&mut bytes, record.recording_time.as_slice());
    append_bytes(&mut bytes, marks.as_slice());
    append_bytes(&mut bytes, both16_bytes(record.volume_sequence_number).as_slice());
    append_bytes(&mut bytes, name_length.as_slice());
    append_bytes(&mut bytes, record.name.as_slice());
    append_bytes(
        &mut bytes,
        if even && !record.trailing_system_use_padding {
            one.as_slice()
        } else {
            none.as_slice()
        },
    );
    append_bytes(&mut bytes, record.system_use.as_slice());
    append_bytes(
        &mut bytes,
        if even && record.trailing_system_use_padding {
            one.as_slice()
        } else {
            none.as_slice()
        },
    );
    proof {
        assert(Seq::<u8>::empty() + head@ =~= seq![length as u8, 0u8]);
        assert(marks@ =~= seq![record.flags, record.file_unit_size, record.interleave_gap_size]);
        assert(name_length@ =~= seq![record.name@.len() as u8]);
        assert(bytes@ =~= record_layout(record@));
    }
    Ok(bytes)
}

/// The bytes are XA system-use data.
pub open spec fn is_xa(bytes: Seq<u8>) -> bool {
    &&& bytes.len() == 14
    &&& bytes[6] == 88
    &&& bytes[7] == 65
    &&& bytes[9] == 0
    &&& bytes[10] == 0
    &&& bytes[11] == 0
    &&& bytes[12] == 0
    &&& bytes[13] == 0
}

/// Whether bytes are XA system-use data.
pub fn is_xa_system_use(bytes: &[u8]) -> (xa: bool)
    ensures
        xa == is_xa(bytes@),
{
    bytes.len() == XA_SYSTEM_USE_SIZE && bytes[6] == 88 && bytes[7] == 65 && bytes[9] == 0 && bytes[10]
        == 0 && bytes[11] == 0 && bytes[12] == 0 && bytes[13] == 0
}

/// The length of a record's identifier.
pub open spec fn name_length_of(bytes: Seq<u8>) -> int {
    bytes[32] as int
}

/// The padding byte of a record stands after its XA system-use data.
pub open spec fn pads_at_end(bytes: Seq<u8>) -> bool {
    let size = bytes[0] as int;
    let start = 33 + name_length_of(bytes);
    &&& name_length_of(bytes) % 2 == 0
    &&& size > start
    &&& bytes[size - 1] == 0
    &&& !is_xa(bytes.subrange(start + 1, size))
    &&& is_xa(bytes.subrange(start, size - 1))
}

/// The record that bytes begin with.
pub open spec fn parsed_record(bytes: Seq<u8>) -> Result<RecordModel, Failure> {
    let size = bytes[0] as int;
    let name_length = name_length_of(bytes);
    let start = 33 + name_length;
    let standard = start + (if name_length % 2 == 0 { 1int } else { 0 });
    if bytes.len() < 34 {
        Err(failure(ErrorKind::RecordShort))
    } else if size < 34 || size > bytes.len() {
        Err(failure(ErrorKind::RecordLength))
    } else if start > size {
        Err(failure(ErrorKind::RecordIdentifierLength))
    } else if standard > size {
        Err(failure(ErrorKind::RecordPadding))
    } else {
        match (read_both32(bytes, 2), read_both32(bytes, 10), read_both16(bytes, 28)) {
            (Err(failure), _, _) => Err(failure),
            (_, Err(failure), _) => Err(failure),
            (_, _, Err(failure)) => Err(failure),
            (Ok(extent), Ok(length), Ok(volume_sequence_number)) => Ok(
                RecordModel {
                    extent,
                    length,
                    recording_time: bytes.subrange(18, 25),
                    flags: bytes[25],
                    file_unit_size: bytes[26],
                    interleave_gap_size: bytes[27],
                    volume_sequence_number,
                    name: bytes.subrange(33, start),
                    system_use: if pads_at_end(bytes) {
                        bytes.subrange(start, size - 1)
                    } else {
                        bytes.subrange(standard, size)
                    },
                    trailing_system_use_padding: pads_at_end(bytes),
                },
            ),
        }
    }
}

/// Reads the directory record that `bytes` begin with.
pub fn parse_record(bytes: &[u8]) -> (result: Result<Record, Error>)
    ensures
        agrees(result, parsed_record(bytes@)),
{
    if bytes.len() < 34 {
        return Err(Error::new(ErrorKind::RecordShort));
    }
    let size: usize = bytes[0] as usize;
    if size < 34 || size > bytes.len() {
        return Err(Error::new(ErrorKind::RecordLength));
    }
    let name_length: usize = bytes[32] as usize;
    let start: usize = 33 + name_length;
    if start > size {
        return Err(Error::new(ErrorKind::RecordIdentifierLength));
    }
    let standard: usize = start + (if name_length % 2 == 0 { 1usize } else { 0 });
    if standard > size {
        return Err(Error::new(ErrorKind::RecordPadding));
    }
    let at_end: bool = name_length % 2 == 0 && size > start && bytes[size - 1] == 0
        && !is_xa_system_use(slice_subrange(bytes, standard, size)) && is_xa_system_use(
        slice_subrange(bytes, start, size - 1),
    );
    let system_use: Vec<u8> = if at_end {
        copy_of(bytes, start, size - 1 - start)
    } else {
        copy_of(bytes, standard, size - standard)
    };
    let extent: u32 = match read_both_u32(bytes, 2) {
        Ok(value) => value,
        Err(error) => return Err(error),
    };
    let length: u32 = match read_both_u32(bytes, 10) {
        Ok(value) => value,
        Err(error) => return Err(error),
    };
    let volume_sequence_number: u16 = match read_both_u16(bytes, 28) {
        Ok(value) => value,
        Err(error) => return Err(error),
    };
    let recording_time: [u8; 7] = [
        bytes[18],
        bytes[19],
        bytes[20],
        bytes[21],
        bytes[22],
        bytes[23],
        bytes[24],
    ];
    assert(recording_time@ =~= bytes@.subrange(18, 25));
    let record = Record {
        extent,
        length,
        recording_time,
        flags: bytes[25],
        file_unit_size: bytes[26],
        interleave_gap_size: bytes[27],
        volume_sequence_number,
        name: copy_of(bytes, 33, name_length),
        system_use,
        trailing_system_use_padding: at_end,
    };
    Ok(record)
}

/// The first field of a record that is not supported.
pub open spec fn record_fields_check(record: RecordModel, directory: bool) -> Result<(), Failure> {
    if record.flags & 2 != (if directory { 2u8 } else { 0u8 }) || record.flags & 0xf8 != 0 {
        Err(failure(ErrorKind::RecordFlags))
    } else if record.file_unit_size != 0 {
        Err(failure(ErrorKind::RecordFileUnitSize))
    } else if record.interleave_gap_size != 0 {
        Err(failure(ErrorKind::RecordInterleaveGap))
    } else if record.volume_sequence_number != 1 {
        Err(failure(ErrorKind::RecordVolumeSequence))
    } else {
        Ok(())
    }
}

/// Checks the fields of a record whose values are fixed.
pub fn validate_record_fields(record: &Record, directory: bool) -> (result: Result<(), Error>)
    ensures
        accepts(result, record_fields_check(record@, directory)),
{
    let expected: u8 = if directory {
        DIRECTORY_FLAG
    } else {
        0
    };
    if record.flags & DIRECTORY_FLAG != expected || record.flags & 0xf8 != 0 {
        return Err(Error::new(ErrorKind::RecordFlags));
    }
    if record.file_unit_size != 0 {
        return Err(Error::new(ErrorKind::RecordFileUnitSize));
    }
    if record.interleave_gap_size != 0 {
        return Err(Error::new(ErrorKind::RecordInterleaveGap));
    }
    if record.volume_sequence_number != 1 {
        return Err(Error::new(ErrorKind::RecordVolumeSequence));
    }
    Ok(())
}

/// The attributes that an entry has unless it says otherwise.
pub open spec fn default_attributes(directory: bool) -> XaAttributes {
    if directory {
        XaAttributes(0x8800)
    } else {
        XaAttributes(0x0800)
    }
}

/// An entry's XA data with the given record fields and nothing else.
pub open spec fn recorded_xa(
    group_id: u16,
    user_id: u16,
    permissions: u16,
    attributes: XaAttributes,
    file_number: u8,
) -> EntryXaModel {
    EntryXaModel {
        group_id,
        user_id,
        permissions,
        attributes: Some(attributes),
        file_number,
        form1: None,
        form2: None,
        index: None,
        gap_index: None,
        logical_length: None,
        length_encoding: XaLengthEncoding::Logical2048,
        framing_subheader: None,
    }
}

/// What the system-use data of a record says of its entry: nothing when it says
/// what is assumed anyway.
pub open spec fn parsed_xa(system_use: Seq<u8>, directory: bool, uses_xa: bool) -> Result<
    Option<EntryXaModel>,
    Failure,
> {
    let group_id = from_be16(field(system_use, 0, 2));
    let user_id = from_be16(field(system_use, 2, 2));
    let raw = from_be16(field(system_use, 4, 2));
    let permissions = raw & XA_PERMISSION_MASK;
    let attributes = XaAttributes(raw & XA_ATTRIBUTE_MASK);
    let file_number = system_use[8];
    if !uses_xa {
        if system_use.len() != 0 {
            Err(failure(ErrorKind::RecordSystemUse))
        } else {
            Ok(None)
        }
    } else if !is_xa(system_use) {
        Err(failure(ErrorKind::RecordXaSystemUse))
    } else if !directory && attributes.has(XaAttributeFlag::Directory) {
        Err(failure(ErrorKind::RecordFileDirectoryAttribute))
    } else if group_id == 0 && user_id == 0 && permissions == DEFAULT_XA_PERMISSIONS && attributes
        == default_attributes(directory) && file_number == 0 {
        Ok(None)
    } else {
        Ok(Some(recorded_xa(group_id, user_id, permissions, attributes, file_number)))
    }
}

/// Reads what the system-use data of a record says of its entry.
pub fn entry_xa(record: &Record, directory: bool, uses_xa_system_use: bool) -> (result: Result<
    Option<EntryXa>,
    Error,
>)
    ensures
        match (result, parsed_xa(record.system_use@, directory, uses_xa_system_use)) {
            (Ok(xa), Ok(expected)) => opt_view(xa) == expected,
            (Err(error), Err(failure)) => error@ == failure,
            _ => false,
        },
{
    let bytes: &[u8] = record.system_use.as_slice();
    if !uses_xa_system_use {
        if bytes.len() != 0 {
            return Err(Error::new(ErrorKind::RecordSystemUse));
        }
        return Ok(None);
    }
    if !is_xa_system_use(bytes) {
        return Err(Error::new(ErrorKind::RecordXaSystemUse));
    }
    let group_id: u16 = read_be16(bytes, 0);
    let user_id: u16 = read_be16(bytes, 2);
    let raw: u16 = read_be16(bytes, 4);
    let permissions: u16 = raw & XA_PERMISSION_MASK;
    let attributes = XaAttributes::from_bits(raw & XA_ATTRIBUTE_MASK);
    if !directory && attributes.contains(XaAttributeFlag::Directory) {
        return Err(Error::new(ErrorKind::RecordFileDirectoryAttribute));
    }
    let assumed: u16 = if directory {
        0x8800
    } else {
        0x0800
    };
    let file_number: u8 = bytes[8];
    if group_id == 0 && user_id == 0 && permissions == DEFAULT_XA_PERMISSIONS && attributes.bits()
        == assumed && file_number == 0 {
        Ok(None)
    } else {
        Ok(
            Some(
                EntryXa {
                    group_id,
                    user_id,
                    permissions,
                    attributes: Some(attributes),
                    file_number,
                    form1: None,
                    form2: None,
                    index: None,
                    gap_index: None,
                    logical_length: None,
                    length_encoding: XaLengthEncoding::Logical2048,
                    framing_subheader: None,
                },
            ),
        )
    }
}

/// Checks every field of a record that the description does not hold.
pub fn validate_standard_record_fields(
    record: &Record,
    directory: bool,
    uses_xa_system_use: bool,
) -> (result: Result<(), Error>)
    ensures
        accepts(result, record_check(record@, directory, uses_xa_system_use)),
{
    match validate_record_fields(record, directory) {
        Err(error) => return Err(error),
        Ok(_) => {},
    }
    match entry_xa(record, directory, uses_xa_system_use) {
        Err(error) => Err(error),
        Ok(_) => Ok(()),
    }
}

/// The first thing about a record that is not supported.
pub open spec fn record_check(record: RecordModel, directory: bool, uses_xa: bool) -> Result<
    (),
    Failure,
> {
    both(
        record_fields_check(record, directory),
        match parsed_xa(record.system_use, directory, uses_xa) {
            Ok(_) => Ok(()),
            Err(failure) => Err(failure),
        },
    )
}

/// An entry's XA data says that its sectors are audio.
pub open spec fn is_cdda(xa: Option<EntryXaModel>) -> bool {
    xa matches Some(xa) && xa.attributes matches Some(attributes) && attributes.has(
        XaAttributeFlag::Cdda,
    )
}

/// Whether an entry's XA data says that its sectors are audio.
pub fn entry_xa_is_cdda(xa: &EntryXa) -> (cdda: bool)
    ensures
        cdda == is_cdda(Some(xa@)),
{
    match xa.attributes {
        Some(attributes) => attributes.contains(XaAttributeFlag::Cdda),
        None => false,
    }
}

/// The attributes that an entry's XA data gives it.
pub open spec fn attributes_of(xa: Option<EntryXaModel>, directory: bool) -> XaAttributes {
    match xa {
        Some(xa) => match xa.attributes {
            Some(attributes) => attributes,
            None => default_attributes(directory),
        },
        None => default_attributes(directory),
    }
}

/// The permissions that an entry's XA data gives it.
pub open spec fn permissions_of(xa: Option<EntryXaModel>) -> u16 {
    match xa {
        Some(xa) => xa.permissions,
        None => DEFAULT_XA_PERMISSIONS,
    }
}

/// The system-use data of an entry.
pub open spec fn xa_bytes(path: Seq<char>, xa: Option<EntryXaModel>, directory: bool) -> Result<
    Seq<u8>,
    Failure,
> {
    let attributes = attributes_of(xa, directory);
    let permissions = permissions_of(xa);
    let (group_id, user_id, file_number) = match xa {
        Some(xa) => (xa.group_id, xa.user_id, xa.file_number),
        None => (0u16, 0u16, 0u8),
    };
    if !directory && attributes.has(XaAttributeFlag::Directory) {
        Err(failure_of(ErrorKind::EntryDirectoryAttribute, path))
    } else if permissions & XA_ATTRIBUTE_MASK != 0 {
        Err(failure_of(ErrorKind::EntryPermissions, path))
    } else {
        Ok(
            be16(group_id) + be16(user_id) + be16(permissions | attributes.0) + seq![
                88u8,
                65u8,
                file_number,
                0u8,
                0u8,
                0u8,
                0u8,
                0u8,
            ],
        )
    }
}

/// Writes the system-use data of an entry.
pub fn serialize_xa_system_use_parts(path: &str, xa: &Option<EntryXa>, directory: bool) -> (result: Result<
    Vec<u8>,
    Error,
>)
    ensures
        agrees(result, xa_bytes(path@, opt_view(*xa), directory)),
        result matches Ok(bytes) ==> bytes.len() == 14,
{
    let mut attributes = XaAttributes::from_bits(if directory { 0x8800 } else { 0x0800 });
    let mut permissions: u16 = DEFAULT_XA_PERMISSIONS;
    let mut group_id: u16 = 0;
    let mut user_id: u16 = 0;
    let mut file_number: u8 = 0;
    match xa {
        Some(xa) => {
            match xa.attributes {
                Some(value) => {
                    attributes = value;
                },
                None => {},
            }
            permissions = xa.permissions;
            group_id = xa.group_id;
            user_id = xa.user_id;
            file_number = xa.file_number;
        },
        None => {},
    }
    if !directory && attributes.contains(XaAttributeFlag::Directory) {
        return Err(Error::of(ErrorKind::EntryDirectoryAttribute, path));
    }
    if permissions & XA_ATTRIBUTE_MASK != 0 {
        return Err(Error::of(ErrorKind::EntryPermissions, path));
    }
    let tail: [u8; 8] = [88u8, 65u8, file_number, 0u8, 0u8, 0u8, 0u8, 0u8];
    let mut bytes: Vec<u8> = Vec::new();
    append_bytes(&mut bytes, be16_bytes(group_id).as_slice());
    append_bytes(&mut bytes, be16_bytes(user_id).as_slice());
    append_bytes(&mut bytes, be16_bytes(permissions | attributes.bits()).as_slice());
    append_bytes(&mut bytes, tail.as_slice());
    proof {
        assert(tail@ =~= seq![88u8, 65u8, file_number, 0u8, 0u8, 0u8, 0u8, 0u8]);
        assert(bytes@ =~= be16(group_id) + be16(user_id) + be16(permissions | attributes.0) + tail@);
    }
    Ok(bytes)
}

/// The system-use data of an entry's record: none where the volume has none.
pub open spec fn system_use_bytes(
    path: Seq<char>,
    xa: Option<EntryXaModel>,
    directory: bool,
    present: bool,
) -> Result<Seq<u8>, Failure> {
    if present {
        xa_bytes(path, xa, directory)
    } else {
        Ok(Seq::empty())
    }
}

/// Writes the system-use data of an entry's record.
pub fn serialize_directory_record_system_use(
    path: &str,
    xa: &Option<EntryXa>,
    directory: bool,
    xa_system_use: bool,
) -> (result: Result<Vec<u8>, Error>)
    ensures
        agrees(result, system_use_bytes(path@, opt_view(*xa), directory, xa_system_use)),
        result matches Ok(bytes) ==> bytes.len() <= 14,
{
    if xa_system_use {
        serialize_xa_system_use_parts(path, xa, directory)
    } else {
        Ok(Vec::new())
    }
}

} // verus!
