//! The parts of a project that describe a filesystem.
use vstd::prelude::*;

use crate::error::{failure, failure_at, Error, ErrorKind};
use crate::manifest::layout::FileLayoutItem;
use crate::manifest::{
    DirectoryLengthPolicy, DirectoryParentRecordingTime, DirectoryRecordPacking,
    EntrySectorSubheader, IsoMetadataSubheader, JolietLevel, PathTableOrder,
    PrimaryVolumeApplicationUse, PvdU16Encoding, XaAttributes, XaLengthEncoding,
    DEFAULT_XA_PERMISSIONS,
};
use crate::xa::XaSubheader;

verus! {

/// A filesystem as the project describes it.
#[derive(Clone, Debug)]
pub struct Iso9660 {
    pub primary_volume: PrimaryVolume,
    pub primary_volume_copies: u8,
    pub supplementary_volumes: Vec<JolietVolume>,
    pub xa_system_use: bool,
    pub metadata_subheader: MetadataSubheader,
    pub volume_terminator_subheader: VolumeTerminatorSubheader,
    pub directory_record_packing: DirectoryRecordPacking,
    pub directory_parent_recording_time: DirectoryParentRecordingTime,
    pub directory_length_policy: DirectoryLengthPolicy,
    pub directory_record_volume_sequence_number: Option<u16>,
    pub path_table_size: Option<u32>,
    pub path_table_padding: u32,
    pub path_table_little_hex: Option<String>,
    pub path_table_big_hex: Option<String>,
    pub path_table_copies: PathTableCopies,
    pub path_table_order: PathTableOrder,
    pub path_table_subheader: PathTableSubheader,
    pub entries: Vec<Entry>,
    pub layout: Vec<FileLayoutItem>,
}

/// A Joliet volume as the project describes it.
#[derive(Clone, Debug)]
pub struct JolietVolume {
    pub level: JolietLevel,
    pub flags: u8,
    pub zero_fill_empty_strings: bool,
    pub zero_pad_strings: bool,
    pub nul_terminated_space_padded_strings: bool,
    pub volume_identifier_nul_terminated: bool,
    pub space_pad_escape_sequence: bool,
    pub aliased_path_table_pointers: bool,
    pub volume_set_identifier_raw_hex: Option<String>,
    pub descriptor: PrimaryVolume,
    pub xa_system_use: bool,
    pub path_table_size: Option<u32>,
    pub path_table_little_hex: Option<String>,
    pub path_table_big_hex: Option<String>,
    pub path_table_subheader: PathTableSubheader,
    pub file_identifier_odd_bytes_hex: Option<String>,
    pub entries: Vec<JolietEntry>,
}

/// A file or a directory of the Joliet tree as the project describes it.
#[derive(Clone, Debug)]
pub struct JolietEntry {
    pub path: String,
    pub source: Option<String>,
    pub omit_version: bool,
    pub recording_time: String,
    pub hidden: bool,
    pub associated: bool,
    pub system_use_hex: Option<String>,
    pub identifier_padding: Option<u8>,
    pub directory_self_system_use_hex: Option<String>,
    pub directory_parent_system_use_hex: Option<String>,
    pub directory_self_recording_time: Option<String>,
    pub directory_parent_recording_time: Option<String>,
    pub directory_self_length: Option<u32>,
    pub directory_parent_length: Option<u32>,
    pub directory_self_hidden: Option<bool>,
    pub directory_parent_hidden: Option<bool>,
    pub sector_subheader: EntrySectorSubheader,
    pub xa: Option<EntryXa>,
    pub directory_self_xa: Option<EntryXa>,
    pub directory_parent_xa: Option<EntryXa>,
}

/// A path table in the layout.
#[derive(Clone, Debug, PartialEq, Eq)]
pub struct MetadataPathTableItem {
    pub path_table: MetadataPathTable,
}

/// One of the path tables of an image.
#[derive(Clone, Copy, Debug, PartialEq, Eq, Hash, Structural)]
pub enum MetadataPathTable {
    PrimaryLittle,
    PrimaryLittleCopy,
    PrimaryBig,
    PrimaryBigCopy,
    JolietLittle,
    JolietBig,
}

/// How many copies of each path table there are.
#[derive(Clone, Copy, Debug, PartialEq, Eq, Structural)]
pub enum PathTableCopies {
    Duplicate,
    Single,
    Aliased,
}

/// Whose subheader the terminator carries.
#[derive(Clone, Copy, Debug, PartialEq, Eq, Structural)]
pub enum VolumeTerminatorSubheader {
    Metadata,
    Pvd,
}

/// The subheader of the descriptor sectors: a policy, or given.
#[derive(Clone, Copy, Debug, PartialEq, Eq, Structural)]
pub enum MetadataSubheader {
    Named(IsoMetadataSubheader),
    Explicit(XaSubheader),
}

/// The subheader of the path tables: a policy, or given.
#[derive(Clone, Copy, Debug, PartialEq, Eq, Structural)]
pub enum PathTableSubheader {
    Named(EntrySectorSubheader),
    Explicit(XaSubheader),
}

/// The fields of a volume descriptor as the project gives them.
#[derive(Clone, Debug)]
pub struct PrimaryVolume {
    pub volume_space_size: Option<u32>,
    pub volume_set_size: Option<u16>,
    pub volume_sequence_number: Option<u16>,
    pub file_structure_version: Option<u8>,
    pub u16_encoding: PvdU16Encoding,
    pub application_use: PrimaryVolumeApplicationUse,
    pub application_use_hex: Option<String>,
    pub root_directory_record_length: Option<u8>,
    pub root_directory_recording_time: Option<String>,
    pub root_directory_identifier: RootDirectoryIdentifier,
    pub escape_sequence: Option<JolietLevel>,
    pub system_identifier: String,
    pub volume_identifier: String,
    pub volume_set_identifier: String,
    pub publisher_identifier: String,
    pub data_preparer_identifier: String,
    pub application_identifier: String,
    pub copyright_file_identifier: String,
    pub abstract_file_identifier: String,
    pub bibliographic_file_identifier: String,
    pub reserved_hex: Option<String>,
    pub creation_time: Option<String>,
    pub modification_time: Option<String>,
    pub expiration_time: Option<String>,
    pub effective_time: Option<String>,
}

/// The identifier of a descriptor's root record.
#[derive(Clone, Copy, Debug, PartialEq, Eq, Structural)]
pub enum RootDirectoryIdentifier {
    Current,
    Parent,
    Empty,
}

/// A file or a directory of the primary tree as the project describes it.
#[derive(Clone, Debug)]
pub struct Entry {
    pub path: String,
    pub omit_version: bool,
    pub recording_time: String,
    pub hidden: bool,
    pub associated: bool,
    pub reference: Option<EntryReference>,
    pub xa_system_use: Option<bool>,
    pub directory_slack: Option<DirectorySlack>,
    pub directory_length_policy: Option<DirectoryLengthPolicy>,
    pub allocation_padding_hex: Option<String>,
    pub directory_self_xa: Option<EntryXa>,
    pub directory_parent_xa: Option<EntryXa>,
    pub system_use_hex: Option<String>,
    pub identifier_padding: Option<u8>,
    pub directory_self_system_use_hex: Option<String>,
    pub directory_parent_system_use_hex: Option<String>,
    pub directory_self_recording_time: Option<String>,
    pub directory_parent_recording_time: Option<String>,
    pub directory_self_length: Option<u32>,
    pub directory_parent_length: Option<u32>,
    pub directory_self_hidden: Option<bool>,
    pub directory_parent_hidden: Option<bool>,
    pub sector_subheader: EntrySectorSubheader,
    pub xa: Option<EntryXa>,
}

/// An extent that an entry names but that is not laid out for it.
#[derive(Clone, Copy, Debug, PartialEq, Eq, Structural)]
pub struct EntryReference {
    pub kind: EntryReferenceKind,
    pub extent: u32,
    pub length: u32,
}

/// What backs the extent that an entry names.
#[derive(Clone, Copy, Debug, PartialEq, Eq, Structural)]
pub enum EntryReferenceKind {
    Layout,
    RecordOnly,
    External,
    Directory,
}

/// Bytes that follow the records of a directory.
#[derive(Clone, Debug)]
pub struct DirectorySlack {
    pub offset: u32,
    pub hex: String,
}

/// What a directory record's XA system-use data says of an entry.
#[derive(Clone, Debug)]
pub struct EntryXa {
    pub group_id: u16,
    pub user_id: u16,
    pub permissions: u16,
    pub attributes: Option<XaAttributes>,
    pub file_number: u8,
    pub logical_length: Option<u32>,
    pub length_encoding: XaLengthEncoding,
    pub framing_subheader: Option<XaSubheader>,
}

impl Default for PathTableCopies {
    fn default() -> (value: PathTableCopies)
        ensures
            value == PathTableCopies::Duplicate,
    {
        PathTableCopies::Duplicate
    }
}

impl PathTableCopies {
    pub fn is_default(&self) -> (default: bool)
        ensures
            default == (*self == PathTableCopies::Duplicate),
    {
        *self == PathTableCopies::Duplicate
    }
}

impl Default for VolumeTerminatorSubheader {
    fn default() -> (value: VolumeTerminatorSubheader)
        ensures
            value == VolumeTerminatorSubheader::Metadata,
    {
        VolumeTerminatorSubheader::Metadata
    }
}

impl VolumeTerminatorSubheader {
    pub fn is_default(&self) -> (default: bool)
        ensures
            default == (*self == VolumeTerminatorSubheader::Metadata),
    {
        *self == VolumeTerminatorSubheader::Metadata
    }
}

impl Default for RootDirectoryIdentifier {
    fn default() -> (value: RootDirectoryIdentifier)
        ensures
            value == RootDirectoryIdentifier::Current,
    {
        RootDirectoryIdentifier::Current
    }
}

impl RootDirectoryIdentifier {
    pub fn is_default(&self) -> (default: bool)
        ensures
            default == (*self == RootDirectoryIdentifier::Current),
    {
        *self == RootDirectoryIdentifier::Current
    }
}

impl Default for MetadataSubheader {
    fn default() -> (value: MetadataSubheader)
        ensures
            value == MetadataSubheader::Named(IsoMetadataSubheader::Canonical),
    {
        MetadataSubheader::Named(IsoMetadataSubheader::Canonical)
    }
}

impl MetadataSubheader {
    pub fn is_default(&self) -> (default: bool)
        ensures
            default == (*self == MetadataSubheader::Named(IsoMetadataSubheader::Canonical)),
    {
        *self == MetadataSubheader::Named(IsoMetadataSubheader::Canonical)
    }
}

impl Default for PathTableSubheader {
    fn default() -> (value: PathTableSubheader)
        ensures
            value == PathTableSubheader::Named(EntrySectorSubheader::Canonical),
    {
        PathTableSubheader::Named(EntrySectorSubheader::Canonical)
    }
}

impl PathTableSubheader {
    pub fn is_default(&self) -> (default: bool)
        ensures
            default == (*self == PathTableSubheader::Named(EntrySectorSubheader::Canonical)),
    {
        *self == PathTableSubheader::Named(EntrySectorSubheader::Canonical)
    }
}

impl Default for EntryXa {
    fn default() -> (xa: EntryXa)
        ensures
            xa == (EntryXa {
                group_id: 0,
                user_id: 0,
                permissions: 0x0555,
                attributes: None,
                file_number: 0,
                logical_length: None,
                length_encoding: XaLengthEncoding::Logical2048,
                framing_subheader: None,
            }),
    {
        EntryXa {
            group_id: 0,
            user_id: 0,
            permissions: DEFAULT_XA_PERMISSIONS,
            attributes: None,
            file_number: 0,
            logical_length: None,
            length_encoding: XaLengthEncoding::Logical2048,
            framing_subheader: None,
        }
    }
}

impl EntryXa {
    /// An entry that counts its length in other sectors has no logical length of its
    /// own.
    pub open spec fn consistent(self) -> bool {
        self.length_encoding == XaLengthEncoding::Logical2048 || self.logical_length is None
    }

    /// Passes an entry on whose lengths do not contradict each other.
    pub fn checked(self) -> (result: Result<EntryXa, Error>)
        ensures
            match result {
                Ok(xa) => xa == self && self.consistent(),
                Err(error) => !self.consistent() && error@ == failure(ErrorKind::XaLengths),
            },
    {
        if !self.length_encoding.is_default() && self.logical_length.is_some() {
            return Err(Error::new(ErrorKind::XaLengths));
        }
        Ok(self)
    }
}

impl XaLengthEncoding {
    /// The sector size that the encoding counts.
    pub open spec fn sector_size(self) -> u16 {
        match self {
            XaLengthEncoding::Logical2048 => 2048,
            XaLengthEncoding::Mode2_2336 => 2336,
        }
    }

    pub fn number(self) -> (number: u16)
        ensures
            number == self.sector_size(),
    {
        match self {
            XaLengthEncoding::Logical2048 => 2048,
            XaLengthEncoding::Mode2_2336 => 2336,
        }
    }

    /// Finds the encoding that a sector size names.
    pub fn from_number(number: u16) -> (result: Result<XaLengthEncoding, Error>)
        ensures
            match result {
                Ok(encoding) => number == encoding.sector_size(),
                Err(error) => number != 2048 && number != 2336 && error@ == failure_at(
                    ErrorKind::XaLengthNumber,
                    number as int,
                ),
            },
    {
        if number == 2048 {
            Ok(XaLengthEncoding::Logical2048)
        } else if number == 2336 {
            Ok(XaLengthEncoding::Mode2_2336)
        } else {
            Err(Error::at(ErrorKind::XaLengthNumber, number as u64))
        }
    }
}

} // verus!
