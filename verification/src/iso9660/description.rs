//! The filesystem description that the layout engine works on: what a reader of
//! an image finds, and what a builder places.
use vstd::prelude::*;

use crate::manifest::{
    DirectoryLengthPolicy, DirectoryParentRecordingTime, DirectoryRecordPacking,
    EntrySectorSubheader, GapKind, IsoMetadataSubheader, JolietLevel, MetadataVolume,
    PathTableOrder, PrimaryVolumeApplicationUse, PvdU16Encoding, XaAttributes, XaLengthEncoding,
    DEFAULT_XA_PERMISSIONS,
};
use crate::model::{opt_view, views};
use crate::xa::XaSubheader;

verus! {

/// One of the path tables of an image with a Joliet volume.
#[derive(Clone, Copy, Debug, PartialEq, Eq, Structural)]
pub enum MetadataPathTable {
    PrimaryLittle,
    PrimaryBig,
    JolietLittle,
    JolietBig,
}

/// How many copies of each path table there are.
#[derive(Clone, Copy, Debug, PartialEq, Eq, Structural)]
pub enum PathTableCopies {
    Duplicate,
    Single,
}

impl Default for PathTableCopies {
    fn default() -> (value: PathTableCopies)
        ensures
            value == PathTableCopies::Duplicate,
    {
        PathTableCopies::Duplicate
    }
}

impl PathTableCopies {
    pub fn is_default(&self) -> (default: bool)
        ensures
            default == (*self == PathTableCopies::Duplicate),
    {
        *self == PathTableCopies::Duplicate
    }
}

/// The identifier of a descriptor's root record.
#[derive(Clone, Copy, Debug, PartialEq, Eq, Structural)]
pub enum RootDirectoryIdentifier {
    Current,
    Parent,
}

impl Default for RootDirectoryIdentifier {
    fn default() -> (value: RootDirectoryIdentifier)
        ensures
            value == RootDirectoryIdentifier::Current,
    {
        RootDirectoryIdentifier::Current
    }
}

impl RootDirectoryIdentifier {
    pub fn is_default(&self) -> (default: bool)
        ensures
            default == (*self == RootDirectoryIdentifier::Current),
    {
        *self == RootDirectoryIdentifier::Current
    }
}

/// Which names the primary tree may use.
#[derive(Clone, Copy, Debug, PartialEq, Eq, Structural)]
pub enum IdentifierPolicy {
    IsoLevel1,
    /// Any graphic ASCII characters but the slashes.
    NonstandardAscii,
}

impl Default for IdentifierPolicy {
    fn default() -> (value: IdentifierPolicy)
        ensures
            value == IdentifierPolicy::IsoLevel1,
    {
        IdentifierPolicy::IsoLevel1
    }
}

/// A directory record that names a directory which is not in the image.
#[derive(Clone, Copy, Debug, PartialEq, Eq, Structural)]
pub struct DirectoryReference {
    pub extent: u32,
    pub length: u32,
}

/// One piece of the metadata area of an image with a Joliet volume.
#[derive(Clone, Copy, Debug, PartialEq, Eq, Structural)]
pub enum MetadataLayoutItem {
    PathTable(MetadataPathTable),
    Directories(MetadataVolume),
    Gap { gap: u32, kind: GapKind },
}

/// Bytes that follow the records of a directory.
#[derive(Clone, Debug)]
pub struct DirectorySlack {
    pub offset: u32,
    pub hex: String,
}

/// The mathematical form of a [`DirectorySlack`].
#[verifier::ext_equal]
pub struct SlackModel {
    pub offset: u32,
    pub hex: Seq<char>,
}

impl View for DirectorySlack {
    type V = SlackModel;

    open spec fn view(&self) -> SlackModel {
        SlackModel {
            offset: self.offset,
            hex: self.hex@,
        }
    }
}

/// What a directory record's XA system-use data says of an entry.
#[derive(Clone, Debug)]
pub struct EntryXa {
    pub group_id: u16,
    pub user_id: u16,
    pub permissions: u16,
    pub attributes: Option<XaAttributes>,
    pub file_number: u8,
    /// The assets of a file whose sectors mix both forms.
    pub form1: Option<String>,
    pub form2: Option<String>,
    pub index: Option<String>,
    pub gap_index: Option<String>,
    /// A recorded length that differs from the extent's.
    pub logical_length: Option<u32>,
    pub length_encoding: XaLengthEncoding,
    pub framing_subheader: Option<XaSubheader>,
}

/// The mathematical form of an [`EntryXa`].
#[verifier::ext_equal]
pub struct EntryXaModel {
    pub group_id: u16,
    pub user_id: u16,
    pub permissions: u16,
    pub attributes: Option<XaAttributes>,
    pub file_number: u8,
    pub form1: Option<Seq<char>>,
    pub form2: Option<Seq<char>>,
    pub index: Option<Seq<char>>,
    pub gap_index: Option<Seq<char>>,
    pub logical_length: Option<u32>,
    pub length_encoding: XaLengthEncoding,
    pub framing_subheader: Option<XaSubheader>,
}

impl Default for EntryXa {
    fn default() -> (xa: EntryXa)
        ensures
            xa == (EntryXa {
                group_id: 0,
                user_id: 0,
                permissions: 0x0555,
                attributes: None,
                file_number: 0,
                form1: None,
                form2: None,
                index: None,
                gap_index: None,
                logical_length: None,
                length_encoding: XaLengthEncoding::Logical2048,
                framing_subheader: None,
            }),
    {
        EntryXa {
            group_id: 0,
            user_id: 0,
            permissions: DEFAULT_XA_PERMISSIONS,
            attributes: None,
            file_number: 0,
            form1: None,
            form2: None,
            index: None,
            gap_index: None,
            logical_length: None,
            length_encoding: XaLengthEncoding::Logical2048,
            framing_subheader: None,
        }
    }
}

impl View for EntryXa {
    type V = EntryXaModel;

    open spec fn view(&self) -> EntryXaModel {
        EntryXaModel {
            group_id: self.group_id,
            user_id: self.user_id,
            permissions: self.permissions,
            attributes: self.attributes,
            file_number: self.file_number,
            form1: opt_view(self.form1),
            form2: opt_view(self.form2),
            index: opt_view(self.index),
            gap_index: opt_view(self.gap_index),
            logical_length: self.logical_length,
            length_encoding: self.length_encoding,
            framing_subheader: self.framing_subheader,
        }
    }
}

/// A file or a directory of the primary tree.
#[derive(Clone, Debug)]
pub struct Entry {
    pub path: String,
    pub recording_time: String,
    pub hidden: bool,
    pub associated: bool,
    /// The extent is recorded though nothing backs it.
    pub unbacked: bool,
    pub directory_reference: Option<DirectoryReference>,
    pub directory_slack: Option<DirectorySlack>,
    /// Bytes between the end of a file and the end of its last block.
    pub allocation_padding_hex: Option<String>,
    pub sector_subheader: EntrySectorSubheader,
    pub xa: Option<EntryXa>,
    /// A fixed extent outside the authored files.
    pub extent: Option<u32>,
    pub length: Option<u32>,
}

/// The mathematical form of an [`Entry`].
#[verifier::ext_equal]
pub struct EntryModel {
    pub path: Seq<char>,
    pub recording_time: Seq<char>,
    pub hidden: bool,
    pub associated: bool,
    pub unbacked: bool,
    pub directory_reference: Option<DirectoryReference>,
    pub directory_slack: Option<SlackModel>,
    pub allocation_padding_hex: Option<Seq<char>>,
    pub sector_subheader: EntrySectorSubheader,
    pub xa: Option<EntryXaModel>,
    pub extent: Option<u32>,
    pub length: Option<u32>,
}

impl View for Entry {
    type V = EntryModel;

    open spec fn view(&self) -> EntryModel {
        EntryModel {
            path: self.path@,
            recording_time: self.recording_time@,
            hidden: self.hidden,
            associated: self.associated,
            unbacked: self.unbacked,
            directory_reference: self.directory_reference,
            directory_slack: opt_view(self.directory_slack),
            allocation_padding_hex: opt_view(self.allocation_padding_hex),
            sector_subheader: self.sector_subheader,
            xa: opt_view(self.xa),
            extent: self.extent,
            length: self.length,
        }
    }
}

/// A file or a directory of the Joliet tree.
#[derive(Clone, Debug)]
pub struct JolietEntry {
    pub path: String,
    /// The primary file that a Joliet file names; a directory has none.
    pub source: Option<String>,
    pub omit_version: bool,
    pub recording_time: String,
    pub hidden: bool,
    pub associated: bool,
    pub xa: Option<EntryXa>,
}

/// The mathematical form of a [`JolietEntry`].
#[verifier::ext_equal]
pub struct JolietEntryModel {
    pub path: Seq<char>,
    pub source: Option<Seq<char>>,
    pub omit_version: bool,
    pub recording_time: Seq<char>,
    pub hidden: bool,
    pub associated: bool,
    pub xa: Option<EntryXaModel>,
}

impl View for JolietEntry {
    type V = JolietEntryModel;

    open spec fn view(&self) -> JolietEntryModel {
        JolietEntryModel {
            path: self.path@,
            source: opt_view(self.source),
            omit_version: self.omit_version,
            recording_time: self.recording_time@,
            hidden: self.hidden,
            associated: self.associated,
            xa: opt_view(self.xa),
        }
    }
}

/// The fields of a volume descriptor.
#[derive(Clone, Debug)]
pub struct PrimaryVolume {
    pub volume_space_size: Option<u32>,
    pub file_structure_version: Option<u8>,
    pub u16_encoding: PvdU16Encoding,
    pub application_use: PrimaryVolumeApplicationUse,
    pub application_use_hex: Option<String>,
    pub root_directory_record_length: Option<u8>,
    pub root_directory_recording_time: Option<String>,
    pub root_directory_identifier: RootDirectoryIdentifier,
    pub escape_sequence: Option<JolietLevel>,
    pub system_identifier: String,
    pub volume_identifier: String,
    pub volume_set_identifier: String,
    pub publisher_identifier: String,
    pub data_preparer_identifier: String,
    pub application_identifier: String,
    pub copyright_file_identifier: String,
    pub abstract_file_identifier: String,
    pub bibliographic_file_identifier: String,
    pub reserved_hex: Option<String>,
    pub creation_time: Option<String>,
    pub modification_time: Option<String>,
    pub expiration_time: Option<String>,
    pub effective_time: Option<String>,
}

/// The mathematical form of a [`PrimaryVolume`].
#[verifier::ext_equal]
pub struct VolumeModel {
    pub volume_space_size: Option<u32>,
    pub file_structure_version: Option<u8>,
    pub u16_encoding: PvdU16Encoding,
    pub application_use: PrimaryVolumeApplicationUse,
    pub application_use_hex: Option<Seq<char>>,
    pub root_directory_record_length: Option<u8>,
    pub root_directory_recording_time: Option<Seq<char>>,
    pub root_directory_identifier: RootDirectoryIdentifier,
    pub escape_sequence: Option<JolietLevel>,
    pub system_identifier: Seq<char>,
    pub volume_identifier: Seq<char>,
    pub volume_set_identifier: Seq<char>,
    pub publisher_identifier: Seq<char>,
    pub data_preparer_identifier: Seq<char>,
    pub application_identifier: Seq<char>,
    pub copyright_file_identifier: Seq<char>,
    pub abstract_file_identifier: Seq<char>,
    pub bibliographic_file_identifier: Seq<char>,
    pub reserved_hex: Option<Seq<char>>,
    pub creation_time: Option<Seq<char>>,
    pub modification_time: Option<Seq<char>>,
    pub expiration_time: Option<Seq<char>>,
    pub effective_time: Option<Seq<char>>,
}

impl View for PrimaryVolume {
    type V = VolumeModel;

    open spec fn view(&self) -> VolumeModel {
        VolumeModel {
            volume_space_size: self.volume_space_size,
            file_structure_version: self.file_structure_version,
            u16_encoding: self.u16_encoding,
            application_use: self.application_use,
            application_use_hex: opt_view(self.application_use_hex),
            root_directory_record_length: self.root_directory_record_length,
            root_directory_recording_time: opt_view(self.root_directory_recording_time),
            root_directory_identifier: self.root_directory_identifier,
            escape_sequence: self.escape_sequence,
            system_identifier: self.system_identifier@,
            volume_identifier: self.volume_identifier@,
            volume_set_identifier: self.volume_set_identifier@,
            publisher_identifier: self.publisher_identifier@,
            data_preparer_identifier: self.data_preparer_identifier@,
            application_identifier: self.application_identifier@,
            copyright_file_identifier: self.copyright_file_identifier@,
            abstract_file_identifier: self.abstract_file_identifier@,
            bibliographic_file_identifier: self.bibliographic_file_identifier@,
            reserved_hex: opt_view(self.reserved_hex),
            creation_time: opt_view(self.creation_time),
            modification_time: opt_view(self.modification_time),
            expiration_time: opt_view(self.expiration_time),
            effective_time: opt_view(self.effective_time),
        }
    }
}

/// A Joliet supplementary volume.
#[derive(Clone, Debug)]
pub struct JolietVolume {
    pub level: JolietLevel,
    pub flags: u8,
    pub zero_fill_empty_strings: bool,
    pub zero_pad_strings: bool,
    pub volume_set_identifier_raw_hex: Option<String>,
    pub descriptor: PrimaryVolume,
    pub xa_system_use: bool,
    pub path_table_size: Option<u32>,
    pub path_table_little_hex: Option<String>,
    pub path_table_big_hex: Option<String>,
    pub file_identifier_odd_bytes_hex: Option<String>,
    pub entries: Vec<JolietEntry>,
}

/// The mathematical form of a [`JolietVolume`].
#[verifier::ext_equal]
pub struct JolietModel {
    pub level: JolietLevel,
    pub flags: u8,
    pub zero_fill_empty_strings: bool,
    pub zero_pad_strings: bool,
    pub volume_set_identifier_raw_hex: Option<Seq<char>>,
    pub descriptor: VolumeModel,
    pub xa_system_use: bool,
    pub path_table_size: Option<u32>,
    pub path_table_little_hex: Option<Seq<char>>,
    pub path_table_big_hex: Option<Seq<char>>,
    pub file_identifier_odd_bytes_hex: Option<Seq<char>>,
    pub entries: Seq<JolietEntryModel>,
}

impl View for JolietVolume {
    type V = JolietModel;

    open spec fn view(&self) -> JolietModel {
        JolietModel {
            level: self.level,
            flags: self.flags,
            zero_fill_empty_strings: self.zero_fill_empty_strings,
            zero_pad_strings: self.zero_pad_strings,
            volume_set_identifier_raw_hex: opt_view(self.volume_set_identifier_raw_hex),
            descriptor: self.descriptor@,
            xa_system_use: self.xa_system_use,
            path_table_size: self.path_table_size,
            path_table_little_hex: opt_view(self.path_table_little_hex),
            path_table_big_hex: opt_view(self.path_table_big_hex),
            file_identifier_odd_bytes_hex: opt_view(self.file_identifier_odd_bytes_hex),
            entries: views(self.entries@),
        }
    }
}

/// The assets of an XA extent that no entry names.
#[derive(Clone, Debug)]
pub struct XaExtentAssets {
    pub form1: String,
    pub form2: String,
    pub index: String,
    pub gap_index: Option<String>,
}

/// The mathematical form of [`XaExtentAssets`].
#[verifier::ext_equal]
pub struct AssetsModel {
    pub form1: Seq<char>,
    pub form2: Seq<char>,
    pub index: Seq<char>,
    pub gap_index: Option<Seq<char>>,
}

impl View for XaExtentAssets {
    type V = AssetsModel;

    open spec fn view(&self) -> AssetsModel {
        AssetsModel {
            form1: self.form1@,
            form2: self.form2@,
            index: self.index@,
            gap_index: opt_view(self.gap_index),
        }
    }
}

/// One piece of the file area, in physical order.
#[derive(Clone, Debug)]
pub enum FileLayoutItem {
    Path { path: String },
    Directory { volume: MetadataVolume, path: String },
    XaExtent { assets: XaExtentAssets },
    Gap { gap: GapItem },
}

/// A run of sectors that belong to nothing.
#[derive(Clone, Copy, Debug, PartialEq, Eq, Structural)]
pub struct GapItem {
    pub sectors: u32,
    pub kind: GapKind,
    pub subheader: Option<XaSubheader>,
    pub form2_edc: Option<bool>,
}

/// The mathematical form of a [`FileLayoutItem`].
#[verifier::ext_equal]
pub enum ItemModel {
    Path { path: Seq<char> },
    Directory { volume: MetadataVolume, path: Seq<char> },
    XaExtent { assets: AssetsModel },
    Gap { gap: GapItem },
}

impl View for FileLayoutItem {
    type V = ItemModel;

    open spec fn view(&self) -> ItemModel {
        match self {
            FileLayoutItem::Path { path } => ItemModel::Path { path: path@ },
            FileLayoutItem::Directory { volume, path } => ItemModel::Directory {
                volume: *volume,
                path: path@,
            },
            FileLayoutItem::XaExtent { assets } => ItemModel::XaExtent { assets: assets@ },
            FileLayoutItem::Gap { gap } => ItemModel::Gap { gap: *gap },
        }
    }
}

/// A filesystem and where its parts lie.
#[derive(Clone, Debug)]
pub struct Iso9660 {
    pub primary_volume: PrimaryVolume,
    pub primary_volume_copies: u8,
    pub supplementary_volumes: Vec<JolietVolume>,
    pub metadata_layout: Vec<MetadataLayoutItem>,
    pub xa_system_use: bool,
    pub xa_system_use_omissions: Vec<String>,
    pub metadata_subheader: IsoMetadataSubheader,
    pub metadata_framing_subheader: Option<XaSubheader>,
    pub identifier_policy: IdentifierPolicy,
    pub directory_record_packing: DirectoryRecordPacking,
    pub directory_parent_recording_time: DirectoryParentRecordingTime,
    pub directory_length_policy: DirectoryLengthPolicy,
    pub path_table_size: Option<u32>,
    pub path_table_padding: u32,
    pub path_table_little_hex: Option<String>,
    pub path_table_big_hex: Option<String>,
    pub path_table_copies: PathTableCopies,
    pub path_table_order: PathTableOrder,
    pub path_table_subheader: EntrySectorSubheader,
    pub path_table_framing_subheader: Option<XaSubheader>,
    pub entries: Vec<Entry>,
    pub files: Vec<FileLayoutItem>,
}

/// The mathematical form of an [`Iso9660`].
#[verifier::ext_equal]
pub struct IsoModel {
    pub primary_volume: VolumeModel,
    pub primary_volume_copies: u8,
    pub supplementary_volumes: Seq<JolietModel>,
    pub metadata_layout: Seq<MetadataLayoutItem>,
    pub xa_system_use: bool,
    pub xa_system_use_omissions: Seq<Seq<char>>,
    pub metadata_subheader: IsoMetadataSubheader,
    pub metadata_framing_subheader: Option<XaSubheader>,
    pub identifier_policy: IdentifierPolicy,
    pub directory_record_packing: DirectoryRecordPacking,
    pub directory_parent_recording_time: DirectoryParentRecordingTime,
    pub directory_length_policy: DirectoryLengthPolicy,
    pub path_table_size: Option<u32>,
    pub path_table_padding: u32,
    pub path_table_little_hex: Option<Seq<char>>,
    pub path_table_big_hex: Option<Seq<char>>,
    pub path_table_copies: PathTableCopies,
    pub path_table_order: PathTableOrder,
    pub path_table_subheader: EntrySectorSubheader,
    pub path_table_framing_subheader: Option<XaSubheader>,
    pub entries: Seq<EntryModel>,
    pub files: Seq<ItemModel>,
}

impl View for Iso9660 {
    type V = IsoModel;

    open spec fn view(&self) -> IsoModel {
        IsoModel {
            primary_volume: self.primary_volume@,
            primary_volume_copies: self.primary_volume_copies,
            supplementary_volumes: views(self.supplementary_volumes@),
            metadata_layout: self.metadata_layout@,
            xa_system_use: self.xa_system_use,
            xa_system_use_omissions: views(self.xa_system_use_omissions@),
            metadata_subheader: self.metadata_subheader,
            metadata_framing_subheader: self.metadata_framing_subheader,
            identifier_policy: self.identifier_policy,
            directory_record_packing: self.directory_record_packing,
            directory_parent_recording_time: self.directory_parent_recording_time,
            directory_length_policy: self.directory_length_policy,
            path_table_size: self.path_table_size,
            path_table_padding: self.path_table_padding,
            path_table_little_hex: opt_view(self.path_table_little_hex),
            path_table_big_hex: opt_view(self.path_table_big_hex),
            path_table_copies: self.path_table_copies,
            path_table_order: self.path_table_order,
            path_table_subheader: self.path_table_subheader,
            path_table_framing_subheader: self.path_table_framing_subheader,
            entries: views(self.entries@),
            files: views(self.files@),
        }
    }
}

} // verus!
