//! The texts of failures.
use vstd::prelude::*;

use crate::error::{Error, ErrorKind, Failure};
use crate::manifest::track::push_text;
use crate::raw_cd::msf::{byte_text, push_byte};
use crate::text::{decimal, push_decimal};

verus! {

/// What a text says of a failure in particular.
#[derive(Clone, Copy, Debug, PartialEq, Eq, Structural)]
pub enum Part {
    Nothing,
    /// The path, name or value that it concerns.
    Subject,
    Number,
    /// The number as two digits of radix 16.
    Hex,
    /// The number as one of the two trees.
    Volume,
    /// The number as a directory of one of the two trees.
    Tree,
}

/// A part of a failure as a text.
pub open spec fn part_text(part: Part, failure: Failure) -> Seq<char> {
    match part {
        Part::Nothing => Seq::empty(),
        Part::Subject => failure.subject,
        Part::Number => decimal(failure.number as nat),
        Part::Hex => byte_text((failure.number % 256) as u8),
        Part::Volume => if failure.number == 0 {
            "Primary"@
        } else {
            "Joliet"@
        },
        Part::Tree => if failure.number == 0 {
            "directory"@
        } else {
            "Joliet directory"@
        },
    }
}

/// What the text of a failure begins with.
pub open spec fn head_of(kind: ErrorKind) -> Seq<char> {
    match kind {
        ErrorKind::IntegerConversion => "out of range integral type conversion attempted"@,
        ErrorKind::DuplicateSubmodeFlag => "duplicate XA submode flag "@,
        ErrorKind::DuplicateAttributeFlag => "duplicate XA attribute flag "@,
        ErrorKind::TimeMonth => "invalid volume time month"@,
        ErrorKind::TimeDay => "invalid volume time day"@,
        ErrorKind::TimeHour => "invalid volume time hour"@,
        ErrorKind::TimeMinute => "invalid volume time minute"@,
        ErrorKind::TimeSecond => "invalid volume time second"@,
        ErrorKind::TimeCentisecond => "invalid volume time centisecond"@,
        ErrorKind::TimeOffset => "volume time offset is outside the ISO 9660 range"@,
        ErrorKind::RawTimeHex => "invalid raw "@,
        ErrorKind::RawTimeLength => "raw "@,
        ErrorKind::DecimalDigit => "decimal field contains a non-digit"@,
        ErrorKind::TimeFormat => "volume time must use YYYY-MM-DDTHH:MM:SS.cc+HH:MM"@,
        ErrorKind::TimeDigits => "volume time contains a non-digit component"@,
        ErrorKind::TimeOffsetMinutes => "invalid volume time offset minutes"@,
        ErrorKind::TimeOffsetStep => "volume time offset must use fifteen-minute increments"@,
        ErrorKind::TimeNegativeZero => "negative zero volume time offset is not canonical"@,
        ErrorKind::RecordingTimeFormat => "recording time must use YYYY-MM-DDTHH:MM:SS+HH:MM"@,
        ErrorKind::RecordingTime => "invalid directory recording time"@,
        ErrorKind::RecordingTimeYear => "directory recording time year must be between 1900 and 2155"@,
        ErrorKind::VolumeTimeLength => "volume time must contain seventeen bytes"@,
        ErrorKind::MismatchedU16 => "mismatched both-endian u16 at offset "@,
        ErrorKind::MismatchedU32 => "mismatched both-endian u32 at offset "@,
        ErrorKind::PvdU16Fields => "unsupported PVD 16-bit both-endian field encoding"@,
        ErrorKind::FixedStringUtf8 => "fixed ISO string is not valid text"@,
        ErrorKind::FixedString => "fixed ISO string is too long or non-ASCII"@,
        ErrorKind::RecordTooLong => "directory record is too long"@,
        ErrorKind::RecordShort => "short directory record"@,
        ErrorKind::RecordLength => "invalid directory record length"@,
        ErrorKind::RecordIdentifierLength => "invalid identifier length"@,
        ErrorKind::RecordPadding => "invalid directory record padding"@,
        ErrorKind::RecordFlags => "unsupported directory-record flags"@,
        ErrorKind::RecordFileUnitSize => "unsupported directory-record file unit size"@,
        ErrorKind::RecordInterleaveGap => "unsupported directory-record interleave gap size"@,
        ErrorKind::RecordVolumeSequence => "unsupported directory-record volume sequence number"@,
        ErrorKind::RecordSystemUse => "unsupported PVD root directory-record system-use data"@,
        ErrorKind::RecordXaSystemUse => "unsupported directory-record XA system-use data"@,
        ErrorKind::RecordFileDirectoryAttribute => "file directory record has XA directory attribute"@,
        ErrorKind::EntryDirectoryAttribute => "file entry has XA directory attribute: "@,
        ErrorKind::EntryPermissions => "XA permissions overlap attribute bits for "@,
        ErrorKind::PathRecordTruncated => "truncated path-table directory record"@,
        ErrorKind::PathRecordEmpty => "empty path-table directory identifier"@,
        ErrorKind::PathRecordIdentifierTruncated => "truncated path-table directory identifier"@,
        ErrorKind::ReferenceNotInTable => "directory reference is absent from path table: "@,
        ErrorKind::ReferenceDisagrees => "directory reference disagrees with path table: "@,
        ErrorKind::ReferenceHasChildren => "directory reference has path-table children: "@,
        ErrorKind::ReferenceNotPlaced => "directory reference is absent from path tables: "@,
        ErrorKind::JolietOddLength => "Joliet identifier has an odd byte length"@,
        ErrorKind::JolietUtf16 => "invalid Joliet UCS-2 identifier"@,
        ErrorKind::JolietNotUcs2 => "Joliet identifier contains a non-UCS-2 character"@,
        ErrorKind::JolietIdentifierLength => "Joliet identifier must contain between 1 and 64 UCS-2 characters"@,
        ErrorKind::JolietFixedLong => "fixed Joliet string is too long"@,
        ErrorKind::JolietFixedOddByte => "even-length Joliet string has an odd byte"@,
        ErrorKind::EscapeSequence => "unsupported volume-descriptor escape sequence"@,
        ErrorKind::JolietPadding => "unsupported Joliet string padding"@,
        ErrorKind::JolietPaddingMixed => "mixed Joliet string padding"@,
        ErrorKind::VolumeSize => "invalid volume size"@,
        ErrorKind::VolumeSetSize => "unsupported volume set size"@,
        ErrorKind::VolumeSequence => "unsupported volume sequence number"@,
        ErrorKind::VolumeBlockSize => "unsupported logical block size"@,
        ErrorKind::FileStructureVersion => "unsupported file structure version"@,
        ErrorKind::RootIdentifier => "unsupported PVD root directory identifier "@,
        ErrorKind::ApplicationUseCombined => ""@,
        ErrorKind::ApplicationUseHex => "decoding "@,
        ErrorKind::ApplicationUseLength => ""@,
        ErrorKind::ReservedHex => "decoding "@,
        ErrorKind::ReservedLength => ""@,
        ErrorKind::RootRecordLength => ""@,
        ErrorKind::JolietOddBytesHex => "decoding Joliet file_identifier_odd_bytes_hex"@,
        ErrorKind::JolietOddBytesLength => "Joliet file_identifier_odd_bytes_hex must contain exactly 3 bytes"@,
        ErrorKind::JolietSetIdentifierHex => "decoding Joliet volume_set_identifier_raw_hex"@,
        ErrorKind::JolietSetIdentifierLength => "Joliet volume_set_identifier_raw_hex must contain exactly 128 bytes"@,
        ErrorKind::IsoPath => "invalid relative ISO path"@,
        ErrorKind::PathTraversal => "path traversal is forbidden"@,
        ErrorKind::FileNotLevel1 => "file name is not ISO Level 1: "@,
        ErrorKind::FileCharacters => "invalid ISO file characters: "@,
        ErrorKind::DirectoryNotLevel1 => "directory name is not ISO Level 1: "@,
        ErrorKind::NonstandardIdentifier => "invalid nonstandard ASCII ISO identifier: "@,
        ErrorKind::JolietPath => "invalid Joliet path \""@,
        ErrorKind::JolietPathComponent => "invalid Joliet path component \""@,
        ErrorKind::UnreachableDirectory => "unreachable directory in manifest"@,
        ErrorKind::UnreachableJolietDirectory => "unreachable Joliet directory in manifest"@,
        ErrorKind::FileLength => "file length exceeds ISO 9660 limit"@,
        ErrorKind::Mode2LengthPartial => "mode2_2336 length encoding requires a whole-sector physical extent: "@,
        ErrorKind::Mode2LengthOverflow => "mode2_2336 directory-record length overflow"@,
        ErrorKind::SlackHex => "decoding directory_slack for "@,
        ErrorKind::SlackEmpty => "directory_slack must contain at least one byte: "@,
        ErrorKind::SlackOverlap => "directory_slack overlaps generated records for "@,
        ErrorKind::SlackBeyond => "directory_slack extends beyond the directory extent for "@,
        ErrorKind::FileNotPlaced => "no extent was placed for "@,
        ErrorKind::SubheaderOfEmpty => "noncanonical-subheader file cannot be empty"@,
        ErrorKind::PlacementOverflow => "extent placement overflow"@,
        ErrorKind::DirectoryNotPlaced => "no "@,
        ErrorKind::GapOverflow => "gap placement overflow"@,
        ErrorKind::DirectoryPlacedTwice => ""@,
        ErrorKind::ExtentData => "missing unreferenced XA extent data for "@,
        ErrorKind::ExtentSectors => "unreferenced XA extent must contain whole sectors"@,
        ErrorKind::ExtentOverflow => "unreferenced XA extent placement overflow"@,
        ErrorKind::FileData => "missing file data for "@,
        ErrorKind::MetadataDirectoryOverflow => "metadata directory placement overflow"@,
        ErrorKind::MetadataTableOverflow => "metadata path-table placement overflow"@,
        ErrorKind::MetadataGapOverflow => "metadata gap placement overflow"@,
        ErrorKind::SettingFileStructure => "file_structure_version must be 0 or omitted for the standard value 1"@,
        ErrorKind::SettingCopies => "primary_volume_copies must be between 1 and 3"@,
        ErrorKind::SettingSupplementary => "at most one Joliet supplementary volume is supported"@,
        ErrorKind::MetadataTableDuplicate => "duplicate metadata path-table placement"@,
        ErrorKind::MetadataDirectoriesDuplicate => "duplicate metadata directory placement"@,
        ErrorKind::MetadataGap => "Joliet metadata gaps must be nonempty Mode 1 or XA gaps"@,
        ErrorKind::MetadataWithoutJoliet => "metadata_layout requires a Joliet supplementary volume"@,
        ErrorKind::MetadataTables => "Joliet metadata layout requires one primary path table of each endian"@,
        ErrorKind::MetadataIncomplete => "metadata_layout must place every primary and Joliet path table exactly once"@,
        ErrorKind::MetadataFraming => "custom metadata framing requires the canonical Form 1 metadata policy"@,
        ErrorKind::PathTableFraming => "custom path-table framing requires a Form 1 data policy"@,
        ErrorKind::RootMissing => "filesystem root must be the first entry"@,
        ErrorKind::RootNotFirst => "filesystem root must be the first entry with path ."@,
        ErrorKind::DuplicatePath => "duplicate ISO path "@,
        ErrorKind::AssetEmpty => "unreferenced XA asset path must not be empty"@,
        ErrorKind::AssetCollides => "unreferenced XA asset path collides with ISO entry "@,
        ErrorKind::AssetDuplicate => "duplicate unreferenced XA asset path "@,
        ErrorKind::GapEmpty => "physical gap must contain at least one sector"@,
        ErrorKind::GapRedundant => "consecutive identical physical gaps are redundant"@,
        ErrorKind::GapForm2Edc => "form2_edc is valid only on a Form 2 gap"@,
        ErrorKind::GapNotFinal => "XA and raw-zero gaps must end files list"@,
        ErrorKind::GapForm1Subheader => "Form 1 gap requires an XA subheader"@,
        ErrorKind::GapForm1Form2 => "Form 1 gap subheader cannot declare Form 2"@,
        ErrorKind::GapSubheader => "only a Form 1 gap may declare an XA subheader"@,
        ErrorKind::RootIsFile => "filesystem root cannot be a file"@,
        ErrorKind::UnknownFile => "unknown file entry "@,
        ErrorKind::ReferenceInFiles => "fixed-reference entry cannot appear in files: "@,
        ErrorKind::DuplicateFile => "duplicate file entry "@,
        ErrorKind::UnknownDirectory => "unknown "@,
        ErrorKind::DirectoryGroup => "directory group and individual placements cannot both place "@,
        ErrorKind::RootPlacement => "filesystem root placement is fixed without Joliet metadata layout"@,
        ErrorKind::DuplicateDirectory => "duplicate "@,
        ErrorKind::OmissionWithoutXa => "xa_system_use_omissions requires xa_system_use"@,
        ErrorKind::OmissionDuplicate => "duplicate XA system-use omission "@,
        ErrorKind::OmissionNotFile => "XA system-use omission must name a file entry: "@,
        ErrorKind::PlacementNamesFile => ""@,
        ErrorKind::PlacementOfReference => "directory reference cannot have a physical directory placement: "@,
        ErrorKind::JolietEscape => "Joliet descriptor escape sequence is selected by level"@,
        ErrorKind::JolietOddBytes => "Joliet file_identifier_odd_bytes_hex must contain exactly 3 bytes"@,
        ErrorKind::JolietSetIdentifier => "Joliet volume_set_identifier_raw_hex requires an empty structured value and exactly 128 raw bytes"@,
        ErrorKind::JolietRootMissing => "Joliet filesystem root must be the first entry"@,
        ErrorKind::JolietRootNotFirst => "Joliet filesystem root must be the first directory entry"@,
        ErrorKind::JolietParentMissing => "missing Joliet parent directory "@,
        ErrorKind::JolietParentFile => "Joliet parent is not a directory: "@,
        ErrorKind::JolietXa => "Joliet XA fields require xa_system_use: "@,
        ErrorKind::JolietXaFields => "Joliet entries support only directory-record XA fields: "@,
        ErrorKind::JolietDuplicate => "duplicate Joliet path "@,
        ErrorKind::JolietSource => "Joliet source does not name a primary file: "@,
        ErrorKind::JolietOmitVersion => "omit_version is supported only for Joliet files: "@,
        ErrorKind::ReferenceNotDirectory => "directory_reference is supported only for non-root directories: "@,
        ErrorKind::ReferenceLength => "directory_reference currently requires a zero length: "@,
        ErrorKind::ReferenceCombined => "directory_reference cannot be combined with a file fixed reference: "@,
        ErrorKind::ReferenceData => "directory_reference cannot have physical directory data: "@,
        ErrorKind::ReferenceChildren => "directory_reference must be childless: "@,
        ErrorKind::ExtentIncomplete => "fixed-reference entry requires both extent and length: "@,
        ErrorKind::CddaExtent => "external CDDA entry requires a fixed extent and length: "@,
        ErrorKind::UnbackedReference => "unbacked entry requires a nonempty non-CDDA fixed reference: "@,
        ErrorKind::ExtentKind => "fixed extent and length require external CDDA, Form 2 XA attributes, or unbacked: "@,
        ErrorKind::UnbackedNotFile => "unbacked is supported only for files: "@,
        ErrorKind::SlackOfFile => "directory_slack is supported only for directories: "@,
        ErrorKind::PaddingOfDirectory => "allocation_padding_hex is supported only for files: "@,
        ErrorKind::XaDirectoryAssets => "directory entry cannot have mixed XA framing: "@,
        ErrorKind::XaAssetsIncomplete => "interleaved XA entry requires Form 1, Form 2, and index assets: "@,
        ErrorKind::XaFraming => "custom XA framing requires a data-framed Form 1 directory entry: "@,
        ErrorKind::PaddingOfReference => "allocation_padding_hex is unsupported for fixed-reference or mixed XA entry: "@,
        ErrorKind::UnbackedXa => "unbacked file cannot declare mixed XA framing: "@,
        ErrorKind::XaLogicalLength => "XA logical length requires a nonempty indexed file extent: "@,
        ErrorKind::XaLengthEncoding => "XA length encoding requires an indexed file extent without logical_length: "@,
        ErrorKind::XaGapIndex => "XA gap index requires interleaved XA assets: "@,
        ErrorKind::XaAttributesAssets => "interleaved or Form 2 file attributes require indexed assets or a fixed reference: "@,
        ErrorKind::SubheaderOfReference => "data sector subheader policy is unsupported for fixed-reference or mixed XA entry: "@,
        ErrorKind::SubheaderOfFile => "data_until_final sector subheader policy is supported only for directories: "@,
        ErrorKind::ParentMissing => "missing parent directory "@,
        ErrorKind::TableSizeZero => "path_table_size must be nonzero"@,
        ErrorKind::TableAllocation => "path_table_size must retain the generated physical allocation"@,
        ErrorKind::TableStride => "path-table allocation stride overflow"@,
        ErrorKind::JolietTableAllocation => "Joliet path_table_size must retain the generated physical allocation"@,
        ErrorKind::JolietUnplaced => "Joliet metadata/files layout must place every primary and Joliet directory exactly once"@,
        ErrorKind::VolumeOverflow => "volume size overflow"@,
        ErrorKind::ReferenceOverflow => "fixed XA reference overflow"@,
        ErrorKind::ReferenceUnbacked => "fixed XA reference is not backed by a physical XA extent: "@,
        ErrorKind::FixedReferenceOverflow => "fixed reference extent overflow"@,
        ErrorKind::VolumeSpaceZero => "volume_space_size must be nonzero"@,
        ErrorKind::TableLittleHex => "decoding path_table_little_hex"@,
        ErrorKind::TableBigHex => "decoding path_table_big_hex"@,
        ErrorKind::TableHexPair => "path_table_little_hex and path_table_big_hex must be used together"@,
        ErrorKind::TableHexSize => "raw path tables must each contain exactly "@,
        ErrorKind::PaddingAligned => "allocation_padding_hex requires a file whose length is not block-aligned: "@,
        ErrorKind::PaddingHex => "decoding allocation_padding_hex for "@,
        ErrorKind::PaddingInvalid => "invalid allocation_padding_hex for "@,
        ErrorKind::RecordTruncated => "truncated directory record"@,
        ErrorKind::DirectoryOutside => "directory extent is outside image"@,
        ErrorKind::IdentifierUtf8 => "non-ASCII ISO identifier"@,
        ErrorKind::VersionMissing => "file identifier has no version"@,
        ErrorKind::VersionInvalid => "invalid file version"@,
        ErrorKind::VersionUnsupported => "unsupported file version"@,
        ErrorKind::IdentifierNotAscii => "unsupported non-ASCII ISO identifier: "@,
        ErrorKind::XaOmission => "XA system-use omission is supported only for file records"@,
        ErrorKind::DirectoryEntryMissing => "directory entry is missing"@,
        ErrorKind::ParentEntryMissing => "parent directory entry is missing"@,
        ErrorKind::ParentTimeUnsupported => "directory parent record has an unsupported recording time: "@,
        ErrorKind::ParentTimesInconsistent => "directories use inconsistent parent-record recording times"@,
        ErrorKind::DotRecordsMissing => "directory lacks dot records"@,
        ErrorKind::ReadingDirectory => "reading directory "@,
        ErrorKind::DirectoryCycle => "directory extent cycle at LBA "@,
        ErrorKind::JolietVersion => "unsupported Joliet file version"@,
        ErrorKind::JolietSourceMissing => "Joliet file has no matching primary extent and length"@,
        ErrorKind::JolietSourceAmbiguous => "Joliet file extent and length match multiple primary files"@,
        ErrorKind::JolietSlack => "unsupported Joliet directory slack"@,
        ErrorKind::JolietDotRecordsMissing => "Joliet directory lacks dot records"@,
        ErrorKind::JolietDirectoryCycle => "Joliet directory extent cycle at LBA "@,
        ErrorKind::JolietTableParent => "Joliet path-table parent is missing"@,
        ErrorKind::MetadataTableExtent => "metadata path-table extent overflow"@,
        ErrorKind::MetadataDirectoryExtent => "metadata directory extent overflow"@,
        ErrorKind::MetadataOverlap => "overlapping ISO metadata extents"@,
        ErrorKind::MetadataNonzero => "unsupported nonzero sectors between ISO metadata extents"@,
        ErrorKind::JolietVolumeMissing => "missing Joliet volume"@,
        ErrorKind::JolietRootEntry => "missing Joliet root entry"@,
        ErrorKind::DirectoryLengthsInconsistent => "primary and Joliet directories use inconsistent recorded lengths"@,
        ErrorKind::JolietTableSize => "invalid Joliet path table size"@,
        ErrorKind::JolietTables => "Joliet volume requires one little- and one big-endian path table"@,
        ErrorKind::JolietTableOutside => "Joliet path table extent is outside image"@,
        ErrorKind::JolietRootSystemUse => "unsupported Joliet descriptor root system-use data"@,
        ErrorKind::JolietRootDots => "Joliet root directory lacks dot records"@,
        ErrorKind::JolietTableAllocationChanged => "Joliet path table size changes its physical allocation"@,
        ErrorKind::PrimaryCopiesDiffer => "additional primary volume descriptors must be identical"@,
        ErrorKind::ImageTooSmall => "image is too small for ISO 9660"@,
        ErrorKind::PrimaryMissing => "missing supported PVD at LBA 16"@,
        ErrorKind::PrimaryCopyCount => "unsupported primary volume descriptor copy count "@,
        ErrorKind::TerminatorMissing => "expected volume terminator at LBA "@,
        ErrorKind::SpaceSize => "invalid volume space size"@,
        ErrorKind::TableSize => "invalid path table size"@,
        ErrorKind::TableMissing => "missing required path table"@,
        ErrorKind::TableCopies => "optional path-table copies must both be present or absent"@,
        ErrorKind::TablesShared => "little- and big-endian path tables share one extent"@,
        ErrorKind::TableOutside => "path table extent is outside image"@,
        ErrorKind::RootSystemUse => "unsupported PVD root directory-record system-use data"@,
        ErrorKind::RootLength => "unsupported PVD root directory-record length "@,
        ErrorKind::RootDots => "root directory lacks dot records"@,
        ErrorKind::ReadingRoot => "reading root directory"@,
        ErrorKind::CddaLength => "external CDDA entry has no length"@,
        ErrorKind::CddaOverflow => "external CDDA extent overflow"@,
        ErrorKind::TableParent => "path table directory parent is missing"@,
        ErrorKind::GeneratedTableOverflow => "path table size overflow"@,
        ErrorKind::TableSizeAllocation => "PVD path table size changes the physical path table allocation"@,
        ErrorKind::LittleCopiesDiffer => "little-endian path table copies differ"@,
        ErrorKind::BigCopiesDiffer => "big-endian path table copies differ"@,
        ErrorKind::PackingInconsistent => "directories use inconsistent exact-fit record packing"@,
        ErrorKind::JolietTableCopies => "Joliet support requires single primary path-table copies"@,
        ErrorKind::InvalidBcd => "invalid BCD value "@,
        ErrorKind::InvalidMsf => "invalid MSF value"@,
        ErrorKind::MsfRange => "MSF exceeds two-digit BCD range"@,
        ErrorKind::MsfComponent => "invalid MSF component"@,
        ErrorKind::MsfForm => "MSF must have MM:SS:FF form"@,
        ErrorKind::SectorSize => "raw sector must be 2352 bytes"@,
        ErrorKind::PatchedMode => "unsupported patched sector mode "@,
        ErrorKind::Mode1Protection => "Mode 1 protection requires sector mode 1"@,
        ErrorKind::Form1Protection => "Form 1 protection requires a non-Form-2 subheader"@,
        ErrorKind::Form2Protection => "Form 2 protection requires a Form 2 subheader"@,
        ErrorKind::RecordedHeaderProtection => "recorded-header ECC requires a non-Form-2 subheader"@,
        ErrorKind::Mode1Payload => "Mode 1 payload must be 2048 bytes"@,
        ErrorKind::Form1Payload => "Form 1 payload must be 2048 bytes"@,
        ErrorKind::Form2Payload => "Form 2 payload must be 2324 bytes"@,
        ErrorKind::Mode1Edc => "invalid Mode 1 EDC at sector "@,
        ErrorKind::Mode1Ecc => "invalid Mode 1 ECC at sector "@,
        ErrorKind::Mode1InMode2 => "non-gap Mode 1 sector in Mode 2 track at sector "@,
        ErrorKind::Mode2Sector => "unsupported or invalid Mode 2 sector at sector "@,
        ErrorKind::ZeroSector => "all-zero raw sectors are supported only as boundary runs"@,
        ErrorKind::SectorSync => "invalid sync at sector "@,
        ErrorKind::SectorModeMixed => "mixed or unsupported sector mode at sector "@,
        ErrorKind::SectorMsf => "non-monotonic MSF at sector "@,
        ErrorKind::ImageSize => "raw image size is not a multiple of 2352 bytes"@,
        ErrorKind::ImageEmpty => "raw image is empty"@,
        ErrorKind::ImageZero => "raw image contains only all-zero sectors"@,
        ErrorKind::SectorMode => "unsupported sector mode at sector "@,
        ErrorKind::LeadingZeros => "leading raw-zero sectors precede MSF 00:00:00"@,
        ErrorKind::PpfRecordLength => "PPF2 record length must be between 1 and 255 bytes"@,
        ErrorKind::PpfRecordRange => "PPF2 record exceeds the 32-bit target range"@,
        ErrorKind::PpfTargetSmall => "PPF2 target is too small for the standard block check"@,
        ErrorKind::PpfRecordOutside => "PPF2 record exceeds the target image"@,
        ErrorKind::PpfRecordHeader => "truncated PPF2 record header"@,
        ErrorKind::PpfRecordEmpty => "PPF2 record has zero length"@,
        ErrorKind::PpfRecordData => "truncated PPF2 record data"@,
        ErrorKind::PpfShort => "PPF2 file is shorter than its header"@,
        ErrorKind::PpfMagic => "unsupported PPF magic"@,
        ErrorKind::PpfEncoding => "unsupported PPF2 encoding method "@,
        ErrorKind::PpfTargetSize => "PPF2 target size does not match the canonical image"@,
        ErrorKind::PpfBlockCheck => "PPF2 block check does not match the canonical image"@,
        ErrorKind::PpfSectorSize => "PPF2 sector size must not be zero"@,
        ErrorKind::TrackMode => "track mode must be 1, 2, or 2xa"@,
        ErrorKind::Form1SectorsText => "unknown form1_sectors value \""@,
        ErrorKind::SystemAreaContent => "system content exceeds system area"@,
        ErrorKind::SystemAreaSectors => "system content exceeds configured Form 1 sectors"@,
        ErrorKind::PatchHex => "decoding patch at LBA "@,
        ErrorKind::PatchLength => "patch at LBA "@,
        ErrorKind::XaLengths => "XA length encoding cannot be combined with logical_length"@,
        ErrorKind::XaLengthNumber => "XA length encoding must be 2048 or 2336, not "@,
        ErrorKind::OutputName => ""@,
    }
}

fn find_head(kind: ErrorKind) -> (text: &'static str)
    ensures
        text@ == head_of(kind),
{
    match kind {
        ErrorKind::IntegerConversion => "out of range integral type conversion attempted",
        ErrorKind::DuplicateSubmodeFlag => "duplicate XA submode flag ",
        ErrorKind::DuplicateAttributeFlag => "duplicate XA attribute flag ",
        ErrorKind::TimeMonth => "invalid volume time month",
        ErrorKind::TimeDay => "invalid volume time day",
        ErrorKind::TimeHour => "invalid volume time hour",
        ErrorKind::TimeMinute => "invalid volume time minute",
        ErrorKind::TimeSecond => "invalid volume time second",
        ErrorKind::TimeCentisecond => "invalid volume time centisecond",
        ErrorKind::TimeOffset => "volume time offset is outside the ISO 9660 range",
        ErrorKind::RawTimeHex => "invalid raw ",
        ErrorKind::RawTimeLength => "raw ",
        ErrorKind::DecimalDigit => "decimal field contains a non-digit",
        ErrorKind::TimeFormat => "volume time must use YYYY-MM-DDTHH:MM:SS.cc+HH:MM",
        ErrorKind::TimeDigits => "volume time contains a non-digit component",
        ErrorKind::TimeOffsetMinutes => "invalid volume time offset minutes",
        ErrorKind::TimeOffsetStep => "volume time offset must use fifteen-minute increments",
        ErrorKind::TimeNegativeZero => "negative zero volume time offset is not canonical",
        ErrorKind::RecordingTimeFormat => "recording time must use YYYY-MM-DDTHH:MM:SS+HH:MM",
        ErrorKind::RecordingTime => "invalid directory recording time",
        ErrorKind::RecordingTimeYear => "directory recording time year must be between 1900 and 2155",
        ErrorKind::VolumeTimeLength => "volume time must contain seventeen bytes",
        ErrorKind::MismatchedU16 => "mismatched both-endian u16 at offset ",
        ErrorKind::MismatchedU32 => "mismatched both-endian u32 at offset ",
        ErrorKind::PvdU16Fields => "unsupported PVD 16-bit both-endian field encoding",
        ErrorKind::FixedStringUtf8 => "fixed ISO string is not valid text",
        ErrorKind::FixedString => "fixed ISO string is too long or non-ASCII",
        ErrorKind::RecordTooLong => "directory record is too long",
        ErrorKind::RecordShort => "short directory record",
        ErrorKind::RecordLength => "invalid directory record length",
        ErrorKind::RecordIdentifierLength => "invalid identifier length",
        ErrorKind::RecordPadding => "invalid directory record padding",
        ErrorKind::RecordFlags => "unsupported directory-record flags",
        ErrorKind::RecordFileUnitSize => "unsupported directory-record file unit size",
        ErrorKind::RecordInterleaveGap => "unsupported directory-record interleave gap size",
        ErrorKind::RecordVolumeSequence => "unsupported directory-record volume sequence number",
        ErrorKind::RecordSystemUse => "unsupported PVD root directory-record system-use data",
        ErrorKind::RecordXaSystemUse => "unsupported directory-record XA system-use data",
        ErrorKind::RecordFileDirectoryAttribute => "file directory record has XA directory attribute",
        ErrorKind::EntryDirectoryAttribute => "file entry has XA directory attribute: ",
        ErrorKind::EntryPermissions => "XA permissions overlap attribute bits for ",
        ErrorKind::PathRecordTruncated => "truncated path-table directory record",
        ErrorKind::PathRecordEmpty => "empty path-table directory identifier",
        ErrorKind::PathRecordIdentifierTruncated => "truncated path-table directory identifier",
        ErrorKind::ReferenceNotInTable => "directory reference is absent from path table: ",
        ErrorKind::ReferenceDisagrees => "directory reference disagrees with path table: ",
        ErrorKind::ReferenceHasChildren => "directory reference has path-table children: ",
        ErrorKind::ReferenceNotPlaced => "directory reference is absent from path tables: ",
        ErrorKind::JolietOddLength => "Joliet identifier has an odd byte length",
        ErrorKind::JolietUtf16 => "invalid Joliet UCS-2 identifier",
        ErrorKind::JolietNotUcs2 => "Joliet identifier contains a non-UCS-2 character",
        ErrorKind::JolietIdentifierLength => "Joliet identifier must contain between 1 and 64 UCS-2 characters",
        ErrorKind::JolietFixedLong => "fixed Joliet string is too long",
        ErrorKind::JolietFixedOddByte => "even-length Joliet string has an odd byte",
        ErrorKind::EscapeSequence => "unsupported volume-descriptor escape sequence",
        ErrorKind::JolietPadding => "unsupported Joliet string padding",
        ErrorKind::JolietPaddingMixed => "mixed Joliet string padding",
        ErrorKind::VolumeSize => "invalid volume size",
        ErrorKind::VolumeSetSize => "unsupported volume set size",
        ErrorKind::VolumeSequence => "unsupported volume sequence number",
        ErrorKind::VolumeBlockSize => "unsupported logical block size",
        ErrorKind::FileStructureVersion => "unsupported file structure version",
        ErrorKind::RootIdentifier => "unsupported PVD root directory identifier ",
        ErrorKind::ApplicationUseCombined => "",
        ErrorKind::ApplicationUseHex => "decoding ",
        ErrorKind::ApplicationUseLength => "",
        ErrorKind::ReservedHex => "decoding ",
        ErrorKind::ReservedLength => "",
        ErrorKind::RootRecordLength => "",
        ErrorKind::JolietOddBytesHex => "decoding Joliet file_identifier_odd_bytes_hex",
        ErrorKind::JolietOddBytesLength => "Joliet file_identifier_odd_bytes_hex must contain exactly 3 bytes",
        ErrorKind::JolietSetIdentifierHex => "decoding Joliet volume_set_identifier_raw_hex",
        ErrorKind::JolietSetIdentifierLength => "Joliet volume_set_identifier_raw_hex must contain exactly 128 bytes",
        ErrorKind::IsoPath => "invalid relative ISO path",
        ErrorKind::PathTraversal => "path traversal is forbidden",
        ErrorKind::FileNotLevel1 => "file name is not ISO Level 1: ",
        ErrorKind::FileCharacters => "invalid ISO file characters: ",
        ErrorKind::DirectoryNotLevel1 => "directory name is not ISO Level 1: ",
        ErrorKind::NonstandardIdentifier => "invalid nonstandard ASCII ISO identifier: ",
        ErrorKind::JolietPath => "invalid Joliet path \"",
        ErrorKind::JolietPathComponent => "invalid Joliet path component \"",
        ErrorKind::UnreachableDirectory => "unreachable directory in manifest",
        ErrorKind::UnreachableJolietDirectory => "unreachable Joliet directory in manifest",
        ErrorKind::FileLength => "file length exceeds ISO 9660 limit",
        ErrorKind::Mode2LengthPartial => "mode2_2336 length encoding requires a whole-sector physical extent: ",
        ErrorKind::Mode2LengthOverflow => "mode2_2336 directory-record length overflow",
        ErrorKind::SlackHex => "decoding directory_slack for ",
        ErrorKind::SlackEmpty => "directory_slack must contain at least one byte: ",
        ErrorKind::SlackOverlap => "directory_slack overlaps generated records for ",
        ErrorKind::SlackBeyond => "directory_slack extends beyond the directory extent for ",
        ErrorKind::FileNotPlaced => "no extent was placed for ",
        ErrorKind::SubheaderOfEmpty => "noncanonical-subheader file cannot be empty",
        ErrorKind::PlacementOverflow => "extent placement overflow",
        ErrorKind::DirectoryNotPlaced => "no ",
        ErrorKind::GapOverflow => "gap placement overflow",
        ErrorKind::DirectoryPlacedTwice => "",
        ErrorKind::ExtentData => "missing unreferenced XA extent data for ",
        ErrorKind::ExtentSectors => "unreferenced XA extent must contain whole sectors",
        ErrorKind::ExtentOverflow => "unreferenced XA extent placement overflow",
        ErrorKind::FileData => "missing file data for ",
        ErrorKind::MetadataDirectoryOverflow => "metadata directory placement overflow",
        ErrorKind::MetadataTableOverflow => "metadata path-table placement overflow",
        ErrorKind::MetadataGapOverflow => "metadata gap placement overflow",
        ErrorKind::SettingFileStructure => "file_structure_version must be 0 or omitted for the standard value 1",
        ErrorKind::SettingCopies => "primary_volume_copies must be between 1 and 3",
        ErrorKind::SettingSupplementary => "at most one Joliet supplementary volume is supported",
        ErrorKind::MetadataTableDuplicate => "duplicate metadata path-table placement",
        ErrorKind::MetadataDirectoriesDuplicate => "duplicate metadata directory placement",
        ErrorKind::MetadataGap => "Joliet metadata gaps must be nonempty Mode 1 or XA gaps",
        ErrorKind::MetadataWithoutJoliet => "metadata_layout requires a Joliet supplementary volume",
        ErrorKind::MetadataTables => "Joliet metadata layout requires one primary path table of each endian",
        ErrorKind::MetadataIncomplete => "metadata_layout must place every primary and Joliet path table exactly once",
        ErrorKind::MetadataFraming => "custom metadata framing requires the canonical Form 1 metadata policy",
        ErrorKind::PathTableFraming => "custom path-table framing requires a Form 1 data policy",
        ErrorKind::RootMissing => "filesystem root must be the first entry",
        ErrorKind::RootNotFirst => "filesystem root must be the first entry with path .",
        ErrorKind::DuplicatePath => "duplicate ISO path ",
        ErrorKind::AssetEmpty => "unreferenced XA asset path must not be empty",
        ErrorKind::AssetCollides => "unreferenced XA asset path collides with ISO entry ",
        ErrorKind::AssetDuplicate => "duplicate unreferenced XA asset path ",
        ErrorKind::GapEmpty => "physical gap must contain at least one sector",
        ErrorKind::GapRedundant => "consecutive identical physical gaps are redundant",
        ErrorKind::GapForm2Edc => "form2_edc is valid only on a Form 2 gap",
        ErrorKind::GapNotFinal => "XA and raw-zero gaps must end files list",
        ErrorKind::GapForm1Subheader => "Form 1 gap requires an XA subheader",
        ErrorKind::GapForm1Form2 => "Form 1 gap subheader cannot declare Form 2",
        ErrorKind::GapSubheader => "only a Form 1 gap may declare an XA subheader",
        ErrorKind::RootIsFile => "filesystem root cannot be a file",
        ErrorKind::UnknownFile => "unknown file entry ",
        ErrorKind::ReferenceInFiles => "fixed-reference entry cannot appear in files: ",
        ErrorKind::DuplicateFile => "duplicate file entry ",
        ErrorKind::UnknownDirectory => "unknown ",
        ErrorKind::DirectoryGroup => "directory group and individual placements cannot both place ",
        ErrorKind::RootPlacement => "filesystem root placement is fixed without Joliet metadata layout",
        ErrorKind::DuplicateDirectory => "duplicate ",
        ErrorKind::OmissionWithoutXa => "xa_system_use_omissions requires xa_system_use",
        ErrorKind::OmissionDuplicate => "duplicate XA system-use omission ",
        ErrorKind::OmissionNotFile => "XA system-use omission must name a file entry: ",
        ErrorKind::PlacementNamesFile => "",
        ErrorKind::PlacementOfReference => "directory reference cannot have a physical directory placement: ",
        ErrorKind::JolietEscape => "Joliet descriptor escape sequence is selected by level",
        ErrorKind::JolietOddBytes => "Joliet file_identifier_odd_bytes_hex must contain exactly 3 bytes",
        ErrorKind::JolietSetIdentifier => "Joliet volume_set_identifier_raw_hex requires an empty structured value and exactly 128 raw bytes",
        ErrorKind::JolietRootMissing => "Joliet filesystem root must be the first entry",
        ErrorKind::JolietRootNotFirst => "Joliet filesystem root must be the first directory entry",
        ErrorKind::JolietParentMissing => "missing Joliet parent directory ",
        ErrorKind::JolietParentFile => "Joliet parent is not a directory: ",
        ErrorKind::JolietXa => "Joliet XA fields require xa_system_use: ",
        ErrorKind::JolietXaFields => "Joliet entries support only directory-record XA fields: ",
        ErrorKind::JolietDuplicate => "duplicate Joliet path ",
        ErrorKind::JolietSource => "Joliet source does not name a primary file: ",
        ErrorKind::JolietOmitVersion => "omit_version is supported only for Joliet files: ",
        ErrorKind::ReferenceNotDirectory => "directory_reference is supported only for non-root directories: ",
        ErrorKind::ReferenceLength => "directory_reference currently requires a zero length: ",
        ErrorKind::ReferenceCombined => "directory_reference cannot be combined with a file fixed reference: ",
        ErrorKind::ReferenceData => "directory_reference cannot have physical directory data: ",
        ErrorKind::ReferenceChildren => "directory_reference must be childless: ",
        ErrorKind::ExtentIncomplete => "fixed-reference entry requires both extent and length: ",
        ErrorKind::CddaExtent => "external CDDA entry requires a fixed extent and length: ",
        ErrorKind::UnbackedReference => "unbacked entry requires a nonempty non-CDDA fixed reference: ",
        ErrorKind::ExtentKind => "fixed extent and length require external CDDA, Form 2 XA attributes, or unbacked: ",
        ErrorKind::UnbackedNotFile => "unbacked is supported only for files: ",
        ErrorKind::SlackOfFile => "directory_slack is supported only for directories: ",
        ErrorKind::PaddingOfDirectory => "allocation_padding_hex is supported only for files: ",
        ErrorKind::XaDirectoryAssets => "directory entry cannot have mixed XA framing: ",
        ErrorKind::XaAssetsIncomplete => "interleaved XA entry requires Form 1, Form 2, and index assets: ",
        ErrorKind::XaFraming => "custom XA framing requires a data-framed Form 1 directory entry: ",
        ErrorKind::PaddingOfReference => "allocation_padding_hex is unsupported for fixed-reference or mixed XA entry: ",
        ErrorKind::UnbackedXa => "unbacked file cannot declare mixed XA framing: ",
        ErrorKind::XaLogicalLength => "XA logical length requires a nonempty indexed file extent: ",
        ErrorKind::XaLengthEncoding => "XA length encoding requires an indexed file extent without logical_length: ",
        ErrorKind::XaGapIndex => "XA gap index requires interleaved XA assets: ",
        ErrorKind::XaAttributesAssets => "interleaved or Form 2 file attributes require indexed assets or a fixed reference: ",
        ErrorKind::SubheaderOfReference => "data sector subheader policy is unsupported for fixed-reference or mixed XA entry: ",
        ErrorKind::SubheaderOfFile => "data_until_final sector subheader policy is supported only for directories: ",
        ErrorKind::ParentMissing => "missing parent directory ",
        ErrorKind::TableSizeZero => "path_table_size must be nonzero",
        ErrorKind::TableAllocation => "path_table_size must retain the generated physical allocation",
        ErrorKind::TableStride => "path-table allocation stride overflow",
        ErrorKind::JolietTableAllocation => "Joliet path_table_size must retain the generated physical allocation",
        ErrorKind::JolietUnplaced => "Joliet metadata/files layout must place every primary and Joliet directory exactly once",
        ErrorKind::VolumeOverflow => "volume size overflow",
        ErrorKind::ReferenceOverflow => "fixed XA reference overflow",
        ErrorKind::ReferenceUnbacked => "fixed XA reference is not backed by a physical XA extent: ",
        ErrorKind::FixedReferenceOverflow => "fixed reference extent overflow",
        ErrorKind::VolumeSpaceZero => "volume_space_size must be nonzero",
        ErrorKind::TableLittleHex => "decoding path_table_little_hex",
        ErrorKind::TableBigHex => "decoding path_table_big_hex",
        ErrorKind::TableHexPair => "path_table_little_hex and path_table_big_hex must be used together",
        ErrorKind::TableHexSize => "raw path tables must each contain exactly ",
        ErrorKind::PaddingAligned => "allocation_padding_hex requires a file whose length is not block-aligned: ",
        ErrorKind::PaddingHex => "decoding allocation_padding_hex for ",
        ErrorKind::PaddingInvalid => "invalid allocation_padding_hex for ",
        ErrorKind::RecordTruncated => "truncated directory record",
        ErrorKind::DirectoryOutside => "directory extent is outside image",
        ErrorKind::IdentifierUtf8 => "non-ASCII ISO identifier",
        ErrorKind::VersionMissing => "file identifier has no version",
        ErrorKind::VersionInvalid => "invalid file version",
        ErrorKind::VersionUnsupported => "unsupported file version",
        ErrorKind::IdentifierNotAscii => "unsupported non-ASCII ISO identifier: ",
        ErrorKind::XaOmission => "XA system-use omission is supported only for file records",
        ErrorKind::DirectoryEntryMissing => "directory entry is missing",
        ErrorKind::ParentEntryMissing => "parent directory entry is missing",
        ErrorKind::ParentTimeUnsupported => "directory parent record has an unsupported recording time: ",
        ErrorKind::ParentTimesInconsistent => "directories use inconsistent parent-record recording times",
        ErrorKind::DotRecordsMissing => "directory lacks dot records",
        ErrorKind::ReadingDirectory => "reading directory ",
        ErrorKind::DirectoryCycle => "directory extent cycle at LBA ",
        ErrorKind::JolietVersion => "unsupported Joliet file version",
        ErrorKind::JolietSourceMissing => "Joliet file has no matching primary extent and length",
        ErrorKind::JolietSourceAmbiguous => "Joliet file extent and length match multiple primary files",
        ErrorKind::JolietSlack => "unsupported Joliet directory slack",
        ErrorKind::JolietDotRecordsMissing => "Joliet directory lacks dot records",
        ErrorKind::JolietDirectoryCycle => "Joliet directory extent cycle at LBA ",
        ErrorKind::JolietTableParent => "Joliet path-table parent is missing",
        ErrorKind::MetadataTableExtent => "metadata path-table extent overflow",
        ErrorKind::MetadataDirectoryExtent => "metadata directory extent overflow",
        ErrorKind::MetadataOverlap => "overlapping ISO metadata extents",
        ErrorKind::MetadataNonzero => "unsupported nonzero sectors between ISO metadata extents",
        ErrorKind::JolietVolumeMissing => "missing Joliet volume",
        ErrorKind::JolietRootEntry => "missing Joliet root entry",
        ErrorKind::DirectoryLengthsInconsistent => "primary and Joliet directories use inconsistent recorded lengths",
        ErrorKind::JolietTableSize => "invalid Joliet path table size",
        ErrorKind::JolietTables => "Joliet volume requires one little- and one big-endian path table",
        ErrorKind::JolietTableOutside => "Joliet path table extent is outside image",
        ErrorKind::JolietRootSystemUse => "unsupported Joliet descriptor root system-use data",
        ErrorKind::JolietRootDots => "Joliet root directory lacks dot records",
        ErrorKind::JolietTableAllocationChanged => "Joliet path table size changes its physical allocation",
        ErrorKind::PrimaryCopiesDiffer => "additional primary volume descriptors must be identical",
        ErrorKind::ImageTooSmall => "image is too small for ISO 9660",
        ErrorKind::PrimaryMissing => "missing supported PVD at LBA 16",
        ErrorKind::PrimaryCopyCount => "unsupported primary volume descriptor copy count ",
        ErrorKind::TerminatorMissing => "expected volume terminator at LBA ",
        ErrorKind::SpaceSize => "invalid volume space size",
        ErrorKind::TableSize => "invalid path table size",
        ErrorKind::TableMissing => "missing required path table",
        ErrorKind::TableCopies => "optional path-table copies must both be present or absent",
        ErrorKind::TablesShared => "little- and big-endian path tables share one extent",
        ErrorKind::TableOutside => "path table extent is outside image",
        ErrorKind::RootSystemUse => "unsupported PVD root directory-record system-use data",
        ErrorKind::RootLength => "unsupported PVD root directory-record length ",
        ErrorKind::RootDots => "root directory lacks dot records",
        ErrorKind::ReadingRoot => "reading root directory",
        ErrorKind::CddaLength => "external CDDA entry has no length",
        ErrorKind::CddaOverflow => "external CDDA extent overflow",
        ErrorKind::TableParent => "path table directory parent is missing",
        ErrorKind::GeneratedTableOverflow => "path table size overflow",
        ErrorKind::TableSizeAllocation => "PVD path table size changes the physical path table allocation",
        ErrorKind::LittleCopiesDiffer => "little-endian path table copies differ",
        ErrorKind::BigCopiesDiffer => "big-endian path table copies differ",
        ErrorKind::PackingInconsistent => "directories use inconsistent exact-fit record packing",
        ErrorKind::JolietTableCopies => "Joliet support requires single primary path-table copies",
        ErrorKind::InvalidBcd => "invalid BCD value ",
        ErrorKind::InvalidMsf => "invalid MSF value",
        ErrorKind::MsfRange => "MSF exceeds two-digit BCD range",
        ErrorKind::MsfComponent => "invalid MSF component",
        ErrorKind::MsfForm => "MSF must have MM:SS:FF form",
        ErrorKind::SectorSize => "raw sector must be 2352 bytes",
        ErrorKind::PatchedMode => "unsupported patched sector mode ",
        ErrorKind::Mode1Protection => "Mode 1 protection requires sector mode 1",
        ErrorKind::Form1Protection => "Form 1 protection requires a non-Form-2 subheader",
        ErrorKind::Form2Protection => "Form 2 protection requires a Form 2 subheader",
        ErrorKind::RecordedHeaderProtection => "recorded-header ECC requires a non-Form-2 subheader",
        ErrorKind::Mode1Payload => "Mode 1 payload must be 2048 bytes",
        ErrorKind::Form1Payload => "Form 1 payload must be 2048 bytes",
        ErrorKind::Form2Payload => "Form 2 payload must be 2324 bytes",
        ErrorKind::Mode1Edc => "invalid Mode 1 EDC at sector ",
        ErrorKind::Mode1Ecc => "invalid Mode 1 ECC at sector ",
        ErrorKind::Mode1InMode2 => "non-gap Mode 1 sector in Mode 2 track at sector ",
        ErrorKind::Mode2Sector => "unsupported or invalid Mode 2 sector at sector ",
        ErrorKind::ZeroSector => "all-zero raw sectors are supported only as boundary runs",
        ErrorKind::SectorSync => "invalid sync at sector ",
        ErrorKind::SectorModeMixed => "mixed or unsupported sector mode at sector ",
        ErrorKind::SectorMsf => "non-monotonic MSF at sector ",
        ErrorKind::ImageSize => "raw image size is not a multiple of 2352 bytes",
        ErrorKind::ImageEmpty => "raw image is empty",
        ErrorKind::ImageZero => "raw image contains only all-zero sectors",
        ErrorKind::SectorMode => "unsupported sector mode at sector ",
        ErrorKind::LeadingZeros => "leading raw-zero sectors precede MSF 00:00:00",
        ErrorKind::PpfRecordLength => "PPF2 record length must be between 1 and 255 bytes",
        ErrorKind::PpfRecordRange => "PPF2 record exceeds the 32-bit target range",
        ErrorKind::PpfTargetSmall => "PPF2 target is too small for the standard block check",
        ErrorKind::PpfRecordOutside => "PPF2 record exceeds the target image",
        ErrorKind::PpfRecordHeader => "truncated PPF2 record header",
        ErrorKind::PpfRecordEmpty => "PPF2 record has zero length",
        ErrorKind::PpfRecordData => "truncated PPF2 record data",
        ErrorKind::PpfShort => "PPF2 file is shorter than its header",
        ErrorKind::PpfMagic => "unsupported PPF magic",
        ErrorKind::PpfEncoding => "unsupported PPF2 encoding method ",
        ErrorKind::PpfTargetSize => "PPF2 target size does not match the canonical image",
        ErrorKind::PpfBlockCheck => "PPF2 block check does not match the canonical image",
        ErrorKind::PpfSectorSize => "PPF2 sector size must not be zero",
        ErrorKind::TrackMode => "track mode must be 1, 2, or 2xa",
        ErrorKind::Form1SectorsText => "unknown form1_sectors value \"",
        ErrorKind::SystemAreaContent => "system content exceeds system area",
        ErrorKind::SystemAreaSectors => "system content exceeds configured Form 1 sectors",
        ErrorKind::PatchHex => "decoding patch at LBA ",
        ErrorKind::PatchLength => "patch at LBA ",
        ErrorKind::XaLengths => "XA length encoding cannot be combined with logical_length",
        ErrorKind::XaLengthNumber => "XA length encoding must be 2048 or 2336, not ",
        ErrorKind::OutputName => "",
    }
}

/// What follows the beginning of the text.
pub open spec fn first_of(kind: ErrorKind) -> Part {
    match kind {
        ErrorKind::DuplicateSubmodeFlag => Part::Subject,
        ErrorKind::DuplicateAttributeFlag => Part::Subject,
        ErrorKind::RawTimeHex => Part::Subject,
        ErrorKind::RawTimeLength => Part::Subject,
        ErrorKind::MismatchedU16 => Part::Number,
        ErrorKind::MismatchedU32 => Part::Number,
        ErrorKind::EntryDirectoryAttribute => Part::Subject,
        ErrorKind::EntryPermissions => Part::Subject,
        ErrorKind::ReferenceNotInTable => Part::Subject,
        ErrorKind::ReferenceDisagrees => Part::Subject,
        ErrorKind::ReferenceHasChildren => Part::Subject,
        ErrorKind::ReferenceNotPlaced => Part::Subject,
        ErrorKind::RootIdentifier => Part::Number,
        ErrorKind::ApplicationUseCombined => Part::Subject,
        ErrorKind::ApplicationUseHex => Part::Subject,
        ErrorKind::ApplicationUseLength => Part::Subject,
        ErrorKind::ReservedHex => Part::Subject,
        ErrorKind::ReservedLength => Part::Subject,
        ErrorKind::RootRecordLength => Part::Subject,
        ErrorKind::FileNotLevel1 => Part::Subject,
        ErrorKind::FileCharacters => Part::Subject,
        ErrorKind::DirectoryNotLevel1 => Part::Subject,
        ErrorKind::NonstandardIdentifier => Part::Subject,
        ErrorKind::JolietPath => Part::Subject,
        ErrorKind::JolietPathComponent => Part::Subject,
        ErrorKind::Mode2LengthPartial => Part::Subject,
        ErrorKind::SlackHex => Part::Subject,
        ErrorKind::SlackEmpty => Part::Subject,
        ErrorKind::SlackOverlap => Part::Subject,
        ErrorKind::SlackBeyond => Part::Subject,
        ErrorKind::FileNotPlaced => Part::Subject,
        ErrorKind::DirectoryNotPlaced => Part::Tree,
        ErrorKind::DirectoryPlacedTwice => Part::Tree,
        ErrorKind::ExtentData => Part::Subject,
        ErrorKind::FileData => Part::Subject,
        ErrorKind::DuplicatePath => Part::Subject,
        ErrorKind::AssetCollides => Part::Subject,
        ErrorKind::AssetDuplicate => Part::Subject,
        ErrorKind::UnknownFile => Part::Subject,
        ErrorKind::ReferenceInFiles => Part::Subject,
        ErrorKind::DuplicateFile => Part::Subject,
        ErrorKind::UnknownDirectory => Part::Volume,
        ErrorKind::DirectoryGroup => Part::Volume,
        ErrorKind::DuplicateDirectory => Part::Volume,
        ErrorKind::OmissionDuplicate => Part::Subject,
        ErrorKind::OmissionNotFile => Part::Subject,
        ErrorKind::PlacementNamesFile => Part::Volume,
        ErrorKind::PlacementOfReference => Part::Subject,
        ErrorKind::JolietParentMissing => Part::Subject,
        ErrorKind::JolietParentFile => Part::Subject,
        ErrorKind::JolietXa => Part::Subject,
        ErrorKind::JolietXaFields => Part::Subject,
        ErrorKind::JolietDuplicate => Part::Subject,
        ErrorKind::JolietSource => Part::Subject,
        ErrorKind::JolietOmitVersion => Part::Subject,
        ErrorKind::ReferenceNotDirectory => Part::Subject,
        ErrorKind::ReferenceLength => Part::Subject,
        ErrorKind::ReferenceCombined => Part::Subject,
        ErrorKind::ReferenceData => Part::Subject,
        ErrorKind::ReferenceChildren => Part::Subject,
        ErrorKind::ExtentIncomplete => Part::Subject,
        ErrorKind::CddaExtent => Part::Subject,
        ErrorKind::UnbackedReference => Part::Subject,
        ErrorKind::ExtentKind => Part::Subject,
        ErrorKind::UnbackedNotFile => Part::Subject,
        ErrorKind::SlackOfFile => Part::Subject,
        ErrorKind::PaddingOfDirectory => Part::Subject,
        ErrorKind::XaDirectoryAssets => Part::Subject,
        ErrorKind::XaAssetsIncomplete => Part::Subject,
        ErrorKind::XaFraming => Part::Subject,
        ErrorKind::PaddingOfReference => Part::Subject,
        ErrorKind::UnbackedXa => Part::Subject,
        ErrorKind::XaLogicalLength => Part::Subject,
        ErrorKind::XaLengthEncoding => Part::Subject,
        ErrorKind::XaGapIndex => Part::Subject,
        ErrorKind::XaAttributesAssets => Part::Subject,
        ErrorKind::SubheaderOfReference => Part::Subject,
        ErrorKind::SubheaderOfFile => Part::Subject,
        ErrorKind::ParentMissing => Part::Subject,
        ErrorKind::ReferenceUnbacked => Part::Subject,
        ErrorKind::TableHexSize => Part::Number,
        ErrorKind::PaddingAligned => Part::Subject,
        ErrorKind::PaddingHex => Part::Subject,
        ErrorKind::PaddingInvalid => Part::Subject,
        ErrorKind::IdentifierNotAscii => Part::Subject,
        ErrorKind::ParentTimeUnsupported => Part::Subject,
        ErrorKind::ReadingDirectory => Part::Subject,
        ErrorKind::DirectoryCycle => Part::Number,
        ErrorKind::JolietDirectoryCycle => Part::Number,
        ErrorKind::PrimaryCopyCount => Part::Number,
        ErrorKind::TerminatorMissing => Part::Number,
        ErrorKind::RootLength => Part::Number,
        ErrorKind::InvalidBcd => Part::Hex,
        ErrorKind::PatchedMode => Part::Number,
        ErrorKind::Mode1Edc => Part::Number,
        ErrorKind::Mode1Ecc => Part::Number,
        ErrorKind::Mode1InMode2 => Part::Number,
        ErrorKind::Mode2Sector => Part::Number,
        ErrorKind::SectorSync => Part::Number,
        ErrorKind::SectorModeMixed => Part::Number,
        ErrorKind::SectorMsf => Part::Number,
        ErrorKind::SectorMode => Part::Number,
        ErrorKind::PpfEncoding => Part::Number,
        ErrorKind::Form1SectorsText => Part::Subject,
        ErrorKind::PatchHex => Part::Subject,
        ErrorKind::PatchLength => Part::Subject,
        ErrorKind::XaLengthNumber => Part::Number,
        ErrorKind::OutputName => Part::Subject,
        _ => Part::Nothing,
    }
}

fn find_first(kind: ErrorKind) -> (part: Part)
    ensures
        part == first_of(kind),
{
    match kind {
        ErrorKind::DuplicateSubmodeFlag => Part::Subject,
        ErrorKind::DuplicateAttributeFlag => Part::Subject,
        ErrorKind::RawTimeHex => Part::Subject,
        ErrorKind::RawTimeLength => Part::Subject,
        ErrorKind::MismatchedU16 => Part::Number,
        ErrorKind::MismatchedU32 => Part::Number,
        ErrorKind::EntryDirectoryAttribute => Part::Subject,
        ErrorKind::EntryPermissions => Part::Subject,
        ErrorKind::ReferenceNotInTable => Part::Subject,
        ErrorKind::ReferenceDisagrees => Part::Subject,
        ErrorKind::ReferenceHasChildren => Part::Subject,
        ErrorKind::ReferenceNotPlaced => Part::Subject,
        ErrorKind::RootIdentifier => Part::Number,
        ErrorKind::ApplicationUseCombined => Part::Subject,
        ErrorKind::ApplicationUseHex => Part::Subject,
        ErrorKind::ApplicationUseLength => Part::Subject,
        ErrorKind::ReservedHex => Part::Subject,
        ErrorKind::ReservedLength => Part::Subject,
        ErrorKind::RootRecordLength => Part::Subject,
        ErrorKind::FileNotLevel1 => Part::Subject,
        ErrorKind::FileCharacters => Part::Subject,
        ErrorKind::DirectoryNotLevel1 => Part::Subject,
        ErrorKind::NonstandardIdentifier => Part::Subject,
        ErrorKind::JolietPath => Part::Subject,
        ErrorKind::JolietPathComponent => Part::Subject,
        ErrorKind::Mode2LengthPartial => Part::Subject,
        ErrorKind::SlackHex => Part::Subject,
        ErrorKind::SlackEmpty => Part::Subject,
        ErrorKind::SlackOverlap => Part::Subject,
        ErrorKind::SlackBeyond => Part::Subject,
        ErrorKind::FileNotPlaced => Part::Subject,
        ErrorKind::DirectoryNotPlaced => Part::Tree,
        ErrorKind::DirectoryPlacedTwice => Part::Tree,
        ErrorKind::ExtentData => Part::Subject,
        ErrorKind::FileData => Part::Subject,
        ErrorKind::DuplicatePath => Part::Subject,
        ErrorKind::AssetCollides => Part::Subject,
        ErrorKind::AssetDuplicate => Part::Subject,
        ErrorKind::UnknownFile => Part::Subject,
        ErrorKind::ReferenceInFiles => Part::Subject,
        ErrorKind::DuplicateFile => Part::Subject,
        ErrorKind::UnknownDirectory => Part::Volume,
        ErrorKind::DirectoryGroup => Part::Volume,
        ErrorKind::DuplicateDirectory => Part::Volume,
        ErrorKind::OmissionDuplicate => Part::Subject,
        ErrorKind::OmissionNotFile => Part::Subject,
        ErrorKind::PlacementNamesFile => Part::Volume,
        ErrorKind::PlacementOfReference => Part::Subject,
        ErrorKind::JolietParentMissing => Part::Subject,
        ErrorKind::JolietParentFile => Part::Subject,
        ErrorKind::JolietXa => Part::Subject,
        ErrorKind::JolietXaFields => Part::Subject,
        ErrorKind::JolietDuplicate => Part::Subject,
        ErrorKind::JolietSource => Part::Subject,
        ErrorKind::JolietOmitVersion => Part::Subject,
        ErrorKind::ReferenceNotDirectory => Part::Subject,
        ErrorKind::ReferenceLength => Part::Subject,
        ErrorKind::ReferenceCombined => Part::Subject,
        ErrorKind::ReferenceData => Part::Subject,
        ErrorKind::ReferenceChildren => Part::Subject,
        ErrorKind::ExtentIncomplete => Part::Subject,
        ErrorKind::CddaExtent => Part::Subject,
        ErrorKind::UnbackedReference => Part::Subject,
        ErrorKind::ExtentKind => Part::Subject,
        ErrorKind::UnbackedNotFile => Part::Subject,
        ErrorKind::SlackOfFile => Part::Subject,
        ErrorKind::PaddingOfDirectory => Part::Subject,
        ErrorKind::XaDirectoryAssets => Part::Subject,
        ErrorKind::XaAssetsIncomplete => Part::Subject,
        ErrorKind::XaFraming => Part::Subject,
        ErrorKind::PaddingOfReference => Part::Subject,
        ErrorKind::UnbackedXa => Part::Subject,
        ErrorKind::XaLogicalLength => Part::Subject,
        ErrorKind::XaLengthEncoding => Part::Subject,
        ErrorKind::XaGapIndex => Part::Subject,
        ErrorKind::XaAttributesAssets => Part::Subject,
        ErrorKind::SubheaderOfReference => Part::Subject,
        ErrorKind::SubheaderOfFile => Part::Subject,
        ErrorKind::ParentMissing => Part::Subject,
        ErrorKind::ReferenceUnbacked => Part::Subject,
        ErrorKind::TableHexSize => Part::Number,
        ErrorKind::PaddingAligned => Part::Subject,
        ErrorKind::PaddingHex => Part::Subject,
        ErrorKind::PaddingInvalid => Part::Subject,
        ErrorKind::IdentifierNotAscii => Part::Subject,
        ErrorKind::ParentTimeUnsupported => Part::Subject,
        ErrorKind::ReadingDirectory => Part::Subject,
        ErrorKind::DirectoryCycle => Part::Number,
        ErrorKind::JolietDirectoryCycle => Part::Number,
        ErrorKind::PrimaryCopyCount => Part::Number,
        ErrorKind::TerminatorMissing => Part::Number,
        ErrorKind::RootLength => Part::Number,
        ErrorKind::InvalidBcd => Part::Hex,
        ErrorKind::PatchedMode => Part::Number,
        ErrorKind::Mode1Edc => Part::Number,
        ErrorKind::Mode1Ecc => Part::Number,
        ErrorKind::Mode1InMode2 => Part::Number,
        ErrorKind::Mode2Sector => Part::Number,
        ErrorKind::SectorSync => Part::Number,
        ErrorKind::SectorModeMixed => Part::Number,
        ErrorKind::SectorMsf => Part::Number,
        ErrorKind::SectorMode => Part::Number,
        ErrorKind::PpfEncoding => Part::Number,
        ErrorKind::Form1SectorsText => Part::Subject,
        ErrorKind::PatchHex => Part::Subject,
        ErrorKind::PatchLength => Part::Subject,
        ErrorKind::XaLengthNumber => Part::Number,
        ErrorKind::OutputName => Part::Subject,
        _ => Part::Nothing,
    }
}

/// What follows the first part.
pub open spec fn middle_of(kind: ErrorKind) -> Seq<char> {
    match kind {
        ErrorKind::RawTimeHex => " time hex"@,
        ErrorKind::RawTimeLength => " time must contain exactly "@,
        ErrorKind::ApplicationUseCombined => " application_use_hex cannot be combined with a nondefault application_use"@,
        ErrorKind::ApplicationUseHex => " application_use_hex"@,
        ErrorKind::ApplicationUseLength => " application_use_hex must contain exactly 512 bytes"@,
        ErrorKind::ReservedHex => " reserved_hex"@,
        ErrorKind::ReservedLength => " reserved_hex must contain between 1 and 653 bytes"@,
        ErrorKind::RootRecordLength => " root_directory_record_length must be greater than 34"@,
        ErrorKind::JolietPath => "\""@,
        ErrorKind::JolietPathComponent => "\""@,
        ErrorKind::DirectoryNotPlaced => " has the path "@,
        ErrorKind::DirectoryPlacedTwice => " placement was already allocated: "@,
        ErrorKind::UnknownDirectory => " directory entry "@,
        ErrorKind::DirectoryGroup => " directories"@,
        ErrorKind::DuplicateDirectory => " directory placement "@,
        ErrorKind::PlacementNamesFile => " directory placement names a file entry: "@,
        ErrorKind::TableHexSize => " bytes"@,
        ErrorKind::ParentTimeUnsupported => " at LBA "@,
        ErrorKind::ReadingDirectory => " at LBA "@,
        ErrorKind::Form1SectorsText => "\""@,
        ErrorKind::PatchLength => " decodes to "@,
        ErrorKind::OutputName => " has no file name for deriving the default output"@,
        _ => ""@,
    }
}

fn find_middle(kind: ErrorKind) -> (text: &'static str)
    ensures
        text@ == middle_of(kind),
{
    match kind {
        ErrorKind::RawTimeHex => " time hex",
        ErrorKind::RawTimeLength => " time must contain exactly ",
        ErrorKind::ApplicationUseCombined => " application_use_hex cannot be combined with a nondefault application_use",
        ErrorKind::ApplicationUseHex => " application_use_hex",
        ErrorKind::ApplicationUseLength => " application_use_hex must contain exactly 512 bytes",
        ErrorKind::ReservedHex => " reserved_hex",
        ErrorKind::ReservedLength => " reserved_hex must contain between 1 and 653 bytes",
        ErrorKind::RootRecordLength => " root_directory_record_length must be greater than 34",
        ErrorKind::JolietPath => "\"",
        ErrorKind::JolietPathComponent => "\"",
        ErrorKind::DirectoryNotPlaced => " has the path ",
        ErrorKind::DirectoryPlacedTwice => " placement was already allocated: ",
        ErrorKind::UnknownDirectory => " directory entry ",
        ErrorKind::DirectoryGroup => " directories",
        ErrorKind::DuplicateDirectory => " directory placement ",
        ErrorKind::PlacementNamesFile => " directory placement names a file entry: ",
        ErrorKind::TableHexSize => " bytes",
        ErrorKind::ParentTimeUnsupported => " at LBA ",
        ErrorKind::ReadingDirectory => " at LBA ",
        ErrorKind::Form1SectorsText => "\"",
        ErrorKind::PatchLength => " decodes to ",
        ErrorKind::OutputName => " has no file name for deriving the default output",
        _ => "",
    }
}

/// What follows the middle of the text.
pub open spec fn second_of(kind: ErrorKind) -> Part {
    match kind {
        ErrorKind::RawTimeLength => Part::Number,
        ErrorKind::DirectoryNotPlaced => Part::Subject,
        ErrorKind::DirectoryPlacedTwice => Part::Subject,
        ErrorKind::UnknownDirectory => Part::Subject,
        ErrorKind::DuplicateDirectory => Part::Subject,
        ErrorKind::PlacementNamesFile => Part::Subject,
        ErrorKind::ParentTimeUnsupported => Part::Number,
        ErrorKind::ReadingDirectory => Part::Number,
        ErrorKind::PatchLength => Part::Number,
        _ => Part::Nothing,
    }
}

fn find_second(kind: ErrorKind) -> (part: Part)
    ensures
        part == second_of(kind),
{
    match kind {
        ErrorKind::RawTimeLength => Part::Number,
        ErrorKind::DirectoryNotPlaced => Part::Subject,
        ErrorKind::DirectoryPlacedTwice => Part::Subject,
        ErrorKind::UnknownDirectory => Part::Subject,
        ErrorKind::DuplicateDirectory => Part::Subject,
        ErrorKind::PlacementNamesFile => Part::Subject,
        ErrorKind::ParentTimeUnsupported => Part::Number,
        ErrorKind::ReadingDirectory => Part::Number,
        ErrorKind::PatchLength => Part::Number,
        _ => Part::Nothing,
    }
}

/// What the text ends with.
pub open spec fn tail_of(kind: ErrorKind) -> Seq<char> {
    match kind {
        ErrorKind::RawTimeLength => " bytes"@,
        ErrorKind::PatchLength => " bytes, expected 2352"@,
        _ => ""@,
    }
}

fn find_tail(kind: ErrorKind) -> (text: &'static str)
    ensures
        text@ == tail_of(kind),
{
    match kind {
        ErrorKind::RawTimeLength => " bytes",
        ErrorKind::PatchLength => " bytes, expected 2352",
        _ => "",
    }
}

/// The text of a failure.
pub open spec fn message_of(failure: Failure) -> Seq<char> {
    head_of(failure.kind) + part_text(first_of(failure.kind), failure) + middle_of(failure.kind)
        + part_text(second_of(failure.kind), failure) + tail_of(failure.kind)
}

impl Error {
    fn push_part(&self, text: &mut String, part: Part)
        ensures
            final(text)@ == old(text)@ + part_text(part, self@),
    {
        let ghost before = text@;
        match part {
            Part::Nothing => {},
            Part::Subject => push_text(text, self.subject.as_str()),
            Part::Number => push_decimal(text, self.number),
            Part::Hex => push_byte(text, (self.number % 256) as u8),
            Part::Volume => push_text(
                text,
                if self.number == 0 {
                    "Primary"
                } else {
                    "Joliet"
                },
            ),
            Part::Tree => push_text(
                text,
                if self.number == 0 {
                    "directory"
                } else {
                    "Joliet directory"
                },
            ),
        }
        assert(text@ =~= before + part_text(part, self@));
    }

    /// Tells what failed.
    pub fn message(&self) -> (text: String)
        ensures
            text@ == message_of(self@),
    {
        let mut text: String = find_head(self.kind).to_owned();
        self.push_part(&mut text, find_first(self.kind));
        push_text(&mut text, find_middle(self.kind));
        self.push_part(&mut text, find_second(self.kind));
        push_text(&mut text, find_tail(self.kind));
        text
    }
}

} // verus!
