//! What can be wrong with an image, a description or a patch.
use vstd::prelude::*;

verus! {

/// The rule that an input breaks.
#[derive(Clone, Copy, Debug, PartialEq, Eq, Structural)]
pub enum ErrorKind {
    IntegerConversion,
    DuplicateSubmodeFlag,
    DuplicateAttributeFlag,
    TimeMonth,
    TimeDay,
    TimeHour,
    TimeMinute,
    TimeSecond,
    TimeCentisecond,
    TimeOffset,
    RawTimeHex,
    RawTimeLength,
    DecimalDigit,
    TimeFormat,
    TimeDigits,
    TimeOffsetMinutes,
    TimeOffsetStep,
    TimeNegativeZero,
    RecordingTimeFormat,
    RecordingTime,
    RecordingTimeYear,
    VolumeTimeLength,
    MismatchedU16,
    MismatchedU32,
    PvdU16Fields,
    FixedStringUtf8,
    FixedString,
    RecordTooLong,
    RecordShort,
    RecordLength,
    RecordIdentifierLength,
    RecordPadding,
    RecordFlags,
    RecordFileUnitSize,
    RecordInterleaveGap,
    RecordVolumeSequence,
    RecordSystemUse,
    RecordXaSystemUse,
    RecordFileDirectoryAttribute,
    EntryDirectoryAttribute,
    EntryPermissions,
    PathRecordTruncated,
    PathRecordEmpty,
    PathRecordIdentifierTruncated,
    ReferenceNotInTable,
    ReferenceDisagrees,
    ReferenceHasChildren,
    ReferenceNotPlaced,
    JolietOddLength,
    JolietUtf16,
    JolietNotUcs2,
    JolietIdentifierLength,
    JolietFixedLong,
    JolietFixedOddByte,
    EscapeSequence,
    JolietPadding,
    JolietPaddingMixed,
    VolumeSize,
    VolumeSetSize,
    VolumeSequence,
    VolumeBlockSize,
    FileStructureVersion,
    RootIdentifier,
    ApplicationUseCombined,
    ApplicationUseHex,
    ApplicationUseLength,
    ReservedHex,
    ReservedLength,
    RootRecordLength,
    JolietOddBytesHex,
    JolietOddBytesLength,
    JolietSetIdentifierHex,
    JolietSetIdentifierLength,
    IsoPath,
    PathTraversal,
    FileNotLevel1,
    FileCharacters,
    DirectoryNotLevel1,
    NonstandardIdentifier,
    JolietPath,
    JolietPathComponent,
    UnreachableDirectory,
    UnreachableJolietDirectory,
    FileLength,
    Mode2LengthPartial,
    Mode2LengthOverflow,
    SlackHex,
    SlackEmpty,
    SlackOverlap,
    SlackBeyond,
    FileNotPlaced,
    SubheaderOfEmpty,
    PlacementOverflow,
    DirectoryNotPlaced,
    GapOverflow,
    DirectoryPlacedTwice,
    ExtentData,
    ExtentSectors,
    ExtentOverflow,
    FileData,
    MetadataDirectoryOverflow,
    MetadataTableOverflow,
    MetadataGapOverflow,
    SettingFileStructure,
    SettingCopies,
    SettingSupplementary,
    MetadataTableDuplicate,
    MetadataDirectoriesDuplicate,
    MetadataGap,
    MetadataWithoutJoliet,
    MetadataTables,
    MetadataIncomplete,
    MetadataFraming,
    PathTableFraming,
    RootMissing,
    RootNotFirst,
    DuplicatePath,
    AssetEmpty,
    AssetCollides,
    AssetDuplicate,
    GapEmpty,
    GapRedundant,
    GapForm2Edc,
    GapNotFinal,
    GapForm1Subheader,
    GapForm1Form2,
    GapSubheader,
    RootIsFile,
    UnknownFile,
    ReferenceInFiles,
    DuplicateFile,
    UnknownDirectory,
    DirectoryGroup,
    RootPlacement,
    DuplicateDirectory,
    OmissionWithoutXa,
    OmissionDuplicate,
    OmissionNotFile,
    PlacementNamesFile,
    PlacementOfReference,
    JolietEscape,
    JolietOddBytes,
    JolietSetIdentifier,
    JolietRootMissing,
    JolietRootNotFirst,
    JolietParentMissing,
    JolietParentFile,
    JolietXa,
    JolietXaFields,
    JolietDuplicate,
    JolietSource,
    JolietOmitVersion,
    ReferenceNotDirectory,
    ReferenceLength,
    ReferenceCombined,
    ReferenceData,
    ReferenceChildren,
    ExtentIncomplete,
    CddaExtent,
    UnbackedReference,
    ExtentKind,
    UnbackedNotFile,
    SlackOfFile,
    PaddingOfDirectory,
    XaDirectoryAssets,
    XaAssetsIncomplete,
    XaFraming,
    PaddingOfReference,
    UnbackedXa,
    XaLogicalLength,
    XaLengthEncoding,
    XaGapIndex,
    XaAttributesAssets,
    SubheaderOfReference,
    SubheaderOfFile,
    ParentMissing,
    TableSizeZero,
    TableAllocation,
    TableStride,
    JolietTableAllocation,
    JolietUnplaced,
    VolumeOverflow,
    ReferenceOverflow,
    ReferenceUnbacked,
    FixedReferenceOverflow,
    VolumeSpaceZero,
    TableLittleHex,
    TableBigHex,
    TableHexPair,
    TableHexSize,
    PaddingAligned,
    PaddingHex,
    PaddingInvalid,
    RecordTruncated,
    DirectoryOutside,
    IdentifierUtf8,
    VersionMissing,
    VersionInvalid,
    VersionUnsupported,
    IdentifierNotAscii,
    XaOmission,
    DirectoryEntryMissing,
    ParentEntryMissing,
    ParentTimeUnsupported,
    ParentTimesInconsistent,
    DotRecordsMissing,
    ReadingDirectory,
    DirectoryCycle,
    JolietVersion,
    JolietSourceMissing,
    JolietSourceAmbiguous,
    JolietSlack,
    JolietDotRecordsMissing,
    JolietDirectoryCycle,
    JolietTableParent,
    MetadataTableExtent,
    MetadataDirectoryExtent,
    MetadataOverlap,
    MetadataNonzero,
    JolietVolumeMissing,
    JolietRootEntry,
    DirectoryLengthsInconsistent,
    JolietTableSize,
    JolietTables,
    JolietTableOutside,
    JolietRootSystemUse,
    JolietRootDots,
    JolietTableAllocationChanged,
    PrimaryCopiesDiffer,
    ImageTooSmall,
    PrimaryMissing,
    PrimaryCopyCount,
    TerminatorMissing,
    SpaceSize,
    TableSize,
    TableMissing,
    TableCopies,
    TablesShared,
    TableOutside,
    RootSystemUse,
    RootLength,
    RootDots,
    ReadingRoot,
    CddaLength,
    CddaOverflow,
    TableParent,
    GeneratedTableOverflow,
    TableSizeAllocation,
    LittleCopiesDiffer,
    BigCopiesDiffer,
    PackingInconsistent,
    JolietTableCopies,
    InvalidBcd,
    InvalidMsf,
    MsfRange,
    MsfComponent,
    MsfForm,
    SectorSize,
    PatchedMode,
    Mode1Protection,
    Form1Protection,
    Form2Protection,
    RecordedHeaderProtection,
    Mode1Payload,
    Form1Payload,
    Form2Payload,
    Mode1Edc,
    Mode1Ecc,
    Mode1InMode2,
    Mode2Sector,
    ZeroSector,
    SectorSync,
    SectorModeMixed,
    SectorMsf,
    ImageSize,
    ImageEmpty,
    ImageZero,
    SectorMode,
    LeadingZeros,
    PpfRecordLength,
    PpfRecordRange,
    PpfTargetSmall,
    PpfRecordOutside,
    PpfRecordHeader,
    PpfRecordEmpty,
    PpfRecordData,
    PpfShort,
    PpfMagic,
    PpfEncoding,
    PpfTargetSize,
    PpfBlockCheck,
    PpfSectorSize,
    TrackMode,
    Form1SectorsText,
    SystemAreaContent,
    SystemAreaSectors,
    PatchHex,
    PatchLength,
    XaLengths,
    XaLengthNumber,
    OutputName,
}

/// An underlying failure that another failure reports.
#[derive(Clone, Copy, Debug, PartialEq, Eq, Structural)]
pub struct Cause {
    pub kind: ErrorKind,
    pub number: u64,
}

/// A failure: the broken rule, the path, name or value it concerns, a number
/// such as a sector, an offset or a size, and the failure that lies under it.
#[derive(Clone, Debug)]
pub struct Error {
    pub kind: ErrorKind,
    pub subject: String,
    pub number: u64,
    pub cause: Option<Cause>,
}

/// The mathematical form of an [`Error`].
#[verifier::ext_equal]
pub struct Failure {
    pub kind: ErrorKind,
    pub subject: Seq<char>,
    pub number: int,
    pub cause: Option<Cause>,
}

impl View for Error {
    type V = Failure;

    open spec fn view(&self) -> Failure {
        Failure {
            kind: self.kind,
            subject: self.subject@,
            number: self.number as int,
            cause: self.cause,
        }
    }
}

/// A failure that concerns nothing in particular.
pub open spec fn failure(kind: ErrorKind) -> Failure {
    Failure { kind, subject: Seq::empty(), number: 0, cause: None }
}

/// A failure that concerns a number.
pub open spec fn failure_at(kind: ErrorKind, number: int) -> Failure {
    Failure { kind, subject: Seq::empty(), number, cause: None }
}

/// A failure that concerns a path, a name or a value.
pub open spec fn failure_of(kind: ErrorKind, subject: Seq<char>) -> Failure {
    Failure { kind, subject, number: 0, cause: None }
}

/// A failure that concerns a path and a number.
pub open spec fn failure_about(kind: ErrorKind, subject: Seq<char>, number: int) -> Failure {
    Failure { kind, subject, number, cause: None }
}

/// A failure that reports another one.
pub open spec fn failure_over(kind: ErrorKind, subject: Seq<char>, number: int, under: Failure) -> Failure {
    Failure {
        kind,
        subject,
        number,
        cause: Some(Cause { kind: under.kind, number: under.number as u64 }),
    }
}

impl Error {
    pub fn new(kind: ErrorKind) -> (error: Error)
        ensures
            error@ == failure(kind),
    {
        Error { kind, subject: String::new(), number: 0, cause: None }
    }

    pub fn at(kind: ErrorKind, number: u64) -> (error: Error)
        ensures
            error@ == failure_at(kind, number as int),
    {
        Error { kind, subject: String::new(), number, cause: None }
    }

    pub fn of(kind: ErrorKind, subject: &str) -> (error: Error)
        ensures
            error@ == failure_of(kind, subject@),
    {
        Error { kind, subject: subject.to_owned(), number: 0, cause: None }
    }

    pub fn about(kind: ErrorKind, subject: &str, number: u64) -> (error: Error)
        ensures
            error@ == failure_about(kind, subject@, number as int),
    {
        Error { kind, subject: subject.to_owned(), number, cause: None }
    }

    /// The same failure again.
    pub fn copy(&self) -> (error: Error)
        ensures
            error@ == self@,
    {
        Error {
            kind: self.kind,
            subject: self.subject.clone(),
            number: self.number,
            cause: self.cause,
        }
    }

    pub fn over(kind: ErrorKind, subject: &str, number: u64, under: Error) -> (error: Error)
        ensures
            error@ == failure_over(kind, subject@, number as int, under@),
    {
        Error {
            kind,
            subject: subject.to_owned(),
            number,
            cause: Some(Cause { kind: under.kind, number: under.number }),
        }
    }
}

} // verus!
