//! The parts of a project that describe the layout of a track.
use vstd::prelude::*;

use crate::manifest::volume::{MetadataPathTable, MetadataPathTableItem};
use crate::manifest::{GapKind, MetadataVolume};
use crate::xa::{XaSubheader, XaSubmode};

verus! {

/// A part of the layout, in physical order.
#[derive(Clone, Debug, PartialEq, Eq)]
pub enum FileLayoutItem {
    Path(FilePathItem),
    Directory(FileDirectoryItem),
    PathTable(MetadataPathTableItem),
    Mode1Extent(FileMode1ExtentItem),
    AppleHfs(FileAppleHfsItem),
    DuplicateBlock(FileDuplicateBlockItem),
    CeQuadratJolietLinks(FileCeQuadratJolietLinksItem),
    CeQuadratFormatter(FileCeQuadratFormatterItem),
    XaExtent(FileXaExtentItem),
    Gap(FileGapItem),
}

/// A file in the layout.
#[derive(Clone, Debug, PartialEq, Eq)]
pub struct FilePathItem {
    pub path: String,
    pub source: Option<String>,
    pub sha1: Option<String>,
    pub xa_assets: Option<XaAssets>,
}

/// A directory in the layout.
#[derive(Clone, Debug, PartialEq, Eq)]
pub struct FileDirectoryItem {
    pub directory: String,
    pub volume: MetadataVolume,
}

/// An Apple HFS volume in the layout.
#[derive(Clone, Debug, PartialEq, Eq)]
pub struct FileAppleHfsItem {
    pub apple_hfs: HostAsset,
    pub start_block: u32,
    pub block_count: u32,
}

/// A Mode 1 extent that no entry names.
#[derive(Clone, Debug, PartialEq, Eq)]
pub struct FileMode1ExtentItem {
    pub mode1_extent: HostAsset,
}

/// A block that is there twice.
#[derive(Clone, Debug, PartialEq, Eq)]
pub struct FileDuplicateBlockItem {
    pub duplicate_block: DuplicateBlock,
}

/// Which block of which file is there twice.
#[derive(Clone, Debug, PartialEq, Eq)]
pub struct DuplicateBlock {
    pub path: String,
    pub block: u32,
}

/// The link blocks of a CeQuadrat image.
#[derive(Clone, Debug, PartialEq, Eq)]
pub struct FileCeQuadratJolietLinksItem {
    pub cequadrat_joliet_links: bool,
}

/// The formatter block of a CeQuadrat image.
#[derive(Clone, Debug, PartialEq, Eq)]
pub struct FileCeQuadratFormatterItem {
    pub cequadrat_formatter: HostAsset,
}

/// An XA extent that no entry names.
#[derive(Clone, Debug, PartialEq, Eq)]
pub struct FileXaExtentItem {
    pub xa_extent: XaAssets,
}

/// A file beside the project.
#[derive(Clone, Debug, PartialEq, Eq)]
pub struct HostAsset {
    pub path: String,
    pub sha1: Option<String>,
}

/// The bytes of the sectors of one form.
#[derive(Clone, Debug, PartialEq, Eq)]
pub struct XaFormAsset {
    pub path: String,
    pub sha1: Option<String>,
    pub framing: Option<XaFraming>,
}

/// The subheaders of the sectors of one form: a policy, or settings.
#[derive(Clone, Debug, PartialEq, Eq)]
pub enum XaFraming {
    Named(XaFramingPolicy),
    Detailed(XaFramingSettings),
}

/// How the subheaders of XA sectors are found.
#[derive(Clone, Copy, Debug, PartialEq, Eq, Structural)]
pub enum XaFramingPolicy {
    Channel,
    ChannelOrGeneric,
    Phase,
    Runs,
}

/// A subheader in the framing of an asset.
#[derive(Clone, Copy, Debug, PartialEq, Eq, Structural)]
pub struct XaAssetSubheader {
    pub file: u8,
    pub channel: u8,
    pub submode: XaSubmode,
    pub coding_info: u8,
}

/// How the subheaders of XA sectors are found, in detail.
#[derive(Clone, Debug, PartialEq, Eq)]
pub struct XaFramingSettings {
    pub policy: XaFramingPolicy,
    pub eof: XaEofPolicy,
    pub default: Option<XaAssetSubheader>,
    pub tail: Option<XaFramingTail>,
    pub phases: Vec<XaPhaseFraming>,
    pub states: Vec<XaStateFraming>,
    pub runs: Vec<XaFramingRun>,
    pub overrides: Vec<XaFramingOverride>,
}

/// Which sectors carry the mark of the end of the file.
#[derive(Clone, Copy, Debug, PartialEq, Eq, Structural)]
pub enum XaEofPolicy {
    Unmarked,
    FinalRecord,
    ChannelSegmentEnd,
}

/// The subheader of the last sectors.
#[derive(Clone, Copy, Debug, PartialEq, Eq, Structural)]
pub struct XaFramingTail {
    pub sectors: u32,
    pub subheader: XaAssetSubheader,
}

/// The subheader of a phase.
#[derive(Clone, Copy, Debug, PartialEq, Eq, Structural)]
pub struct XaPhaseFraming {
    pub phase: u32,
    pub subheader: XaAssetSubheader,
}

/// What a channel is doing.
#[derive(Clone, Copy, Debug, PartialEq, Eq, Structural)]
pub enum XaChannelState {
    UnusedFirst,
    Unused,
    BeforeStart,
    Active,
    FirstAfterEnd,
    AfterEnd,
    BetweenSegments,
}

/// The subheader of a channel in a state.
#[derive(Clone, Copy, Debug, PartialEq, Eq, Structural)]
pub struct XaStateFraming {
    pub phase: Option<u32>,
    pub state: XaChannelState,
    pub subheader: XaAssetSubheader,
}

/// The subheader of a run of sectors.
#[derive(Clone, Copy, Debug, PartialEq, Eq, Structural)]
pub struct XaFramingRun {
    pub sectors: u32,
    pub subheader: XaAssetSubheader,
}

/// Positions one stride apart.
#[derive(Clone, Copy, Debug, PartialEq, Eq, Structural)]
pub struct XaPositionSpan {
    pub start: u32,
    pub stride: u32,
    pub count: u32,
}

/// The subheader of some positions.
#[derive(Clone, Copy, Debug, PartialEq, Eq, Structural)]
pub struct XaFramingOverride {
    pub positions: XaPositionSpan,
    pub subheader: XaAssetSubheader,
}

/// How channels are interleaved.
#[derive(Clone, Debug, PartialEq, Eq)]
pub struct XaInterleave {
    pub stride: Option<u32>,
    pub cycles: Option<u32>,
    pub tail_slots: u32,
    pub channels: Vec<XaInterleaveChannel>,
}

/// A channel of an interleave.
#[derive(Clone, Debug, PartialEq, Eq)]
pub struct XaInterleaveChannel {
    pub file: Option<u8>,
    pub channel: Option<u8>,
    pub phase: Option<u32>,
    pub start_cycle: Option<u32>,
    pub end_cycle: Option<u32>,
    pub segments: Vec<XaCycleSegment>,
    pub start: Option<u32>,
    pub stride: Option<u32>,
    pub count: Option<u32>,
    pub before_start: Option<XaPadding>,
    pub between_segments: Option<XaPadding>,
    pub after_end: Option<XaPadding>,
    pub fill: Option<XaPadding>,
}

/// A run of cycles.
#[derive(Clone, Copy, Debug, PartialEq, Eq, Structural)]
pub struct XaCycleSegment {
    pub start_cycle: u32,
    pub end_cycle: u32,
}

/// What stands where a channel has nothing.
#[derive(Clone, Copy, Debug, PartialEq, Eq, Structural)]
pub enum XaPadding {
    XaGap,
}

/// The bytes of an extent whose sectors mix both forms.
#[derive(Clone, Debug, PartialEq, Eq)]
pub struct XaAssets {
    pub form1: XaFormAsset,
    pub form2: XaFormAsset,
    pub index: Option<HostAsset>,
    pub interleave: Option<XaInterleave>,
    pub gap_overrides: Vec<XaPositionSpan>,
}

/// A run of sectors that belong to nothing.
#[derive(Clone, Debug, PartialEq, Eq)]
pub struct FileGapItem {
    pub gap: u32,
    pub kind: GapKind,
    pub subheader: Option<XaSubheader>,
    pub form2_edc: Option<bool>,
}

impl Default for XaEofPolicy {
    fn default() -> (value: XaEofPolicy)
        ensures
            value == XaEofPolicy::Unmarked,
    {
        XaEofPolicy::Unmarked
    }
}

impl XaEofPolicy {
    pub fn is_default(&self) -> (default: bool)
        ensures
            default == (*self == XaEofPolicy::Unmarked),
    {
        *self == XaEofPolicy::Unmarked
    }
}

/// The subheader that stands in the framing of an asset for another.
pub open spec fn asset_subheader(value: XaSubheader) -> XaAssetSubheader {
    XaAssetSubheader {
        file: value.file_number,
        channel: value.channel,
        submode: value.submode,
        coding_info: value.coding_info,
    }
}

/// The subheader that the framing of an asset gives.
pub open spec fn framed_subheader(value: XaAssetSubheader) -> XaSubheader {
    XaSubheader {
        file_number: value.file,
        channel: value.channel,
        submode: value.submode,
        coding_info: value.coding_info,
    }
}

impl From<XaSubheader> for XaAssetSubheader {
    fn from(value: XaSubheader) -> (subheader: XaAssetSubheader) {
        XaAssetSubheader {
            file: value.file_number,
            channel: value.channel,
            submode: value.submode,
            coding_info: value.coding_info,
        }
    }
}

impl vstd::std_specs::convert::FromSpecImpl<XaSubheader> for XaAssetSubheader {
    open spec fn obeys_from_spec() -> bool {
        true
    }

    open spec fn from_spec(value: XaSubheader) -> XaAssetSubheader {
        asset_subheader(value)
    }
}

impl From<XaAssetSubheader> for XaSubheader {
    fn from(value: XaAssetSubheader) -> (subheader: XaSubheader) {
        XaSubheader {
            file_number: value.file,
            channel: value.channel,
            submode: value.submode,
            coding_info: value.coding_info,
        }
    }
}

impl vstd::std_specs::convert::FromSpecImpl<XaAssetSubheader> for XaSubheader {
    open spec fn obeys_from_spec() -> bool {
        true
    }

    open spec fn from_spec(value: XaAssetSubheader) -> XaSubheader {
        framed_subheader(value)
    }
}

/// A subheader is the same in either form.
pub proof fn asset_subheader_survives(value: XaSubheader, framed: XaAssetSubheader)
    ensures
        framed_subheader(asset_subheader(value)) == value,
        asset_subheader(framed_subheader(framed)) == framed,
{
}

impl Default for XaAssetSubheader {
    fn default() -> (subheader: XaAssetSubheader)
        ensures
            subheader == (XaAssetSubheader {
                file: 0,
                channel: 0,
                submode: XaSubmode(0),
                coding_info: 0,
            }),
    {
        XaAssetSubheader { file: 0, channel: 0, submode: XaSubmode(0), coding_info: 0 }
    }
}

/// A gap of some sectors of a kind.
pub open spec fn plain_gap(sectors: u32, kind: GapKind) -> FileLayoutItem {
    FileLayoutItem::Gap(FileGapItem { gap: sectors, kind, subheader: None, form2_edc: None })
}

impl FileLayoutItem {
    pub fn path(path: String) -> (item: FileLayoutItem)
        ensures
            item == FileLayoutItem::Path(
                (FilePathItem { path, source: None, sha1: None, xa_assets: None }),
            ),
    {
        FileLayoutItem::Path(FilePathItem { path, source: None, sha1: None, xa_assets: None })
    }

    pub fn directory(path: String) -> (item: FileLayoutItem)
        ensures
            item == FileLayoutItem::Directory(
                (FileDirectoryItem { directory: path, volume: MetadataVolume::Primary }),
            ),
    {
        FileLayoutItem::Directory(
            FileDirectoryItem { directory: path, volume: MetadataVolume::Primary },
        )
    }

    pub fn volume_directory(volume: MetadataVolume, path: String) -> (item: FileLayoutItem)
        ensures
            item == FileLayoutItem::Directory((FileDirectoryItem { directory: path, volume })),
    {
        FileLayoutItem::Directory(FileDirectoryItem { directory: path, volume })
    }

    pub fn apple_hfs(asset: HostAsset, start_block: u32, block_count: u32) -> (item: FileLayoutItem)
        ensures
            item == FileLayoutItem::AppleHfs(
                (FileAppleHfsItem { apple_hfs: asset, start_block, block_count }),
            ),
    {
        FileLayoutItem::AppleHfs(FileAppleHfsItem { apple_hfs: asset, start_block, block_count })
    }

    pub fn mode1_extent(asset: HostAsset) -> (item: FileLayoutItem)
        ensures
            item == FileLayoutItem::Mode1Extent((FileMode1ExtentItem { mode1_extent: asset })),
    {
        FileLayoutItem::Mode1Extent(FileMode1ExtentItem { mode1_extent: asset })
    }

    pub fn duplicate_block(path: String, block: u32) -> (item: FileLayoutItem)
        ensures
            item == FileLayoutItem::DuplicateBlock(
                (FileDuplicateBlockItem { duplicate_block: DuplicateBlock { path, block } }),
            ),
    {
        FileLayoutItem::DuplicateBlock(
            FileDuplicateBlockItem { duplicate_block: DuplicateBlock { path, block } },
        )
    }

    pub fn cequadrat_joliet_links() -> (item: FileLayoutItem)
        ensures
            item == FileLayoutItem::CeQuadratJolietLinks(
                (FileCeQuadratJolietLinksItem { cequadrat_joliet_links: true }),
            ),
    {
        FileLayoutItem::CeQuadratJolietLinks(
            FileCeQuadratJolietLinksItem { cequadrat_joliet_links: true },
        )
    }

    pub fn cequadrat_formatter(asset: HostAsset) -> (item: FileLayoutItem)
        ensures
            item == FileLayoutItem::CeQuadratFormatter(
                (FileCeQuadratFormatterItem { cequadrat_formatter: asset }),
            ),
    {
        FileLayoutItem::CeQuadratFormatter(
            FileCeQuadratFormatterItem { cequadrat_formatter: asset },
        )
    }

    pub fn xa_extent(assets: XaAssets) -> (item: FileLayoutItem)
        ensures
            item == FileLayoutItem::XaExtent((FileXaExtentItem { xa_extent: assets })),
    {
        FileLayoutItem::XaExtent(FileXaExtentItem { xa_extent: assets })
    }

    pub fn gap(sectors: u32) -> (item: FileLayoutItem)
        ensures
            item == plain_gap(sectors, GapKind::Form2),
    {
        FileLayoutItem::Gap(
            FileGapItem { gap: sectors, kind: GapKind::Form2, subheader: None, form2_edc: None },
        )
    }

    pub fn form2_gap(sectors: u32, form2_edc: bool) -> (item: FileLayoutItem)
        ensures
            item == FileLayoutItem::Gap(
                (FileGapItem {
                    gap: sectors,
                    kind: GapKind::Form2,
                    subheader: None,
                    form2_edc: Some(form2_edc),
                }),
            ),
    {
        FileLayoutItem::Gap(
            FileGapItem {
                gap: sectors,
                kind: GapKind::Form2,
                subheader: None,
                form2_edc: Some(form2_edc),
            },
        )
    }

    pub fn mode1_gap(sectors: u32) -> (item: FileLayoutItem)
        ensures
            item == plain_gap(sectors, GapKind::Mode1),
    {
        FileLayoutItem::Gap(
            FileGapItem { gap: sectors, kind: GapKind::Mode1, subheader: None, form2_edc: None },
        )
    }

    pub fn form1_gap(sectors: u32, subheader: XaSubheader) -> (item: FileLayoutItem)
        ensures
            item == FileLayoutItem::Gap(
                (FileGapItem {
                    gap: sectors,
                    kind: GapKind::Form1,
                    subheader: Some(subheader),
                    form2_edc: None,
                }),
            ),
    {
        FileLayoutItem::Gap(
            FileGapItem {
                gap: sectors,
                kind: GapKind::Form1,
                subheader: Some(subheader),
                form2_edc: None,
            },
        )
    }

    pub fn xa_gap(sectors: u32) -> (item: FileLayoutItem)
        ensures
            item == plain_gap(sectors, GapKind::Xa),
    {
        FileLayoutItem::Gap(
            FileGapItem { gap: sectors, kind: GapKind::Xa, subheader: None, form2_edc: None },
        )
    }

    pub fn raw_zero_gap(sectors: u32) -> (item: FileLayoutItem)
        ensures
            item == plain_gap(sectors, GapKind::RawZero),
    {
        FileLayoutItem::Gap(
            FileGapItem { gap: sectors, kind: GapKind::RawZero, subheader: None, form2_edc: None },
        )
    }

    pub fn as_path(&self) -> (path: Option<&str>)
        ensures
            match path {
                Some(path) => (self matches FileLayoutItem::Path(item) && path@ == item.path@),
                None => !(self is Path),
            },
    {
        match self {
            FileLayoutItem::Path(item) => Some(item.path.as_str()),
            _ => None,
        }
    }

    pub fn as_path_item(&self) -> (item: Option<&FilePathItem>)
        ensures
            match item {
                Some(item) => *self == FileLayoutItem::Path(*item),
                None => !(self is Path),
            },
    {
        match self {
            FileLayoutItem::Path(item) => Some(item),
            _ => None,
        }
    }

    pub fn as_directory_placement(&self) -> (placement: Option<(MetadataVolume, &str)>)
        ensures
            match placement {
                Some((volume, path)) => (self matches FileLayoutItem::Directory(item) && volume
                    == item.volume && path@ == item.directory@),
                None => !(self is Directory),
            },
    {
        match self {
            FileLayoutItem::Directory(item) => Some((item.volume, item.directory.as_str())),
            _ => None,
        }
    }

    pub fn path_table(path_table: MetadataPathTable) -> (item: FileLayoutItem)
        ensures
            item == FileLayoutItem::PathTable((MetadataPathTableItem { path_table })),
    {
        FileLayoutItem::PathTable(MetadataPathTableItem { path_table })
    }

    pub fn as_path_table(&self) -> (path_table: Option<MetadataPathTable>)
        ensures
            match path_table {
                Some(path_table) => *self == FileLayoutItem::PathTable(
                    (MetadataPathTableItem { path_table }),
                ),
                None => !(self is PathTable),
            },
    {
        match self {
            FileLayoutItem::PathTable(item) => Some(item.path_table),
            _ => None,
        }
    }

    pub fn as_xa_extent(&self) -> (assets: Option<&XaAssets>)
        ensures
            match assets {
                Some(assets) => *self == FileLayoutItem::XaExtent(
                    (FileXaExtentItem { xa_extent: *assets }),
                ),
                None => !(self is XaExtent),
            },
    {
        match self {
            FileLayoutItem::XaExtent(item) => Some(&item.xa_extent),
            _ => None,
        }
    }

    pub fn gap_sectors(&self) -> (sectors: Option<u32>)
        ensures
            sectors == match self {
                FileLayoutItem::Gap(item) => Some(item.gap),
                _ => None,
            },
    {
        match self {
            FileLayoutItem::Gap(item) => Some(item.gap),
            _ => None,
        }
    }

    pub fn gap_kind(&self) -> (kind: Option<GapKind>)
        ensures
            kind == match self {
                FileLayoutItem::Gap(item) => Some(item.kind),
                _ => None,
            },
    {
        match self {
            FileLayoutItem::Gap(item) => Some(item.kind),
            _ => None,
        }
    }

    pub fn gap_subheader(&self) -> (subheader: Option<XaSubheader>)
        ensures
            subheader == match self {
                FileLayoutItem::Gap(item) => item.subheader,
                _ => None,
            },
    {
        match self {
            FileLayoutItem::Gap(item) => item.subheader,
            _ => None,
        }
    }

    pub fn gap_form2_edc(&self) -> (form2_edc: Option<bool>)
        ensures
            form2_edc == match self {
                FileLayoutItem::Gap(item) => item.form2_edc,
                _ => None,
            },
    {
        match self {
            FileLayoutItem::Gap(item) => item.form2_edc,
            _ => None,
        }
    }
}

} // verus!
