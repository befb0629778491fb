//! The project file: everything that is needed to build an image again from
//! the files that were taken out of it.
pub mod layout;
pub mod track;
pub mod volume;

use vstd::prelude::*;

use crate::error::{failure_of, Error, ErrorKind, Failure};

verus! {

/// The XA permissions that an entry has unless it says otherwise.
pub const DEFAULT_XA_PERMISSIONS: u16 = 0x0555;

/// How directory records fill a block.
#[derive(Clone, Copy, Debug, PartialEq, Eq, Structural)]
pub enum DirectoryRecordPacking {
    Fill,
    /// A record that would end exactly at the block's end starts in the next block.
    AvoidExactFit,
}

impl Default for DirectoryRecordPacking {
    fn default() -> (value: DirectoryRecordPacking)
        ensures
            value == DirectoryRecordPacking::Fill,
    {
        DirectoryRecordPacking::Fill
    }
}

impl DirectoryRecordPacking {
    pub fn is_default(&self) -> (default: bool)
        ensures
            default == (*self == DirectoryRecordPacking::Fill),
    {
        *self == DirectoryRecordPacking::Fill
    }
}

/// Whose time a directory's parent record carries.
#[derive(Clone, Copy, Debug, PartialEq, Eq, Structural)]
pub enum DirectoryParentRecordingTime {
    Parent,
    Current,
}

impl Default for DirectoryParentRecordingTime {
    fn default() -> (value: DirectoryParentRecordingTime)
        ensures
            value == DirectoryParentRecordingTime::Parent,
    {
        DirectoryParentRecordingTime::Parent
    }
}

impl DirectoryParentRecordingTime {
    pub fn is_default(&self) -> (default: bool)
        ensures
            default == (*self == DirectoryParentRecordingTime::Parent),
    {
        *self == DirectoryParentRecordingTime::Parent
    }
}

/// What a directory's recorded length counts.
#[derive(Clone, Copy, Debug, PartialEq, Eq, Structural)]
pub enum DirectoryLengthPolicy {
    /// Whole blocks.
    Allocated,
    /// Up to the end of the last record.
    Records,
}

impl Default for DirectoryLengthPolicy {
    fn default() -> (value: DirectoryLengthPolicy)
        ensures
            value == DirectoryLengthPolicy::Allocated,
    {
        DirectoryLengthPolicy::Allocated
    }
}

impl DirectoryLengthPolicy {
    pub fn is_default(&self) -> (default: bool)
        ensures
            default == (*self == DirectoryLengthPolicy::Allocated),
    {
        *self == DirectoryLengthPolicy::Allocated
    }
}

/// The UCS-2 level that a supplementary descriptor declares.
#[derive(Clone, Copy, Debug, PartialEq, Eq, Structural)]
pub enum JolietLevel {
    Level1,
    Level2,
    Level3,
}

/// One of the two directory trees of an image.
#[derive(Clone, Copy, Debug, PartialEq, Eq, Structural)]
pub enum MetadataVolume {
    Primary,
    Joliet,
}

impl Default for MetadataVolume {
    fn default() -> (value: MetadataVolume)
        ensures
            value == MetadataVolume::Primary,
    {
        MetadataVolume::Primary
    }
}

/// Which byte order's path tables come first.
#[derive(Clone, Copy, Debug, PartialEq, Eq, Structural)]
pub enum PathTableOrder {
    LittleEndianFirst,
    BigEndianFirst,
}

impl Default for PathTableOrder {
    fn default() -> (value: PathTableOrder)
        ensures
            value == PathTableOrder::LittleEndianFirst,
    {
        PathTableOrder::LittleEndianFirst
    }
}

impl PathTableOrder {
    pub fn is_default(&self) -> (default: bool)
        ensures
            default == (*self == PathTableOrder::LittleEndianFirst),
    {
        *self == PathTableOrder::LittleEndianFirst
    }
}

/// The subheader policy of the descriptor sectors.
#[derive(Clone, Copy, Debug, PartialEq, Eq, Structural)]
pub enum IsoMetadataSubheader {
    Canonical,
    Data,
    EndOfFileData,
    IsoMetadata,
}

impl Default for IsoMetadataSubheader {
    fn default() -> (value: IsoMetadataSubheader)
        ensures
            value == IsoMetadataSubheader::Canonical,
    {
        IsoMetadataSubheader::Canonical
    }
}

/// The subheader policy of the sectors of one entry.
#[derive(Clone, Copy, Debug, PartialEq, Eq, Structural)]
pub enum EntrySectorSubheader {
    Canonical,
    Data,
    EndOfFileData,
    DataUntilFinal,
    IsoMetadata,
}

impl Default for EntrySectorSubheader {
    fn default() -> (value: EntrySectorSubheader)
        ensures
            value == EntrySectorSubheader::Canonical,
    {
        EntrySectorSubheader::Canonical
    }
}

impl EntrySectorSubheader {
    pub fn is_default(&self) -> (default: bool)
        ensures
            default == (*self == EntrySectorSubheader::Canonical),
    {
        *self == EntrySectorSubheader::Canonical
    }
}

/// How a descriptor writes its 16-bit fields.
#[derive(Clone, Copy, Debug, PartialEq, Eq, Structural)]
pub enum PvdU16Encoding {
    BothEndian,
    LittleEndianOnly,
}

impl Default for PvdU16Encoding {
    fn default() -> (value: PvdU16Encoding)
        ensures
            value == PvdU16Encoding::BothEndian,
    {
        PvdU16Encoding::BothEndian
    }
}

impl PvdU16Encoding {
    pub fn is_default(&self) -> (default: bool)
        ensures
            default == (*self == PvdU16Encoding::BothEndian),
    {
        *self == PvdU16Encoding::BothEndian
    }
}

/// The known contents of a descriptor's application-use field.
#[derive(Clone, Copy, Debug, PartialEq, Eq, Structural)]
pub enum PrimaryVolumeApplicationUse {
    CdXa001,
    CdXa001_1_1,
    CdXa001Xcd3221Revision13,
    CdRep20131,
}

impl Default for PrimaryVolumeApplicationUse {
    fn default() -> (value: PrimaryVolumeApplicationUse)
        ensures
            value == PrimaryVolumeApplicationUse::CdXa001,
    {
        PrimaryVolumeApplicationUse::CdXa001
    }
}

impl PrimaryVolumeApplicationUse {
    pub fn is_default(&self) -> (default: bool)
        ensures
            default == (*self == PrimaryVolumeApplicationUse::CdXa001),
    {
        *self == PrimaryVolumeApplicationUse::CdXa001
    }
}

/// The sector size by which a directory record counts an XA file.
#[derive(Clone, Copy, Debug, PartialEq, Eq, Structural)]
pub enum XaLengthEncoding {
    Logical2048,
    Mode2_2336,
}

impl Default for XaLengthEncoding {
    fn default() -> (value: XaLengthEncoding)
        ensures
            value == XaLengthEncoding::Logical2048,
    {
        XaLengthEncoding::Logical2048
    }
}

impl XaLengthEncoding {
    pub fn is_default(&self) -> (default: bool)
        ensures
            default == (*self == XaLengthEncoding::Logical2048),
    {
        *self == XaLengthEncoding::Logical2048
    }
}

/// The sectors that a gap is made of.
#[derive(Clone, Copy, Debug, PartialEq, Eq, Structural)]
pub enum GapKind {
    Form2,
    Mode1,
    Form1,
    Xa,
    RawZero,
}

impl Default for GapKind {
    fn default() -> (value: GapKind)
        ensures
            value == GapKind::Form2,
    {
        GapKind::Form2
    }
}

impl GapKind {
    pub fn is_default(&self) -> (default: bool)
        ensures
            default == (*self == GapKind::Form2),
    {
        *self == GapKind::Form2
    }
}

/// One XA attribute bit of a directory record.
#[derive(Clone, Copy, Debug, PartialEq, Eq, Structural)]
pub enum XaAttributeFlag {
    Mode2Form1,
    Mode2Form2,
    Interleaved,
    Cdda,
    Directory,
}

/// The XA attribute bits of a directory record.
#[derive(Clone, Copy, Debug, PartialEq, Eq, Structural)]
pub struct XaAttributes(pub u16);

impl XaAttributeFlag {
    /// The bit that stands for the flag.
    pub open spec fn mask(self) -> u16 {
        match self {
            XaAttributeFlag::Mode2Form1 => 0x0800,
            XaAttributeFlag::Mode2Form2 => 0x1000,
            XaAttributeFlag::Interleaved => 0x2000,
            XaAttributeFlag::Cdda => 0x4000,
            XaAttributeFlag::Directory => 0x8000,
        }
    }

    pub fn bit(self) -> (bit: u16)
        ensures
            bit == self.mask(),
    {
        match self {
            XaAttributeFlag::Mode2Form1 => 0x0800,
            XaAttributeFlag::Mode2Form2 => 0x1000,
            XaAttributeFlag::Interleaved => 0x2000,
            XaAttributeFlag::Cdda => 0x4000,
            XaAttributeFlag::Directory => 0x8000,
        }
    }

    /// The name of the flag.
    pub open spec fn spelling(self) -> Seq<char> {
        match self {
            XaAttributeFlag::Mode2Form1 => "mode2_form1"@,
            XaAttributeFlag::Mode2Form2 => "mode2_form2"@,
            XaAttributeFlag::Interleaved => "interleaved"@,
            XaAttributeFlag::Cdda => "cdda"@,
            XaAttributeFlag::Directory => "directory"@,
        }
    }

    pub fn name(self) -> (name: &'static str)
        ensures
            name@ == self.spelling(),
    {
        match self {
            XaAttributeFlag::Mode2Form1 => "mode2_form1",
            XaAttributeFlag::Mode2Form2 => "mode2_form2",
            XaAttributeFlag::Interleaved => "interleaved",
            XaAttributeFlag::Cdda => "cdda",
            XaAttributeFlag::Directory => "directory",
        }
    }
}

/// Every attribute flag, from the lowest bit to the highest.
pub open spec fn all_attribute_flags() -> Seq<XaAttributeFlag> {
    seq![
        XaAttributeFlag::Mode2Form1,
        XaAttributeFlag::Mode2Form2,
        XaAttributeFlag::Interleaved,
        XaAttributeFlag::Cdda,
        XaAttributeFlag::Directory,
    ]
}

/// Those of `flags` that are set in `bits`, in their order.
pub open spec fn set_attributes(bits: u16, flags: Seq<XaAttributeFlag>) -> Seq<XaAttributeFlag>
    decreases flags.len(),
{
    if flags.len() == 0 {
        Seq::empty()
    } else {
        let rest = set_attributes(bits, flags.drop_last());
        if bits & flags.last().mask() != 0 {
            rest.push(flags.last())
        } else {
            rest
        }
    }
}

/// The bits of a list of flags, none of which may come twice.
pub open spec fn attribute_bits(flags: Seq<XaAttributeFlag>) -> Result<u16, Failure>
    decreases flags.len(),
{
    if flags.len() == 0 {
        Ok(0)
    } else {
        match attribute_bits(flags.drop_last()) {
            Ok(bits) => if bits & flags.last().mask() != 0 {
                Err(failure_of(ErrorKind::DuplicateAttributeFlag, flags.last().spelling()))
            } else {
                Ok(bits | flags.last().mask())
            },
            Err(failure) => Err(failure),
        }
    }
}

impl XaAttributes {
    /// The attributes with one flag.
    pub fn single(flag: XaAttributeFlag) -> (attributes: XaAttributes)
        ensures
            attributes == XaAttributes(flag.mask()),
    {
        XaAttributes(flag.bit())
    }

    pub fn from_bits(bits: u16) -> (attributes: XaAttributes)
        ensures
            attributes == XaAttributes(bits),
    {
        XaAttributes(bits)
    }

    pub fn bits(self) -> (bits: u16)
        ensures
            bits == self.0,
    {
        self.0
    }

    /// The attributes have the flag.
    pub open spec fn has(self, flag: XaAttributeFlag) -> bool {
        self.0 & flag.mask() != 0
    }

    pub fn contains(self, flag: XaAttributeFlag) -> (present: bool)
        ensures
            present == self.has(flag),
    {
        self.0 & flag.bit() != 0
    }

    /// The flags of the attributes, from the lowest bit to the highest.
    pub fn flags(self) -> (flags: Vec<XaAttributeFlag>)
        ensures
            flags@ == set_attributes(self.0, all_attribute_flags()),
    {
        let all: [XaAttributeFlag; 5] = [
            XaAttributeFlag::Mode2Form1,
            XaAttributeFlag::Mode2Form2,
            XaAttributeFlag::Interleaved,
            XaAttributeFlag::Cdda,
            XaAttributeFlag::Directory,
        ];
        assert(all@ =~= all_attribute_flags());
        let mut flags: Vec<XaAttributeFlag> = Vec::new();
        let mut i: usize = 0;
        while i < 5
            invariant
                i <= 5,
                all@ == all_attribute_flags(),
                flags@ == set_attributes(self.0, all@.take(i as int)),
            decreases 5 - i,
        {
            assert(all@.take(i + 1).drop_last() =~= all@.take(i as int));
            if self.contains(all[i]) {
                flags.push(all[i]);
            }
            i = i + 1;
        }
        assert(all@.take(5) =~= all@);
        flags
    }

    /// The attributes that a list of flags makes; no flag may come twice.
    pub fn from_flags(flags: &[XaAttributeFlag]) -> (result: Result<XaAttributes, Error>)
        ensures
            match (result, attribute_bits(flags@)) {
                (Ok(attributes), Ok(bits)) => attributes == XaAttributes(bits),
                (Err(error), Err(failure)) => error@ == failure,
                _ => false,
            },
    {
        let mut bits: u16 = 0;
        let mut i: usize = 0;
        while i < flags.len()
            invariant
                i <= flags.len(),
                attribute_bits(flags@.take(i as int)) == Ok::<u16, Failure>(bits),
            decreases flags.len() - i,
        {
            assert(flags@.take(i + 1).drop_last() =~= flags@.take(i as int));
            let bit: u16 = flags[i].bit();
            if bits & bit != 0 {
                proof {
                    let failure = failure_of(
                        ErrorKind::DuplicateAttributeFlag,
                        flags@[i as int].spelling(),
                    );
                    assert(attribute_bits(flags@.take(i + 1)) == Err::<u16, Failure>(failure));
                    duplicate_attribute_stays(flags@, i + 1, failure);
                }
                return Err(Error::of(ErrorKind::DuplicateAttributeFlag, flags[i].name()));
            }
            bits = bits | bit;
            i = i + 1;
        }
        assert(flags@.take(flags.len() as int) =~= flags@);
        Ok(XaAttributes(bits))
    }
}

/// A list that repeats a flag stays wrong however it goes on.
proof fn duplicate_attribute_stays(flags: Seq<XaAttributeFlag>, count: int, failure: Failure)
    requires
        0 <= count <= flags.len(),
        attribute_bits(flags.take(count)) == Err::<u16, Failure>(failure),
    ensures
        attribute_bits(flags) == Err::<u16, Failure>(failure),
    decreases flags.len() - count,
{
    if count == flags.len() {
        assert(flags.take(count) =~= flags);
    } else {
        assert(flags.take(count + 1).drop_last() =~= flags.take(count));
        duplicate_attribute_stays(flags, count + 1, failure);
    }
}

/// The flags of a set of attributes make those attributes again; bits that no
/// flag stands for do not survive.
pub proof fn attribute_flags_round_trip(bits: u16)
    ensures
        attribute_bits(set_attributes(bits, all_attribute_flags())) == Ok::<u16, Failure>(
            bits & 0xf800,
        ),
{
    attributes_below(bits, 5);
    assert(all_attribute_flags().take(5) =~= all_attribute_flags());
}

/// The bits of the first attribute flags.
spec fn low_attribute_mask(count: int) -> u16 {
    if count <= 0 {
        0
    } else if count == 1 {
        0x0800
    } else if count == 2 {
        0x1800
    } else if count == 3 {
        0x3800
    } else if count == 4 {
        0x7800
    } else {
        0xf800
    }
}

/// The first flags of a set of attributes make its low attribute bits.
proof fn attributes_below(bits: u16, count: int)
    requires
        0 <= count <= 5,
    ensures
        attribute_bits(set_attributes(bits, all_attribute_flags().take(count))) == Ok::<u16, Failure>(
            bits & low_attribute_mask(count),
        ),
    decreases count,
{
    let all = all_attribute_flags();
    if count == 0 {
        assert(bits & 0u16 == 0u16) by (bit_vector);
        assert(set_attributes(bits, all.take(0)) =~= Seq::empty());
    } else {
        attributes_below(bits, count - 1);
        assert(all.take(count).drop_last() =~= all.take(count - 1));
        let low = low_attribute_mask(count - 1);
        let mask = all[count - 1].mask();
        let rest = set_attributes(bits, all.take(count - 1));
        assert(low & mask == 0 && low | mask == low_attribute_mask(count)) by {
            assert(0u16 & 0x0800 == 0 && 0u16 | 0x0800 == 0x0800 && 0x0800u16 & 0x1000 == 0 && 0x0800u16
                | 0x1000 == 0x1800 && 0x1800u16 & 0x2000 == 0 && 0x1800u16 | 0x2000 == 0x3800
                && 0x3800u16 & 0x4000 == 0 && 0x3800u16 | 0x4000 == 0x7800 && 0x7800u16 & 0x8000 == 0
                && 0x7800u16 | 0x8000 == 0xf800) by (bit_vector);
        }
        assert(low & mask == 0 ==> (bits & low) & mask == 0) by (bit_vector);
        assert(bits & mask == 0 ==> bits & low == bits & (low | mask)) by (bit_vector);
        if bits & mask != 0 {
            assert(mask == 0x0800 || mask == 0x1000 || mask == 0x2000 || mask == 0x4000 || mask
                == 0x8000);
            assert(bits & mask != 0 && (mask == 0x0800 || mask == 0x1000 || mask == 0x2000 || mask
                == 0x4000 || mask == 0x8000) ==> (bits & low) | mask == bits & (low | mask))
                by (bit_vector);
            assert(rest.push(all[count - 1]).drop_last() =~= rest);
        }
    }
}

} // verus!
