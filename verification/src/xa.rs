//! The CD-ROM XA subheader that frames a Mode 2 sector.
use vstd::prelude::*;

use crate::error::{failure_of, Error, ErrorKind, Failure};

verus! {

/// The submode bits of a subheader.
#[derive(Clone, Copy, Debug, PartialEq, Eq, Structural)]
pub struct XaSubmode(pub u8);

/// One submode bit.
#[derive(Clone, Copy, Debug, PartialEq, Eq, Structural)]
pub enum XaSubmodeFlag {
    EndOfRecord,
    Video,
    Audio,
    Data,
    Trigger,
    Form2,
    Realtime,
    EndOfFile,
}

/// The four bytes that describe an XA sector; a sector holds them twice.
#[derive(Clone, Copy, Debug, PartialEq, Eq, Structural)]
pub struct XaSubheader {
    pub file_number: u8,
    pub channel: u8,
    pub submode: XaSubmode,
    pub coding_info: u8,
}

impl XaSubmodeFlag {
    /// The bit that stands for the flag.
    pub open spec fn mask(self) -> u8 {
        match self {
            XaSubmodeFlag::EndOfRecord => 1,
            XaSubmodeFlag::Video => 2,
            XaSubmodeFlag::Audio => 4,
            XaSubmodeFlag::Data => 8,
            XaSubmodeFlag::Trigger => 16,
            XaSubmodeFlag::Form2 => 32,
            XaSubmodeFlag::Realtime => 64,
            XaSubmodeFlag::EndOfFile => 128,
        }
    }

    pub fn bit(self) -> (bit: u8)
        ensures
            bit == self.mask(),
    {
        match self {
            XaSubmodeFlag::EndOfRecord => 1,
            XaSubmodeFlag::Video => 2,
            XaSubmodeFlag::Audio => 4,
            XaSubmodeFlag::Data => 8,
            XaSubmodeFlag::Trigger => 16,
            XaSubmodeFlag::Form2 => 32,
            XaSubmodeFlag::Realtime => 64,
            XaSubmodeFlag::EndOfFile => 128,
        }
    }

    /// The name of the flag.
    pub open spec fn spelling(self) -> Seq<char> {
        match self {
            XaSubmodeFlag::EndOfRecord => "end_of_record"@,
            XaSubmodeFlag::Video => "video"@,
            XaSubmodeFlag::Audio => "audio"@,
            XaSubmodeFlag::Data => "data"@,
            XaSubmodeFlag::Trigger => "trigger"@,
            XaSubmodeFlag::Form2 => "form2"@,
            XaSubmodeFlag::Realtime => "realtime"@,
            XaSubmodeFlag::EndOfFile => "end_of_file"@,
        }
    }

    pub fn name(self) -> (name: &'static str)
        ensures
            name@ == self.spelling(),
    {
        match self {
            XaSubmodeFlag::EndOfRecord => "end_of_record",
            XaSubmodeFlag::Video => "video",
            XaSubmodeFlag::Audio => "audio",
            XaSubmodeFlag::Data => "data",
            XaSubmodeFlag::Trigger => "trigger",
            XaSubmodeFlag::Form2 => "form2",
            XaSubmodeFlag::Realtime => "realtime",
            XaSubmodeFlag::EndOfFile => "end_of_file",
        }
    }
}

/// Every submode flag, from the lowest bit to the highest.
pub open spec fn all_submode_flags() -> Seq<XaSubmodeFlag> {
    seq![
        XaSubmodeFlag::EndOfRecord,
        XaSubmodeFlag::Video,
        XaSubmodeFlag::Audio,
        XaSubmodeFlag::Data,
        XaSubmodeFlag::Trigger,
        XaSubmodeFlag::Form2,
        XaSubmodeFlag::Realtime,
        XaSubmodeFlag::EndOfFile,
    ]
}

/// Those of `flags` that are set in `bits`, in their order.
pub open spec fn set_flags(bits: u8, flags: Seq<XaSubmodeFlag>) -> Seq<XaSubmodeFlag>
    decreases flags.len(),
{
    if flags.len() == 0 {
        Seq::empty()
    } else {
        let rest = set_flags(bits, flags.drop_last());
        if bits & flags.last().mask() != 0 {
            rest.push(flags.last())
        } else {
            rest
        }
    }
}

/// The bits of a list of flags, none of which may come twice.
pub open spec fn flag_bits(flags: Seq<XaSubmodeFlag>) -> Result<u8, Failure>
    decreases flags.len(),
{
    if flags.len() == 0 {
        Ok(0)
    } else {
        match flag_bits(flags.drop_last()) {
            Ok(bits) => if bits & flags.last().mask() != 0 {
                Err(failure_of(ErrorKind::DuplicateSubmodeFlag, flags.last().spelling()))
            } else {
                Ok(bits | flags.last().mask())
            },
            Err(failure) => Err(failure),
        }
    }
}

impl XaSubmode {
    /// The submode with one flag.
    pub fn single(flag: XaSubmodeFlag) -> (submode: XaSubmode)
        ensures
            submode == XaSubmode(flag.mask()),
    {
        XaSubmode(flag.bit())
    }

    pub fn from_bits(bits: u8) -> (submode: XaSubmode)
        ensures
            submode == XaSubmode(bits),
    {
        XaSubmode(bits)
    }

    pub fn bits(self) -> (bits: u8)
        ensures
            bits == self.0,
    {
        self.0
    }

    /// The submode has the flag.
    pub open spec fn has(self, flag: XaSubmodeFlag) -> bool {
        self.0 & flag.mask() != 0
    }

    pub fn contains(self, flag: XaSubmodeFlag) -> (present: bool)
        ensures
            present == self.has(flag),
    {
        self.0 & flag.bit() != 0
    }

    pub fn union(self, other: XaSubmode) -> (submode: XaSubmode)
        ensures
            submode == XaSubmode(self.0 | other.0),
    {
        XaSubmode(self.0 | other.0)
    }

    /// The flags of the submode, from the lowest bit to the highest.
    pub fn flags(self) -> (flags: Vec<XaSubmodeFlag>)
        ensures
            flags@ == set_flags(self.0, all_submode_flags()),
    {
        let all: [XaSubmodeFlag; 8] = [
            XaSubmodeFlag::EndOfRecord,
            XaSubmodeFlag::Video,
            XaSubmodeFlag::Audio,
            XaSubmodeFlag::Data,
            XaSubmodeFlag::Trigger,
            XaSubmodeFlag::Form2,
            XaSubmodeFlag::Realtime,
            XaSubmodeFlag::EndOfFile,
        ];
        assert(all@ =~= all_submode_flags());
        let mut flags: Vec<XaSubmodeFlag> = Vec::new();
        let mut i: usize = 0;
        while i < 8
            invariant
                i <= 8,
                all@ == all_submode_flags(),
                flags@ == set_flags(self.0, all@.take(i as int)),
            decreases 8 - i,
        {
            assert(all@.take(i + 1).drop_last() =~= all@.take(i as int));
            if self.contains(all[i]) {
                flags.push(all[i]);
            }
            i = i + 1;
        }
        assert(all@.take(8) =~= all@);
        flags
    }

    /// The submode that a list of flags makes; no flag may come twice.
    pub fn from_flags(flags: &[XaSubmodeFlag]) -> (result: Result<XaSubmode, Error>)
        ensures
            match (result, flag_bits(flags@)) {
                (Ok(submode), Ok(bits)) => submode == XaSubmode(bits),
                (Err(error), Err(failure)) => error@ == failure,
                _ => false,
            },
    {
        let mut bits: u8 = 0;
        let mut i: usize = 0;
        while i < flags.len()
            invariant
                i <= flags.len(),
                flag_bits(flags@.take(i as int)) == Ok::<u8, Failure>(bits),
            decreases flags.len() - i,
        {
            assert(flags@.take(i + 1).drop_last() =~= flags@.take(i as int));
            let bit: u8 = flags[i].bit();
            if bits & bit != 0 {
                proof {
                    let failure = failure_of(
                        ErrorKind::DuplicateSubmodeFlag,
                        flags@[i as int].spelling(),
                    );
                    assert(flag_bits(flags@.take(i + 1)) == Err::<u8, Failure>(failure));
                    duplicate_flag_stays(flags@, i + 1, failure);
                }
                return Err(Error::of(ErrorKind::DuplicateSubmodeFlag, flags[i].name()));
            }
            bits = bits | bit;
            i = i + 1;
        }
        assert(flags@.take(flags.len() as int) =~= flags@);
        Ok(XaSubmode(bits))
    }
}

/// A list that repeats a flag stays wrong however it goes on.
proof fn duplicate_flag_stays(flags: Seq<XaSubmodeFlag>, count: int, failure: Failure)
    requires
        0 <= count <= flags.len(),
        flag_bits(flags.take(count)) == Err::<u8, Failure>(failure),
    ensures
        flag_bits(flags) == Err::<u8, Failure>(failure),
    decreases flags.len() - count,
{
    if count == flags.len() {
        assert(flags.take(count) =~= flags);
    } else {
        assert(flags.take(count + 1).drop_last() =~= flags.take(count));
        duplicate_flag_stays(flags, count + 1, failure);
    }
}

/// The flags of a submode make that submode again.
pub proof fn submode_flags_round_trip(bits: u8)
    ensures
        flag_bits(set_flags(bits, all_submode_flags())) == Ok::<u8, Failure>(bits),
{
    let all = all_submode_flags();
    flags_below(bits, 8);
    assert(all.take(8) =~= all);
    assert(bits & 255u8 == bits) by (bit_vector);
}

/// The bits below the flag of a given index.
spec fn low_mask(count: int) -> u8 {
    if count <= 0 {
        0
    } else if count == 1 {
        1
    } else if count == 2 {
        3
    } else if count == 3 {
        7
    } else if count == 4 {
        15
    } else if count == 5 {
        31
    } else if count == 6 {
        63
    } else if count == 7 {
        127
    } else {
        255
    }
}

/// The first flags of a submode make its low bits.
proof fn flags_below(bits: u8, count: int)
    requires
        0 <= count <= 8,
    ensures
        flag_bits(set_flags(bits, all_submode_flags().take(count))) == Ok::<u8, Failure>(
            bits & low_mask(count),
        ),
    decreases count,
{
    let all = all_submode_flags();
    if count == 0 {
        assert(bits & 0u8 == 0u8) by (bit_vector);
        assert(set_flags(bits, all.take(0)) =~= Seq::empty());
    } else {
        flags_below(bits, count - 1);
        assert(all.take(count).drop_last() =~= all.take(count - 1));
        let low = low_mask(count - 1);
        let mask = all[count - 1].mask();
        let rest = set_flags(bits, all.take(count - 1));
        assert(low & mask == 0 && low | mask == low_mask(count)) by {
            assert(0u8 & 1u8 == 0 && 0u8 | 1u8 == 1 && 1u8 & 2u8 == 0 && 1u8 | 2u8 == 3 && 3u8 & 4u8
                == 0 && 3u8 | 4u8 == 7 && 7u8 & 8u8 == 0 && 7u8 | 8u8 == 15 && 15u8 & 16u8 == 0
                && 15u8 | 16u8 == 31 && 31u8 & 32u8 == 0 && 31u8 | 32u8 == 63 && 63u8 & 64u8 == 0
                && 63u8 | 64u8 == 127 && 127u8 & 128u8 == 0 && 127u8 | 128u8 == 255) by (bit_vector);
        }
        assert(low & mask == 0 ==> (bits & low) & mask == 0) by (bit_vector);
        assert(bits & mask == 0 ==> bits & low == bits & (low | mask)) by (bit_vector);
        if bits & mask != 0 {
            assert(mask == 1 || mask == 2 || mask == 4 || mask == 8 || mask == 16 || mask == 32
                || mask == 64 || mask == 128);
            assert(bits & mask != 0 && (mask == 1 || mask == 2 || mask == 4 || mask == 8 || mask
                == 16 || mask == 32 || mask == 64 || mask == 128) ==> (bits & low) | mask == bits & (
            low | mask)) by (bit_vector);
            assert(rest.push(all[count - 1]).drop_last() =~= rest);
        }
    }
}

/// The four bytes of a subheader.
pub open spec fn subheader_bytes(subheader: XaSubheader) -> Seq<u8> {
    seq![subheader.file_number, subheader.channel, subheader.submode.0, subheader.coding_info]
}

/// The subheader that four bytes hold.
pub open spec fn subheader_of(bytes: Seq<u8>) -> XaSubheader {
    XaSubheader {
        file_number: bytes[0],
        channel: bytes[1],
        submode: XaSubmode(bytes[2]),
        coding_info: bytes[3],
    }
}

impl XaSubheader {
    pub fn with_submode(submode: XaSubmode) -> (subheader: XaSubheader)
        ensures
            subheader == (XaSubheader { file_number: 0, channel: 0, submode, coding_info: 0 }),
    {
        XaSubheader { file_number: 0, channel: 0, submode, coding_info: 0 }
    }

    /// Reads a subheader.
    pub fn from_bytes(bytes: [u8; 4]) -> (subheader: XaSubheader)
        ensures
            subheader == subheader_of(bytes@),
    {
        XaSubheader {
            file_number: bytes[0],
            channel: bytes[1],
            submode: XaSubmode(bytes[2]),
            coding_info: bytes[3],
        }
    }

    /// Writes a subheader.
    pub fn to_bytes(self) -> (bytes: [u8; 4])
        ensures
            bytes@ == subheader_bytes(self),
    {
        let bytes: [u8; 4] = [self.file_number, self.channel, self.submode.0, self.coding_info];
        assert(bytes@ =~= subheader_bytes(self));
        bytes
    }
}

impl Default for XaSubheader {
    fn default() -> (subheader: XaSubheader)
        ensures
            subheader_bytes(subheader) == seq![0u8, 0u8, 0u8, 0u8],
    {
        XaSubheader { file_number: 0, channel: 0, submode: XaSubmode(0), coding_info: 0 }
    }
}

/// A subheader survives being written and read, and so do its bytes.
pub proof fn subheader_round_trip(subheader: XaSubheader, bytes: Seq<u8>)
    requires
        bytes.len() == 4,
    ensures
        subheader_of(subheader_bytes(subheader)) == subheader,
        subheader_bytes(subheader_of(bytes)) == bytes,
{
    assert(subheader_bytes(subheader_of(bytes)) =~= bytes);
}

impl From<[u8; 4]> for XaSubheader {
    fn from(bytes: [u8; 4]) -> (subheader: XaSubheader) {
        XaSubheader::from_bytes(bytes)
    }
}

impl vstd::std_specs::convert::FromSpecImpl<[u8; 4]> for XaSubheader {
    open spec fn obeys_from_spec() -> bool {
        true
    }

    open spec fn from_spec(bytes: [u8; 4]) -> XaSubheader {
        subheader_of(bytes@)
    }
}

} // verus!
