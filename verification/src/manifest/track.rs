//! The parts of a project that describe a track.
use vstd::prelude::*;

use crate::bytes::copy_of;
use crate::error::{failure, failure_about, failure_of, Error, ErrorKind, Failure};
use crate::hexcode::{decode, decoded, encode, hex_bytes, hex_round_trip, hex_text, is_hex};
use crate::manifest::layout::FileGapItem;
use crate::manifest::volume::Iso9660;
use crate::manifest::EntrySectorSubheader;
use crate::model::{agrees, ceil_div};
use crate::text::{chars_of, decimal, push_decimal, same_text};
use crate::xa::XaSubheader;

verus! {

/// The number of sectors before the first descriptor.
pub const SYSTEM_AREA_SECTORS: usize = 16;

/// A project: the track, the system area, and what the track holds.
#[derive(Clone, Debug)]
pub struct Manifest {
    pub gcdgold: GcdgoldMetadata,
    pub track: Track,
    pub system_area: Option<SystemArea>,
    pub iso9660: Option<Iso9660>,
    pub form1: Option<Form1Project>,
}

/// A track without a filesystem: sectors of the first form in their order.
#[derive(Clone, Debug)]
pub struct Form1Project {
    pub layout: Vec<Form1LayoutItem>,
}

/// A part of a track without a filesystem.
#[derive(Clone, Debug, PartialEq, Eq)]
pub enum Form1LayoutItem {
    Asset(Form1Asset),
    Gap(FileGapItem),
}

/// A file whose bytes fill sectors of the first form.
#[derive(Clone, Debug, PartialEq, Eq)]
pub struct Form1Asset {
    pub path: String,
    pub sha1: Option<String>,
    pub subheader: EntrySectorSubheader,
}

/// Which version a project was written by.
#[derive(Clone, Debug)]
pub struct GcdgoldMetadata {
    pub version: String,
}

/// The framing of a track.
#[derive(Clone, Debug)]
pub struct Track {
    pub sha1: Option<String>,
    pub mode: TrackMode,
    pub start_msf: String,
    pub form2_edc: bool,
    pub noncompliant_trailing_ecc: bool,
    pub redump_0x55: Vec<Redump0x55Run>,
    pub mode1_reserved: Vec<Mode1ReservedRun>,
    pub mode1_protection: Option<Mode1Protection>,
    pub patches: Vec<SectorPatch>,
}

/// A run of sectors that hold nothing but the byte 0x55.
#[derive(Clone, Copy, Debug, PartialEq, Eq, Structural)]
pub struct Redump0x55Run {
    pub lba: i32,
    pub sectors: u32,
}

/// A run of Mode 1 sectors whose reserved bytes are not zero.
#[derive(Clone, Debug, PartialEq, Eq)]
pub struct Mode1ReservedRun {
    pub lba: i32,
    pub sectors: u32,
    pub hex: String,
}

/// Mode 1 sectors whose codes are altered on purpose.
#[derive(Clone, Debug, PartialEq, Eq)]
pub struct Mode1Protection {
    pub edc_xor: String,
    pub reserved: String,
    pub ecc_xor: String,
    pub payload_inverted: bool,
    pub runs: Vec<Mode1ProtectionRun>,
}

/// A run of Mode 1 sectors whose codes are altered.
#[derive(Clone, Copy, Debug, PartialEq, Eq, Structural)]
pub struct Mode1ProtectionRun {
    pub lba: i32,
    pub sectors: u32,
}

/// A sector that is given byte for byte.
#[derive(Clone, Debug, PartialEq, Eq)]
pub struct SectorPatch {
    pub lba: i32,
    pub hex: String,
}

/// The mode of a track.
#[derive(Clone, Copy, Debug, PartialEq, Eq, Structural)]
pub enum TrackMode {
    Mode1,
    Mode2,
    Mode2Xa,
}

/// The sectors before the first descriptor.
#[derive(Clone, Debug)]
pub struct SystemArea {
    pub path: String,
    pub sha1: Option<String>,
    pub form1_sectors: Form1Sectors,
    pub sector_layout: Vec<SystemAreaSectorRun>,
    pub final_form1_subheader: SystemAreaFinalSubheader,
    pub form1_framing: Vec<SystemAreaForm1Framing>,
}

/// A run of sectors of one kind in the system area.
#[derive(Clone, Copy, Debug, PartialEq, Eq, Structural)]
pub struct SystemAreaSectorRun {
    pub kind: SystemAreaSectorKind,
    pub sectors: u8,
}

/// The kinds of sectors in the system area.
#[derive(Clone, Copy, Debug, PartialEq, Eq, Structural)]
pub enum SystemAreaSectorKind {
    Form1,
    Form2,
    XaGap,
}

/// The subheaders of a sector in the system area.
#[derive(Clone, Copy, Debug, PartialEq, Eq, Structural)]
pub struct SystemAreaForm1Framing {
    pub sector: u8,
    pub subheader: XaSubheader,
    pub subheader_copy: XaSubheader,
}

/// The subheader of the last sector of the first form in the system area.
#[derive(Clone, Copy, Debug, PartialEq, Eq, Structural)]
pub enum SystemAreaFinalSubheader {
    Data,
    EndOfFileData,
}

/// How many sectors of the system area have the first form.
#[derive(Clone, Debug)]
pub enum Form1Sectors {
    Auto(String),
    Count(u8),
}

impl Default for TrackMode {
    fn default() -> (value: TrackMode)
        ensures
            value == TrackMode::Mode2Xa,
    {
        TrackMode::Mode2Xa
    }
}

impl Default for SystemAreaFinalSubheader {
    fn default() -> (value: SystemAreaFinalSubheader)
        ensures
            value == SystemAreaFinalSubheader::Data,
    {
        SystemAreaFinalSubheader::Data
    }
}

impl SystemAreaFinalSubheader {
    pub fn is_default(&self) -> (default: bool)
        ensures
            default == (*self == SystemAreaFinalSubheader::Data),
    {
        *self == SystemAreaFinalSubheader::Data
    }
}

impl TrackMode {
    /// How a project spells the mode.
    pub open spec fn spelling(self) -> Seq<char> {
        match self {
            TrackMode::Mode1 => seq!['1'],
            TrackMode::Mode2 => seq!['2'],
            TrackMode::Mode2Xa => seq!['2', 'x', 'a'],
        }
    }

    pub fn name(self) -> (name: &'static str)
        ensures
            name@ == self.spelling(),
    {
        proof {
            reveal_strlit("1");
            reveal_strlit("2");
            reveal_strlit("2xa");
            assert("1"@ =~= TrackMode::Mode1.spelling());
            assert("2"@ =~= TrackMode::Mode2.spelling());
            assert("2xa"@ =~= TrackMode::Mode2Xa.spelling());
        }
        match self {
            TrackMode::Mode1 => "1",
            TrackMode::Mode2 => "2",
            TrackMode::Mode2Xa => "2xa",
        }
    }

    /// Finds the mode that a text spells.
    pub fn from_name(text: &str) -> (result: Result<TrackMode, Error>)
        ensures
            match result {
                Ok(mode) => text@ == mode.spelling(),
                Err(error) => {
                    &&& error@ == failure(ErrorKind::TrackMode)
                    &&& forall|mode: TrackMode| text@ != #[trigger] mode.spelling()
                },
            },
    {
        if same_text(text, TrackMode::Mode1.name()) {
            Ok(TrackMode::Mode1)
        } else if same_text(text, TrackMode::Mode2.name()) {
            Ok(TrackMode::Mode2)
        } else if same_text(text, TrackMode::Mode2Xa.name()) {
            Ok(TrackMode::Mode2Xa)
        } else {
            Err(Error::new(ErrorKind::TrackMode))
        }
    }

    /// Finds the mode that a number names.
    pub fn from_number(number: i64) -> (result: Result<TrackMode, Error>)
        ensures
            match result {
                Ok(mode) => (number == 1 && mode == TrackMode::Mode1) || (number == 2 && mode
                    == TrackMode::Mode2),
                Err(error) => number != 1 && number != 2 && error@ == failure(ErrorKind::TrackMode),
            },
    {
        if number == 1 {
            Ok(TrackMode::Mode1)
        } else if number == 2 {
            Ok(TrackMode::Mode2)
        } else {
            Err(Error::new(ErrorKind::TrackMode))
        }
    }
}

/// Where a track begins unless it says otherwise: `00:02:00`.
pub open spec fn start_msf_text() -> Seq<char> {
    seq!['0', '0', ':', '0', '2', ':', '0', '0']
}

pub fn default_start_msf() -> (text: String)
    ensures
        text@ == start_msf_text(),
{
    let text: &str = "00:02:00";
    proof {
        reveal_strlit("00:02:00");
        assert(text@ =~= start_msf_text());
    }
    text.to_owned()
}

impl Default for Track {
    fn default() -> (track: Track)
        ensures
            track.sha1 is None,
            track.mode == TrackMode::Mode2Xa,
            track.start_msf@ == start_msf_text(),
            track.form2_edc,
            !track.noncompliant_trailing_ecc,
            track.redump_0x55@.len() == 0,
            track.mode1_reserved@.len() == 0,
            track.mode1_protection is None,
            track.patches@.len() == 0,
    {
        Track {
            sha1: None,
            mode: TrackMode::Mode2Xa,
            start_msf: default_start_msf(),
            form2_edc: true,
            noncompliant_trailing_ecc: false,
            redump_0x55: Vec::new(),
            mode1_reserved: Vec::new(),
            mode1_protection: None,
            patches: Vec::new(),
        }
    }
}

/// The text that asks for as many sectors as are needed.
pub open spec fn auto_text() -> Seq<char> {
    seq!['a', 'u', 't', 'o']
}

impl Form1Sectors {
    /// The number of sectors that is meant for content of a length.
    pub open spec fn meant(self, content_len: int) -> Result<int, Failure> {
        match self {
            Form1Sectors::Auto(value) => if value@ == auto_text() {
                Ok(ceil_div(content_len, 2048))
            } else {
                Err(failure_of(ErrorKind::Form1SectorsText, value@))
            },
            Form1Sectors::Count(count) => Ok(count as int),
        }
    }

    /// The number of sectors for content of a length, if the content fits them and
    /// they fit the system area.
    pub open spec fn resolved(self, content_len: int) -> Result<u8, Failure> {
        match self.meant(content_len) {
            Err(failure) => Err(failure),
            Ok(count) => if count > 16 {
                Err(failure(ErrorKind::SystemAreaContent))
            } else if content_len > count * 2048 {
                Err(failure(ErrorKind::SystemAreaSectors))
            } else {
                Ok(count as u8)
            },
        }
    }

    /// Finds the number of sectors for content of a length.
    pub fn resolve(&self, content_len: usize) -> (result: Result<u8, Error>)
        ensures
            agrees(result, self.resolved(content_len as int)),
    {
        let needed: usize = if content_len == 0 {
            0
        } else {
            (content_len - 1) / 2048 + 1
        };
        let count: usize = match self {
            Form1Sectors::Auto(value) => {
                let auto: &str = "auto";
                proof {
                    reveal_strlit("auto");
                    assert(auto@ =~= auto_text());
                }
                if !same_text(value.as_str(), auto) {
                    return Err(Error::of(ErrorKind::Form1SectorsText, value.as_str()));
                }
                needed
            },
            Form1Sectors::Count(count) => *count as usize,
        };
        if count > SYSTEM_AREA_SECTORS {
            return Err(Error::new(ErrorKind::SystemAreaContent));
        }
        if content_len > count * 2048 {
            return Err(Error::new(ErrorKind::SystemAreaSectors));
        }
        Ok(count as u8)
    }
}

/// A signed number as a text.
pub open spec fn signed_text(value: i32) -> Seq<char> {
    if value < 0 {
        seq!['-'] + decimal((-value) as nat)
    } else {
        decimal(value as nat)
    }
}

/// Writes a signed number as a text.
pub fn format_signed(value: i32) -> (text: String)
    ensures
        text@ == signed_text(value),
{
    let mut text: String = String::new();
    if value < 0 {
        text.push('-');
        push_decimal(&mut text, (-(value as i64)) as u64);
        assert(text@ =~= signed_text(value));
    } else {
        push_decimal(&mut text, value as u64);
        assert(text@ =~= signed_text(value));
    }
    text
}

/// Bytes as digits, 32 bytes to a line.
pub open spec fn patch_text(bytes: Seq<u8>) -> Seq<char>
    decreases bytes.len(),
{
    if bytes.len() <= 32 {
        hex_text(bytes)
    } else {
        hex_text(bytes.take(32)) + seq!['\n'] + patch_text(bytes.skip(32))
    }
}

/// White space.
pub open spec fn is_space(character: char) -> bool {
    character == ' ' || character == '\t' || character == '\n' || character == '\r' || character
        == '\u{c}'
}

/// A text without its white space.
pub open spec fn compact(text: Seq<char>) -> Seq<char>
    decreases text.len(),
{
    if text.len() == 0 {
        Seq::empty()
    } else if is_space(text.last()) {
        compact(text.drop_last())
    } else {
        compact(text.drop_last()).push(text.last())
    }
}

/// Writes bytes as digits, 32 bytes to a line.
pub fn format_sector_patch_hex(bytes: &[u8]) -> (text: String)
    ensures
        text@ == patch_text(bytes@),
{
    let mut text: String = String::new();
    let mut offset: usize = 0;
    assert(bytes@.skip(0) =~= bytes@);
    while bytes.len() - offset > 32
        invariant
            offset <= bytes.len(),
            patch_text(bytes@) == text@ + patch_text(bytes@.skip(offset as int)),
        decreases bytes.len() - offset,
    {
        let ghost rest = bytes@.skip(offset as int);
        let ghost before = text@;
        let line: String = encode(copy_of(bytes, offset, 32).as_slice());
        proof {
            assert(bytes@.subrange(offset as int, offset + 32) =~= rest.take(32));
            assert(rest.skip(32) =~= bytes@.skip(offset + 32));
        }
        push_text(&mut text, line.as_str());
        text.push('\n');
        proof {
            assert(text@ =~= before + (hex_text(rest.take(32)) + seq!['\n']));
            assert(before + (hex_text(rest.take(32)) + seq!['\n'] + patch_text(rest.skip(32)))
                =~= text@ + patch_text(rest.skip(32)));
        }
        offset = offset + 32;
    }
    let ghost rest = bytes@.skip(offset as int);
    let line: String = encode(copy_of(bytes, offset, bytes.len() - offset).as_slice());
    assert(bytes@.subrange(offset as int, bytes.len() as int) =~= rest);
    push_text(&mut text, line.as_str());
    text
}

pub(crate) fn push_text(text: &mut String, added: &str)
    ensures
        final(text)@ == old(text)@ + added@,
{
    let ghost start = text@;
    let characters: Vec<char> = chars_of(added);
    let mut i: usize = 0;
    assert(text@ =~= start + characters@.take(0));
    while i < characters.len()
        invariant
            start == old(text)@,
            i <= characters.len(),
            text@ == start + characters@.take(i as int),
        decreases characters.len() - i,
    {
        text.push(characters[i]);
        i = i + 1;
        assert(text@ =~= start + characters@.take(i as int));
    }
    assert(characters@.take(i as int) =~= added@);
}

/// The bytes of a sector that a text gives digit by digit.
pub open spec fn patch_bytes(lba: i32, text: Seq<char>) -> Result<Seq<u8>, Failure> {
    match decoded(compact(text), ErrorKind::PatchHex, signed_text(lba)) {
        Err(failure) => Err(failure),
        Ok(bytes) => if bytes.len() == 2352 {
            Ok(bytes)
        } else {
            Err(failure_about(ErrorKind::PatchLength, signed_text(lba), bytes.len() as int))
        },
    }
}

fn compact_text(text: &str) -> (result: String)
    ensures
        result@ == compact(text@),
{
    let characters: Vec<char> = chars_of(text);
    let mut result: String = String::new();
    let mut i: usize = 0;
    assert(characters@.take(0) =~= Seq::empty());
    while i < characters.len()
        invariant
            i <= characters.len(),
            result@ == compact(characters@.take(i as int)),
        decreases characters.len() - i,
    {
        let character: char = characters[i];
        proof {
            let longer = characters@.take(i + 1);
            assert(longer.drop_last() =~= characters@.take(i as int));
            assert(longer.last() == character);
        }
        if !(character == ' ' || character == '\t' || character == '\n' || character == '\r'
            || character == '\u{c}') {
            result.push(character);
        }
        i = i + 1;
    }
    assert(characters@.take(i as int) =~= text@);
    result
}

fn to_sector(bytes: &Vec<u8>) -> (sector: [u8; 2352])
    requires
        bytes.len() == 2352,
    ensures
        sector@ == bytes@,
{
    let mut sector: [u8; 2352] = [0u8; 2352];
    let mut i: usize = 0;
    while i < 2352
        invariant
            i <= 2352,
            bytes.len() == 2352,
            sector@.len() == 2352,
            forall|j: int| 0 <= j < i ==> sector@[j] == bytes@[j],
        decreases 2352 - i,
    {
        sector[i] = bytes[i];
        i = i + 1;
    }
    assert(sector@ =~= bytes@);
    sector
}

/// Reads a sector that is given byte for byte.
pub fn decode_sector_patch(patch: &SectorPatch) -> (result: Result<[u8; 2352], Error>)
    ensures
        match (result, patch_bytes(patch.lba, patch.hex@)) {
            (Ok(sector), Ok(expected)) => sector@ == expected,
            (Err(error), Err(failure)) => error@ == failure,
            _ => false,
        },
{
    let digits: String = compact_text(patch.hex.as_str());
    let place: String = format_signed(patch.lba);
    let bytes: Vec<u8> = match decode(digits.as_str(), ErrorKind::PatchHex, place.as_str()) {
        Ok(value) => value,
        Err(error) => return Err(error),
    };
    if bytes.len() != 2352 {
        return Err(Error::about(ErrorKind::PatchLength, place.as_str(), bytes.len() as u64));
    }
    Ok(to_sector(&bytes))
}

/// Text without white space stays as it is, and text is compacted part by part.
proof fn compact_joins(left: Seq<char>, right: Seq<char>)
    ensures
        compact(left + right) == compact(left) + compact(right),
    decreases right.len(),
{
    if right.len() == 0 {
        assert(left + right =~= left);
        assert(compact(left) + compact(right) =~= compact(left));
    } else {
        let whole = left + right;
        assert(whole.drop_last() =~= left + right.drop_last());
        assert(whole.last() == right.last());
        compact_joins(left, right.drop_last());
        if is_space(right.last()) {
        } else {
            assert(compact(left) + compact(right.drop_last()).push(right.last()) =~= (compact(left)
                + compact(right.drop_last())).push(right.last()));
        }
    }
}

/// Text without white space stays as it is.
proof fn compact_keeps(text: Seq<char>)
    requires
        forall|i: int| 0 <= i < text.len() ==> !is_space(#[trigger] text[i]),
    ensures
        compact(text) == text,
    decreases text.len(),
{
    if text.len() > 0 {
        let shorter = text.drop_last();
        assert forall|i: int| 0 <= i < shorter.len() implies !is_space(#[trigger] shorter[i]) by {
            assert(shorter[i] == text[i]);
        }
        compact_keeps(shorter);
        assert(!is_space(text[text.len() - 1]));
        assert(shorter.push(text.last()) =~= text);
    } else {
        assert(text =~= Seq::empty());
    }
}

/// The lines of a sector's digits are its digits.
proof fn patch_text_compacts(bytes: Seq<u8>)
    ensures
        compact(patch_text(bytes)) == hex_text(bytes),
    decreases bytes.len(),
{
    if bytes.len() <= 32 {
        compact_keeps(hex_text(bytes));
    } else {
        let head = bytes.take(32);
        let tail = bytes.skip(32);
        let break_line = seq!['\n'];
        patch_text_compacts(tail);
        compact_keeps(hex_text(head));
        compact_joins(hex_text(head) + break_line, patch_text(tail));
        compact_joins(hex_text(head), break_line);
        assert(break_line.drop_last() =~= Seq::empty());
        assert(compact(Seq::<char>::empty()) =~= Seq::empty());
        assert(break_line.last() == '\n');
        assert(compact(break_line) =~= Seq::empty());
        assert(hex_text(head) + Seq::<char>::empty() =~= hex_text(head));
        assert(hex_text(head) + hex_text(tail) =~= hex_text(bytes)) by {
            assert(hex_text(bytes).len() == bytes.len() * 2);
            assert forall|i: int| 0 <= i < bytes.len() * 2 implies (hex_text(head) + hex_text(
                tail,
            ))[i] == hex_text(bytes)[i] by {
                if i >= 64 {
                    assert((i - 64) / 2 == i / 2 - 32);
                    assert((i - 64) % 2 == i % 2);
                    assert(tail[(i - 64) / 2] == bytes[i / 2]);
                } else {
                    assert(head[i / 2] == bytes[i / 2]);
                }
            }
        }
    }
}

/// A sector that is written digit by digit is read as it was.
pub proof fn patch_survives(lba: i32, bytes: Seq<u8>)
    requires
        bytes.len() == 2352,
    ensures
        patch_bytes(lba, patch_text(bytes)) == Ok::<Seq<u8>, Failure>(bytes),
{
    patch_text_compacts(bytes);
    hex_round_trip(bytes);
}

/// With `auto`, content takes the least number of sectors that hold it, and what more than
/// the sixteen sectors of the system area would hold is refused.
pub proof fn auto_takes_as_few_sectors_as_hold(sectors: Form1Sectors, content_len: int)
    requires
        content_len >= 0,
        sectors matches Form1Sectors::Auto(text) && text@ == seq!['a', 'u', 't', 'o'],
    ensures
        sectors.resolved(content_len) is Ok <==> content_len <= 32768,
        sectors.resolved(content_len) matches Ok(count) ==> {
            &&& content_len <= count * 2048
            &&& count == 0 || (count - 1) * 2048 < content_len
            &&& count <= 16
        },
        content_len > 32768 ==> sectors.resolved(content_len) == Err::<u8, Failure>(
            failure(ErrorKind::SystemAreaContent),
        ),
{
}

/// A number of sectors that is given is taken where the system area has as many and the
/// content fits them; any text but `auto` is refused.
pub proof fn given_sectors_are_taken(sectors: Form1Sectors, content_len: int)
    requires
        content_len >= 0,
    ensures
        sectors matches Form1Sectors::Count(count) ==> {
            &&& sectors.resolved(content_len) is Ok <==> count <= 16 && content_len <= count * 2048
            &&& sectors.resolved(content_len) is Ok ==> sectors.resolved(content_len)->Ok_0 == count
            &&& count > 16 ==> sectors.resolved(content_len)->Err_0.kind
                == ErrorKind::SystemAreaContent
            &&& count <= 16 && content_len > count * 2048 ==> sectors.resolved(
                content_len,
            )->Err_0.kind == ErrorKind::SystemAreaSectors
        },
        sectors matches Form1Sectors::Auto(text) ==> (text@ != seq!['a', 'u', 't', 'o']
            ==> sectors.resolved(content_len) is Err && sectors.resolved(content_len)->Err_0.kind
            == ErrorKind::Form1SectorsText && sectors.resolved(content_len)->Err_0.subject
            == text@),
{
}

/// The text of a number that is below zero is a minus sign and the digits of the number
/// without it.
pub proof fn sign_stands_before_the_digits(value: i32)
    ensures
        value < 0 && value > i32::MIN ==> signed_text(value) == seq!['-'] + signed_text(
            (-value) as i32,
        ),
        0 <= value < 10 ==> signed_text(value) == seq![((48 + value) as char)],
        value >= 10 ==> signed_text(value) == signed_text((value / 10) as i32).push(
            ((48 + value % 10) as char),
        ),
{
}

/// The digits of a sector are written 32 bytes to a line, and what is no digit but white
/// space may stand anywhere among the digits that are read.
pub proof fn patch_is_laid_out_in_lines(lba: i32, bytes: Seq<u8>)
    ensures
        bytes.len() <= 32 ==> patch_text(bytes) == hex_text(bytes),
        bytes.len() > 32 ==> patch_text(bytes) == hex_text(bytes.subrange(0, 32)) + seq!['\n']
            + patch_text(bytes.subrange(32, bytes.len() as int)),
{
    assert(bytes.len() > 32 ==> bytes.take(32) =~= bytes.subrange(0, 32));
    assert(bytes.len() > 32 ==> bytes.skip(32) =~= bytes.subrange(32, bytes.len() as int));
}

/// White space that is put anywhere into the digits of a sector changes nothing: a space, a
/// tab, a line feed, a carriage return or a form feed. Any other character counts.
pub proof fn white_space_is_passed_over(lba: i32, left: Seq<char>, space: char, right: Seq<char>)
    requires
        space == ' ' || space == '\t' || space == '\n' || space == '\r' || space == '\u{c}',
    ensures
        patch_bytes(lba, left + seq![space] + right) == patch_bytes(lba, left + right),
{
    compact_joins(left + seq![space], right);
    compact_joins(left, seq![space]);
    compact_joins(left, right);
    assert(seq![space].drop_last() =~= Seq::<char>::empty());
    assert(compact(Seq::<char>::empty()) =~= Seq::<char>::empty());
    assert(seq![space].last() == space && is_space(space));
    assert(compact(seq![space]) =~= Seq::<char>::empty());
    assert(compact(left) + Seq::<char>::empty() =~= compact(left));
}

/// Digits without white space are read as the bytes that they stand for where those are a
/// whole sector, and are refused where they are more, fewer, or no digits.
pub proof fn digits_are_read_as_a_sector(lba: i32, text: Seq<char>)
    requires
        forall|i: int|
            0 <= i < text.len() ==> #[trigger] text[i] != ' ' && text[i] != '\t' && text[i] != '\n'
                && text[i] != '\r' && text[i] != '\u{c}',
    ensures
        patch_bytes(lba, text) is Ok <==> is_hex(text) && text.len() == 4704,
        patch_bytes(lba, text) is Ok ==> patch_bytes(lba, text)->Ok_0 == hex_bytes(text),
{
    assert forall|i: int| 0 <= i < text.len() implies !is_space(#[trigger] text[i]) by {}
    compact_keeps(text);
}

} // verus!
