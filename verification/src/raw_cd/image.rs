//! Reading the sectors of a raw image.
use vstd::prelude::*;
use vstd::slice::slice_subrange;

use crate::bytes::{all_are, all_bytes_are, le32, same_bytes};
use crate::error::{failure, failure_at, Error, ErrorKind, Failure};
use crate::model::{views, views_push};
use crate::raw_cd::ecc::{ecc_holds, ecc_matches};
use crate::raw_cd::msf::{frame_of, frame_to_msf, msf_of, msf_to_frame};
use crate::raw_cd::sector::{
    cd_rom_edc, four, generate_edc, has_form2, is_form2, is_stored_edc, no_address, sync,
    sync_is_constant, Kind, SYNC,
};
use crate::raw_cd::RAW_SECTOR_SIZE;
use crate::xa::{subheader_of, XaSubheader};

verus! {

/// A sector that was read, and what it is.
#[derive(Clone, Debug)]
pub struct ParsedSector {
    pub bytes: [u8; RAW_SECTOR_SIZE],
    pub kind: Kind,
    pub subheader: XaSubheader,
    pub subheader_copy: XaSubheader,
    pub form2_edc_valid: bool,
    pub noncompliant_ecc: bool,
}

/// What a sector is.
#[derive(Clone, Copy, Debug, PartialEq, Eq, Structural)]
pub struct SectorClassification {
    pub kind: Kind,
    pub subheader: XaSubheader,
    pub subheader_copy: XaSubheader,
    pub form2_edc_valid: bool,
    pub noncompliant_ecc: bool,
}

/// The mathematical form of a [`ParsedSector`].
#[verifier::ext_equal]
pub struct SectorModel {
    pub bytes: Seq<u8>,
    pub class: SectorClassification,
}

impl View for ParsedSector {
    type V = SectorModel;

    open spec fn view(&self) -> SectorModel {
        SectorModel {
            bytes: self.bytes@,
            class: SectorClassification {
                kind: self.kind,
                subheader: self.subheader,
                subheader_copy: self.subheader_copy,
                form2_edc_valid: self.form2_edc_valid,
                noncompliant_ecc: self.noncompliant_ecc,
            },
        }
    }
}

/// The logical block of a sector.
pub open spec fn block_of(bytes: Seq<u8>, kind: Kind) -> Seq<u8> {
    if kind == Kind::Mode1 || kind == Kind::Mode1Gap {
        bytes.subrange(16, 2064)
    } else {
        bytes.subrange(24, 2072)
    }
}

/// The payload of a sector.
pub open spec fn payload_of(bytes: Seq<u8>, kind: Kind) -> Seq<u8> {
    if kind == Kind::Form2 {
        bytes.subrange(24, 2348)
    } else {
        block_of(bytes, kind)
    }
}

impl ParsedSector {
    pub fn logical_block(&self) -> (block: &[u8])
        ensures
            block@ == block_of(self.bytes@, self.kind),
    {
        match self.kind {
            Kind::Mode1 => slice_subrange(self.bytes.as_slice(), 16, 2064),
            Kind::Mode1Gap => slice_subrange(self.bytes.as_slice(), 16, 2064),
            _ => slice_subrange(self.bytes.as_slice(), 24, 2072),
        }
    }

    pub fn payload(&self) -> (payload: &[u8])
        ensures
            payload@ == payload_of(self.bytes@, self.kind),
    {
        match self.kind {
            Kind::Form2 => slice_subrange(self.bytes.as_slice(), 24, 2348),
            _ => self.logical_block(),
        }
    }
}

/// What a sector without subheaders is.
pub open spec fn classified(kind: Kind) -> SectorClassification {
    SectorClassification {
        kind,
        subheader: subheader_of(seq![0u8, 0u8, 0u8, 0u8]),
        subheader_copy: subheader_of(seq![0u8, 0u8, 0u8, 0u8]),
        form2_edc_valid: false,
        noncompliant_ecc: false,
    }
}

/// What a Mode 1 sector of a track is whose data have an error detection code.
pub open spec fn mode1_class_with(sector: Seq<u8>, index: int, track_mode: u8, edc: u32) -> Result<
    SectorClassification,
    Failure,
> {
    let gap = all_are(sector.subrange(16, 2064), 0);
    if sector.subrange(2064, 2068) != le32(edc) {
        Err(failure_at(ErrorKind::Mode1Edc, index))
    } else if !ecc_holds(sector, sector.subrange(12, 16)) {
        Err(failure_at(ErrorKind::Mode1Ecc, index))
    } else if track_mode != 1 && !gap {
        Err(failure_at(ErrorKind::Mode1InMode2, index))
    } else {
        Ok(
            classified(
                if gap {
                    Kind::Mode1Gap
                } else {
                    Kind::Mode1
                },
            ),
        )
    }
}

/// What a Mode 1 sector of a track is.
pub open spec fn mode1_class(sector: Seq<u8>, index: int, track_mode: u8) -> Result<
    SectorClassification,
    Failure,
> {
    mode1_class_with(sector, index, track_mode, cd_rom_edc(sector.subrange(0, 2064)))
}

/// A sector has the form of an XA gap: nothing but two equal subheaders.
pub open spec fn is_plain_gap(sector: Seq<u8>) -> bool {
    all_are(sector.subrange(16, 2352), 0) || (sector.subrange(16, 20) == sector.subrange(20, 24)
        && all_are(sector.subrange(24, 2352), 0))
}

/// A sector has no data, and its error correction covers its header.
pub open spec fn has_recorded_header_ecc(sector: Seq<u8>) -> bool {
    all_are(sector.subrange(16, 2076), 0) && ecc_holds(sector, sector.subrange(12, 16))
}

/// What a Mode 2 sector is whose data have error detection codes: as a sector of the
/// first form, and as one of the second.
pub open spec fn mode2_class_with(sector: Seq<u8>, index: int, form1_edc: u32, form2_edc: u32) -> Result<
    SectorClassification,
    Failure,
> {
    let whole = sector.subrange(2348, 2352) == le32(form2_edc);
    let class = SectorClassification {
        kind: Kind::Form2,
        subheader: subheader_of(sector.subrange(16, 20)),
        subheader_copy: subheader_of(sector.subrange(20, 24)),
        form2_edc_valid: is_form2(sector) && whole,
        noncompliant_ecc: false,
    };
    if is_form2(sector) {
        Ok(class)
    } else if is_plain_gap(sector) {
        Ok(SectorClassification { kind: Kind::XaGap, ..class })
    } else if sector.subrange(2072, 2076) == le32(form1_edc) && ecc_holds(sector, no_address()) {
        Ok(SectorClassification { kind: Kind::Form1, ..class })
    } else if !whole && has_recorded_header_ecc(sector) {
        Ok(SectorClassification { kind: Kind::XaGap, noncompliant_ecc: true, ..class })
    } else {
        Err(failure_at(ErrorKind::Mode2Sector, index))
    }
}

/// What a Mode 2 sector is.
pub open spec fn mode2_class(sector: Seq<u8>, index: int) -> Result<SectorClassification, Failure> {
    mode2_class_with(
        sector,
        index,
        cd_rom_edc(sector.subrange(16, 2072)),
        cd_rom_edc(sector.subrange(16, 2348)),
    )
}

/// What is known of a track before its sectors are read.
#[derive(Clone, Copy, Debug, PartialEq, Eq, Structural)]
pub struct Track {
    pub mode: u8,
    pub start_frame: u32,
    pub first: usize,
    pub last: usize,
}

/// The time that a sector's header should have.
pub open spec fn expected_msf(track: Track, index: int) -> Result<Seq<u8>, Failure> {
    if index > u32::MAX {
        Err(failure(ErrorKind::IntegerConversion))
    } else if track.start_frame + index > u32::MAX {
        Err(failure(ErrorKind::MsfRange))
    } else {
        msf_of((track.start_frame + index) as u32)
    }
}

/// What a sector of a track is.
pub open spec fn sector_class(sector: Seq<u8>, index: int, track: Track) -> Result<
    SectorClassification,
    Failure,
> {
    let mode = sector[15];
    if all_are(sector, 0) {
        if track.first <= index <= track.last {
            Err(failure(ErrorKind::ZeroSector))
        } else {
            Ok(classified(Kind::RawZero))
        }
    } else if sector.subrange(0, 12) != sync() {
        Err(failure_at(ErrorKind::SectorSync, index))
    } else if mode != track.mode && !(track.mode == 2 && mode == 1) {
        Err(failure_at(ErrorKind::SectorModeMixed, index))
    } else {
        match expected_msf(track, index) {
            Err(failure) => Err(failure),
            Ok(msf) => if sector.subrange(12, 15) != msf {
                Err(failure_at(ErrorKind::SectorMsf, index))
            } else if mode == 1 {
                mode1_class(sector, index, track.mode)
            } else {
                mode2_class(sector, index)
            },
        }
    }
}

fn class_without_subheaders(kind: Kind) -> (class: SectorClassification)
    ensures
        class == classified(kind),
{
    SectorClassification {
        kind,
        subheader: XaSubheader::default(),
        subheader_copy: XaSubheader::default(),
        form2_edc_valid: false,
        noncompliant_ecc: false,
    }
}

/// Tells what a Mode 1 sector of a track is whose data have an error detection code.
pub fn classify_mode1(sector: &[u8], index: usize, track_mode: u8, edc: u32) -> (result: Result<
    SectorClassification,
    Error,
>)
    requires
        sector.len() == 2352,
    ensures
        match (result, mode1_class_with(sector@, index as int, track_mode, edc)) {
            (Ok(class), Ok(expected)) => class == expected,
            (Err(error), Err(failure)) => error@ == failure,
            _ => false,
        },
{
    if !is_stored_edc(edc, slice_subrange(sector, 2064, 2068)) {
        return Err(Error::at(ErrorKind::Mode1Edc, index as u64));
    }
    if !ecc_matches(sector, four(sector, 12)) {
        return Err(Error::at(ErrorKind::Mode1Ecc, index as u64));
    }
    let gap: bool = all_bytes_are(slice_subrange(sector, 16, 2064), 0);
    if track_mode != 1 && !gap {
        return Err(Error::at(ErrorKind::Mode1InMode2, index as u64));
    }
    if gap {
        Ok(class_without_subheaders(Kind::Mode1Gap))
    } else {
        Ok(class_without_subheaders(Kind::Mode1))
    }
}

fn is_gap(sector: &[u8]) -> (gap: bool)
    requires
        sector.len() == 2352,
    ensures
        gap == is_plain_gap(sector@),
{
    all_bytes_are(slice_subrange(sector, 16, 2352), 0) || (same_bytes(
        slice_subrange(sector, 16, 20),
        slice_subrange(sector, 20, 24),
    ) && all_bytes_are(slice_subrange(sector, 24, 2352), 0))
}

fn recorded_header_ecc_matches(sector: &[u8]) -> (holds: bool)
    requires
        sector.len() == 2352,
    ensures
        holds == has_recorded_header_ecc(sector@),
{
    all_bytes_are(slice_subrange(sector, 16, 2076), 0) && ecc_matches(sector, four(sector, 12))
}

fn no_address_bytes() -> (bytes: [u8; 4])
    ensures
        bytes@ == no_address(),
{
    let bytes: [u8; 4] = [0u8, 0u8, 0u8, 0u8];
    assert(bytes@ =~= no_address());
    bytes
}

/// Tells what a Mode 2 sector is whose data have error detection codes: as a sector
/// of the first form, and as one of the second.
pub fn classify_mode2(sector: &[u8], index: usize, form1_edc: u32, form2_edc: u32) -> (result: Result<
    SectorClassification,
    Error,
>)
    requires
        sector.len() == 2352,
    ensures
        match (result, mode2_class_with(sector@, index as int, form1_edc, form2_edc)) {
            (Ok(class), Ok(expected)) => class == expected,
            (Err(error), Err(failure)) => error@ == failure,
            _ => false,
        },
{
    let form2: bool = has_form2(sector);
    let whole_edc: bool = is_stored_edc(form2_edc, slice_subrange(sector, 2348, 2352));
    let mut class = SectorClassification {
        kind: Kind::Form2,
        subheader: XaSubheader::from_bytes(four(sector, 16)),
        subheader_copy: XaSubheader::from_bytes(four(sector, 20)),
        form2_edc_valid: form2 && whole_edc,
        noncompliant_ecc: false,
    };
    if form2 {
        return Ok(class);
    }
    if is_gap(sector) {
        class.kind = Kind::XaGap;
        return Ok(class);
    }
    if is_stored_edc(form1_edc, slice_subrange(sector, 2072, 2076))
        && ecc_matches(sector, no_address_bytes()) {
        class.kind = Kind::Form1;
        return Ok(class);
    }
    if !whole_edc && recorded_header_ecc_matches(sector) {
        class.kind = Kind::XaGap;
        class.noncompliant_ecc = true;
        return Ok(class);
    }
    Err(Error::at(ErrorKind::Mode2Sector, index as u64))
}

fn check_msf(sector: &[u8], index: usize, track: Track) -> (result: Result<bool, Error>)
    requires
        sector.len() == 2352,
    ensures
        match (result, expected_msf(track, index as int)) {
            (Ok(same), Ok(msf)) => same == (sector@.subrange(12, 15) == msf),
            (Err(error), Err(failure)) => error@ == failure,
            _ => false,
        },
{
    if index as u64 > 0xffff_ffff {
        return Err(Error::new(ErrorKind::IntegerConversion));
    }
    let frame: u32 = match track.start_frame.checked_add(index as u32) {
        Some(frame) => frame,
        None => return Err(Error::new(ErrorKind::MsfRange)),
    };
    let msf: [u8; 3] = match frame_to_msf(frame) {
        Ok(value) => value,
        Err(error) => return Err(error),
    };
    Ok(same_bytes(slice_subrange(sector, 12, 15), msf.as_slice()))
}

/// Tells what a sector of a track is.
pub fn classify_sector(sector: &[u8], index: usize, track: Track) -> (result: Result<
    SectorClassification,
    Error,
>)
    requires
        sector.len() == 2352,
    ensures
        match (result, sector_class(sector@, index as int, track)) {
            (Ok(class), Ok(expected)) => class == expected,
            (Err(error), Err(failure)) => error@ == failure,
            _ => false,
        },
{
    if all_bytes_are(sector, 0) {
        if track.first <= index && index <= track.last {
            return Err(Error::new(ErrorKind::ZeroSector));
        }
        return Ok(class_without_subheaders(Kind::RawZero));
    }
    proof {
        sync_is_constant();
    }
    if !same_bytes(slice_subrange(sector, 0, 12), SYNC.as_slice()) {
        return Err(Error::at(ErrorKind::SectorSync, index as u64));
    }
    let mode: u8 = sector[15];
    if mode != track.mode && !(track.mode == 2 && mode == 1) {
        return Err(Error::at(ErrorKind::SectorModeMixed, index as u64));
    }
    let same: bool = match check_msf(sector, index, track) {
        Ok(value) => value,
        Err(error) => return Err(error),
    };
    if !same {
        return Err(Error::at(ErrorKind::SectorMsf, index as u64));
    }
    if mode == 1 {
        let edc: u32 = generate_edc(slice_subrange(sector, 0, 2064));
        classify_mode1(sector, index, track.mode, edc)
    } else {
        let form1_edc: u32 = generate_edc(slice_subrange(sector, 16, 2072));
        let form2_edc: u32 = generate_edc(slice_subrange(sector, 16, 2348));
        classify_mode2(sector, index, form1_edc, form2_edc)
    }
}

/// One of the sectors of an image.
pub open spec fn sector_at(image: Seq<u8>, index: int) -> Seq<u8> {
    image.subrange(index * 2352, index * 2352 + 2352)
}

/// The first sector from `index` on that is not all zero, or the number of sectors.
pub open spec fn first_used(image: Seq<u8>, index: int) -> int
    decreases image.len() / 2352 - index,
{
    if index < 0 || index >= image.len() / 2352 {
        image.len() as int / 2352
    } else if !all_are(sector_at(image, index), 0) {
        index
    } else {
        first_used(image, index + 1)
    }
}

/// The last of the first `count` sectors that is not all zero, or -1.
pub open spec fn last_used(image: Seq<u8>, count: int) -> int
    decreases count,
{
    if count <= 0 {
        -1
    } else if !all_are(sector_at(image, count - 1), 0) {
        count - 1
    } else {
        last_used(image, count - 1)
    }
}

/// The track of an image.
pub open spec fn track_of(image: Seq<u8>) -> Result<Track, Failure> {
    let count = image.len() as int / 2352;
    let first = first_used(image, 0);
    let head = sector_at(image, first);
    if image.len() % 2352 != 0 {
        Err(failure(ErrorKind::ImageSize))
    } else if image.len() == 0 {
        Err(failure(ErrorKind::ImageEmpty))
    } else if first >= count {
        Err(failure(ErrorKind::ImageZero))
    } else if head[15] != 1 && head[15] != 2 {
        Err(failure_at(ErrorKind::SectorMode, first))
    } else {
        match frame_of(head.subrange(12, 15)) {
            Err(failure) => Err(failure),
            Ok(frame) => if first > u32::MAX {
                Err(failure(ErrorKind::IntegerConversion))
            } else if first > frame {
                Err(failure(ErrorKind::LeadingZeros))
            } else {
                Ok(
                    Track {
                        mode: head[15],
                        start_frame: (frame - first) as u32,
                        first: first as usize,
                        last: last_used(image, count) as usize,
                    },
                )
            },
        }
    }
}

/// `read`, and then the sectors from `index` on.
pub open spec fn sectors_from(image: Seq<u8>, track: Track, index: int, read: Seq<SectorModel>) -> Result<
    Seq<SectorModel>,
    Failure,
>
    decreases image.len() / 2352 - index,
{
    if index < 0 || index >= image.len() / 2352 {
        Ok(read)
    } else {
        let bytes = sector_at(image, index);
        match sector_class(bytes, index, track) {
            Err(failure) => Err(failure),
            Ok(class) => sectors_from(
                image,
                track,
                index + 1,
                read.push(SectorModel { bytes, class }),
            ),
        }
    }
}

/// The sectors of an image, and the frame of the first.
pub open spec fn parsed_image(image: Seq<u8>) -> Result<(u32, Seq<SectorModel>), Failure> {
    match track_of(image) {
        Err(failure) => Err(failure),
        Ok(track) => match sectors_from(image, track, 0, Seq::empty()) {
            Err(failure) => Err(failure),
            Ok(sectors) => Ok((track.start_frame, sectors)),
        },
    }
}

fn slice_sector(image: &[u8], index: usize) -> (sector: &[u8])
    requires
        index < image.len() / 2352,
    ensures
        sector@ == sector_at(image@, index as int),
        sector.len() == 2352,
{
    slice_subrange(image, index * 2352, index * 2352 + 2352)
}

fn find_first_used(image: &[u8]) -> (index: usize)
    ensures
        index == first_used(image@, 0),
        index <= image.len() / 2352,
{
    let count: usize = image.len() / 2352;
    let mut index: usize = 0;
    while index < count
        invariant
            index <= count,
            count == image.len() / 2352,
            first_used(image@, 0) == first_used(image@, index as int),
        decreases count - index,
    {
        if !all_bytes_are(slice_sector(image, index), 0) {
            return index;
        }
        index = index + 1;
    }
    index
}

fn find_last_used(image: &[u8]) -> (last: Option<usize>)
    ensures
        match last {
            Some(index) => index == last_used(image@, image.len() as int / 2352),
            None => last_used(image@, image.len() as int / 2352) == -1,
        },
{
    let mut count: usize = image.len() / 2352;
    while count > 0
        invariant
            count <= image.len() / 2352,
            last_used(image@, image.len() as int / 2352) == last_used(image@, count as int),
        decreases count,
    {
        if !all_bytes_are(slice_sector(image, count - 1), 0) {
            return Some(count - 1);
        }
        count = count - 1;
    }
    None
}

/// A sector that is not all zero has a last one.
proof fn last_used_exists(image: Seq<u8>, count: int, used: int)
    requires
        0 <= used < count,
        !all_are(sector_at(image, used), 0),
    ensures
        used <= last_used(image, count) < count,
    decreases count,
{
    if all_are(sector_at(image, count - 1), 0) {
        last_used_exists(image, count - 1, used);
    }
}

/// The first sector that is not all zero is one.
proof fn first_used_is_used(image: Seq<u8>, index: int)
    requires
        0 <= index,
    ensures
        first_used(image, index) < image.len() / 2352 ==> !all_are(
            sector_at(image, first_used(image, index)),
            0,
        ) && first_used(image, index) >= index,
    decreases image.len() / 2352 - index,
{
    if index < image.len() / 2352 && all_are(sector_at(image, index), 0) {
        first_used_is_used(image, index + 1);
    }
}

fn find_track(image: &[u8]) -> (result: Result<Track, Error>)
    ensures
        match (result, track_of(image@)) {
            (Ok(track), Ok(expected)) => track == expected,
            (Err(error), Err(failure)) => error@ == failure,
            _ => false,
        },
        result is Ok ==> image.len() % 2352 == 0,
{
    if image.len() % 2352 != 0 {
        return Err(Error::new(ErrorKind::ImageSize));
    }
    if image.len() == 0 {
        return Err(Error::new(ErrorKind::ImageEmpty));
    }
    let first: usize = find_first_used(image);
    if first >= image.len() / 2352 {
        return Err(Error::new(ErrorKind::ImageZero));
    }
    let head: &[u8] = slice_sector(image, first);
    let mode: u8 = head[15];
    if mode != 1 && mode != 2 {
        return Err(Error::at(ErrorKind::SectorMode, first as u64));
    }
    let msf: [u8; 3] = [head[12], head[13], head[14]];
    assert(msf@ =~= head@.subrange(12, 15));
    let frame: u32 = match msf_to_frame(msf) {
        Ok(value) => value,
        Err(error) => return Err(error),
    };
    if first as u64 > 0xffff_ffff {
        return Err(Error::new(ErrorKind::IntegerConversion));
    }
    if first as u32 > frame {
        return Err(Error::new(ErrorKind::LeadingZeros));
    }
    proof {
        first_used_is_used(image@, 0);
        last_used_exists(image@, image.len() as int / 2352, first as int);
    }
    let last: usize = match find_last_used(image) {
        Some(last) => last,
        None => 0,
    };
    Ok(Track { mode, start_frame: frame - first as u32, first, last })
}

fn copy_sector(sector: &[u8]) -> (copy: [u8; RAW_SECTOR_SIZE])
    requires
        sector.len() == 2352,
    ensures
        copy@ == sector@,
{
    let mut copy: [u8; RAW_SECTOR_SIZE] = [0u8; 2352];
    let mut i: usize = 0;
    while i < 2352
        invariant
            i <= 2352,
            sector.len() == 2352,
            copy@.len() == 2352,
            forall|j: int| 0 <= j < i ==> copy@[j] == sector@[j],
        decreases 2352 - i,
    {
        copy[i] = sector[i];
        i = i + 1;
    }
    assert(copy@ =~= sector@);
    copy
}

/// Reads the sectors of a raw image, and finds the frame of the first.
pub fn parse_image(bytes: &[u8]) -> (result: Result<(u32, Vec<ParsedSector>), Error>)
    ensures
        match (result, parsed_image(bytes@)) {
            (Ok((start_frame, sectors)), Ok(expected)) => {
                &&& start_frame == expected.0
                &&& views(sectors@) == expected.1
            },
            (Err(error), Err(failure)) => error@ == failure,
            _ => false,
        },
{
    let track: Track = match find_track(bytes) {
        Ok(value) => value,
        Err(error) => return Err(error),
    };
    let count: usize = bytes.len() / 2352;
    let mut sectors: Vec<ParsedSector> = Vec::new();
    let mut index: usize = 0;
    assert(views(sectors@) =~= Seq::<SectorModel>::empty());
    while index < count
        invariant
            index <= count,
            count == bytes.len() / 2352,
            track_of(bytes@) == Ok::<Track, Failure>(track),
            sectors_from(bytes@, track, 0, Seq::empty()) == sectors_from(
                bytes@,
                track,
                index as int,
                views(sectors@),
            ),
        decreases count - index,
    {
        let sector: &[u8] = slice_sector(bytes, index);
        let class: SectorClassification = match classify_sector(sector, index, track) {
            Ok(value) => value,
            Err(error) => return Err(error),
        };
        let parsed = ParsedSector {
            bytes: copy_sector(sector),
            kind: class.kind,
            subheader: class.subheader,
            subheader_copy: class.subheader_copy,
            form2_edc_valid: class.form2_edc_valid,
            noncompliant_ecc: class.noncompliant_ecc,
        };
        proof {
            views_push(sectors@, parsed);
            assert(parsed@ =~= (SectorModel { bytes: sector@, class }));
        }
        sectors.push(parsed);
        index = index + 1;
    }
    Ok((track.start_frame, sectors))
}

} // verus!
