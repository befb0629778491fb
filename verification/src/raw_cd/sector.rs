//! The protection of a sector, and writing sectors.
use vstd::prelude::*;
use vstd::slice::slice_subrange;

use crate::bytes::{fill, filled, le32, le32_bytes, put, put_bytes, same_bytes};
use crate::error::{failure, failure_at, Error, ErrorKind, Failure};
use crate::model::agrees;
use crate::raw_cd::ecc::{with_ecc, write_ecc};
use crate::raw_cd::msf::{frame_to_msf, msf_of};
use crate::xa::{subheader_bytes, subheader_of, XaSubheader, XaSubmodeFlag};

verus! {

/// The bytes that every sector with a header begins with.
pub const SYNC: [u8; 12] = [
    0x00, 0xff, 0xff, 0xff, 0xff, 0xff, 0xff, 0xff, 0xff, 0xff, 0xff, 0x00,
];

/// The sync pattern.
pub open spec fn sync() -> Seq<u8> {
    seq![0u8] + fill(10, 255) + seq![0u8]
}

/// The sync pattern is what the constant holds.
pub proof fn sync_is_constant()
    ensures
        SYNC@ == sync(),
{
    assert(SYNC@ =~= sync());
}

/// A remainder shifted by `count` bits: whatever falls out is divided by the polynomial
/// of the error detection code, least significant bit first.
pub open spec fn edc_shifted(remainder: u32, count: nat) -> u32
    decreases count,
{
    if count == 0 {
        remainder
    } else {
        let before = edc_shifted(remainder, (count - 1) as nat);
        if before & 1 == 1 {
            (before >> 1) ^ 0xd801_8001
        } else {
            before >> 1
        }
    }
}

/// The error detection code of bytes: a cyclic redundancy check that starts at zero,
/// takes each byte least significant bit first, and ends as it is.
#[verifier::opaque]
pub open spec fn cd_rom_edc(data: Seq<u8>) -> u32
    decreases data.len(),
{
    if data.len() == 0 {
        0
    } else {
        edc_shifted(cd_rom_edc(data.drop_last()) ^ (data.last() as u32), 8)
    }
}

/// Calls `crc::Crc::<u32>::checksum` with the algorithm `crc::CRC_32_CD_ROM_EDC`: the
/// result is the cyclic redundancy check that the algorithm describes, with the
/// polynomial 0x8001801b, reflected, from zero and without a final change.
#[verifier::external_body]
fn call_edc(data: &[u8]) -> (edc: u32)
    ensures
        edc == cd_rom_edc(data@),
{
    crc::Crc::<u32>::new(&crc::CRC_32_CD_ROM_EDC).checksum(data)
}

/// Computes the error detection code of bytes.
pub fn generate_edc(data: &[u8]) -> (edc: u32)
    ensures
        edc == cd_rom_edc(data@),
{
    call_edc(data)
}

/// The error detection code of bytes, as it is stored.
pub open spec fn edc_bytes(data: Seq<u8>) -> Seq<u8> {
    le32(cd_rom_edc(data))
}

/// Tells whether an error detection code is the one that is stored.
pub fn is_stored_edc(edc: u32, stored: &[u8]) -> (holds: bool)
    ensures
        holds == (stored@ == le32(edc)),
{
    let bytes: [u8; 4] = le32_bytes(edc);
    same_bytes(bytes.as_slice(), stored)
}

/// Tells whether bytes have an error detection code.
pub fn edc_matches(data: &[u8], stored: &[u8]) -> (holds: bool)
    ensures
        holds == (stored@ == edc_bytes(data@)),
{
    is_stored_edc(generate_edc(data), stored)
}

/// What a sector is.
#[derive(Clone, Copy, Debug, PartialEq, Eq, Structural)]
pub enum Kind {
    Mode1,
    Mode1Gap,
    Form1,
    Form2,
    XaGap,
    RawZero,
}

/// How the codes of a sector are made.
#[derive(Clone, Copy, Debug, PartialEq, Eq, Structural)]
pub enum SectorProtection {
    Unprotected,
    Mode1,
    Mode2Form1,
    Mode2Form2 { computed_edc: bool },
    RecordedHeaderEcc,
}

/// The address that the error correction of a Mode 2 sector covers: none.
pub open spec fn no_address() -> Seq<u8> {
    fill(4, 0)
}

/// The primary subheader of a sector says that it has the second form.
pub open spec fn is_form2(sector: Seq<u8>) -> bool {
    subheader_of(sector.subrange(16, 20)).submode.has(XaSubmodeFlag::Form2)
}

/// A Mode 1 sector with an error detection code, and its error correction.
pub open spec fn with_mode1_codes(sector: Seq<u8>, edc: u32) -> Seq<u8> {
    let coded = put(sector, 2064, le32(edc));
    with_ecc(coded, coded.subrange(12, 16))
}

/// A sector of the first form with an error detection code, and its error correction.
pub open spec fn with_form1_codes(sector: Seq<u8>, edc: u32) -> Seq<u8> {
    with_ecc(put(sector, 2072, le32(edc)), no_address())
}

/// A sector of the second form with an error detection code, or with none.
pub open spec fn with_form2_code(sector: Seq<u8>, edc: Option<u32>) -> Seq<u8> {
    put(
        sector,
        2348,
        match edc {
            Some(edc) => le32(edc),
            None => fill(4, 0),
        },
    )
}

/// A Mode 2 sector with its codes, and what it is.
pub open spec fn mode2_protected(sector: Seq<u8>, form2_edc: bool, recorded_header_ecc: bool) -> Result<
    (Seq<u8>, Kind),
    Failure,
> {
    if sector.len() != 2352 {
        Err(failure(ErrorKind::SectorSize))
    } else if sector[15] != 2 {
        Err(failure_at(ErrorKind::PatchedMode, sector[15] as int))
    } else if is_form2(sector) {
        Ok(
            (
                put(
                    sector,
                    2348,
                    if form2_edc {
                        edc_bytes(sector.subrange(16, 2348))
                    } else {
                        fill(4, 0)
                    },
                ),
                Kind::Form2,
            ),
        )
    } else if recorded_header_ecc {
        Ok((with_ecc(put(sector, 2072, fill(4, 0)), sector.subrange(12, 16)), Kind::XaGap))
    } else {
        Ok(
            (
                with_ecc(put(sector, 2072, edc_bytes(sector.subrange(16, 2072))), no_address()),
                Kind::Form1,
            ),
        )
    }
}

/// A sector with its codes.
pub open spec fn protected(sector: Seq<u8>, protection: SectorProtection) -> Result<Seq<u8>, Failure> {
    if sector.len() != 2352 {
        Err(failure(ErrorKind::SectorSize))
    } else {
        match protection {
            SectorProtection::Unprotected => Ok(sector),
            SectorProtection::Mode1 => if sector[15] != 1 {
                Err(failure(ErrorKind::Mode1Protection))
            } else {
                let edc = put(sector, 2064, edc_bytes(sector.subrange(0, 2064)));
                Ok(with_ecc(edc, edc.subrange(12, 16)))
            },
            SectorProtection::Mode2Form1 => match mode2_protected(sector, true, false) {
                Err(failure) => Err(failure),
                Ok((bytes, kind)) => if kind == Kind::Form1 {
                    Ok(bytes)
                } else {
                    Err(failure(ErrorKind::Form1Protection))
                },
            },
            SectorProtection::Mode2Form2 { computed_edc } => match mode2_protected(
                sector,
                computed_edc,
                false,
            ) {
                Err(failure) => Err(failure),
                Ok((bytes, kind)) => if kind == Kind::Form2 {
                    Ok(bytes)
                } else {
                    Err(failure(ErrorKind::Form2Protection))
                },
            },
            SectorProtection::RecordedHeaderEcc => match mode2_protected(sector, false, true) {
                Err(failure) => Err(failure),
                Ok((bytes, kind)) => if kind == Kind::XaGap {
                    Ok(bytes)
                } else {
                    Err(failure(ErrorKind::RecordedHeaderProtection))
                },
            },
        }
    }
}

/// What is left of a sector that could not be given its codes.
pub open spec fn after_refusal(sector: Seq<u8>, protection: SectorProtection) -> Seq<u8> {
    let attempt = match protection {
        SectorProtection::Mode2Form1 => mode2_protected(sector, true, false),
        SectorProtection::Mode2Form2 { computed_edc } => mode2_protected(
            sector,
            computed_edc,
            false,
        ),
        SectorProtection::RecordedHeaderEcc => mode2_protected(sector, false, true),
        _ => Err(failure(ErrorKind::SectorSize)),
    };
    match attempt {
        Ok((bytes, _)) => bytes,
        Err(_) => sector,
    }
}

pub(crate) fn four(bytes: &[u8], offset: usize) -> (copy: [u8; 4])
    requires
        offset + 4 <= bytes.len(),
    ensures
        copy@ == bytes@.subrange(offset as int, offset + 4),
{
    let copy: [u8; 4] = [bytes[offset], bytes[offset + 1], bytes[offset + 2], bytes[offset + 3]];
    assert(copy@ =~= bytes@.subrange(offset as int, offset + 4));
    copy
}

pub(crate) fn has_form2(sector: &[u8]) -> (form2: bool)
    requires
        sector.len() >= 20,
    ensures
        form2 == is_form2(sector@),
{
    XaSubheader::from_bytes(four(sector, 16)).submode.contains(XaSubmodeFlag::Form2)
}

fn zeros() -> (bytes: [u8; 4])
    ensures
        bytes@ == fill(4, 0),
{
    let bytes: [u8; 4] = [0u8, 0u8, 0u8, 0u8];
    assert(bytes@ =~= fill(4, 0));
    bytes
}

/// Writes an error detection code into a Mode 1 sector, and makes its error
/// correction.
pub fn write_mode1_codes(sector: &mut Vec<u8>, edc: u32)
    requires
        old(sector).len() == 2352,
    ensures
        final(sector)@ == with_mode1_codes(old(sector)@, edc),
{
    let bytes: [u8; 4] = le32_bytes(edc);
    put_bytes(sector, 2064, bytes.as_slice());
    let address: [u8; 4] = four(sector.as_slice(), 12);
    write_ecc(sector, address);
}

/// Writes an error detection code into a sector of the first form, and makes its
/// error correction.
pub fn write_form1_codes(sector: &mut Vec<u8>, edc: u32)
    requires
        old(sector).len() == 2352,
    ensures
        final(sector)@ == with_form1_codes(old(sector)@, edc),
{
    let bytes: [u8; 4] = le32_bytes(edc);
    put_bytes(sector, 2072, bytes.as_slice());
    write_ecc(sector, zeros());
}

/// Writes an error detection code into a sector of the second form, or zeros.
pub fn write_form2_code(sector: &mut Vec<u8>, edc: Option<u32>)
    requires
        old(sector).len() == 2352,
    ensures
        final(sector)@ == with_form2_code(old(sector)@, edc),
{
    let bytes: [u8; 4] = match edc {
        Some(edc) => le32_bytes(edc),
        None => zeros(),
    };
    put_bytes(sector, 2348, bytes.as_slice());
}

/// Makes the codes of a Mode 2 sector anew, and tells what it is.
pub fn regenerate_mode2_protection(sector: &mut Vec<u8>, form2_edc: bool, recorded_header_ecc: bool) -> (result: Result<
    Kind,
    Error,
>)
    ensures
        match (result, mode2_protected(old(sector)@, form2_edc, recorded_header_ecc)) {
            (Ok(kind), Ok(expected)) => final(sector)@ == expected.0 && kind == expected.1,
            (Err(error), Err(failure)) => error@ == failure && final(sector)@ == old(sector)@,
            _ => false,
        },
{
    if sector.len() != 2352 {
        return Err(Error::new(ErrorKind::SectorSize));
    }
    if sector[15] != 2 {
        return Err(Error::at(ErrorKind::PatchedMode, sector[15] as u64));
    }
    if has_form2(sector.as_slice()) {
        let edc: Option<u32> = if form2_edc {
            Some(generate_edc(slice_subrange(sector.as_slice(), 16, 2348)))
        } else {
            None
        };
        write_form2_code(sector, edc);
        return Ok(Kind::Form2);
    }
    if recorded_header_ecc {
        let address: [u8; 4] = four(sector.as_slice(), 12);
        put_bytes(sector, 2072, zeros().as_slice());
        write_ecc(sector, address);
        return Ok(Kind::XaGap);
    }
    let edc: u32 = generate_edc(slice_subrange(sector.as_slice(), 16, 2072));
    write_form1_codes(sector, edc);
    Ok(Kind::Form1)
}

/// Makes the codes of a sector.
pub fn finalize_sector_protection(sector: &mut Vec<u8>, protection: SectorProtection) -> (result: Result<
    (),
    Error,
>)
    ensures
        match (result, protected(old(sector)@, protection)) {
            (Ok(_), Ok(expected)) => final(sector)@ == expected,
            (Err(error), Err(failure)) => error@ == failure && final(sector)@ == after_refusal(
                old(sector)@,
                protection,
            ),
            _ => false,
        },
{
    if sector.len() != 2352 {
        return Err(Error::new(ErrorKind::SectorSize));
    }
    match protection {
        SectorProtection::Unprotected => {},
        SectorProtection::Mode1 => {
            if sector[15] != 1 {
                return Err(Error::new(ErrorKind::Mode1Protection));
            }
            let edc: u32 = generate_edc(slice_subrange(sector.as_slice(), 0, 2064));
            write_mode1_codes(sector, edc);
        },
        SectorProtection::Mode2Form1 => {
            let kind: Kind = match regenerate_mode2_protection(sector, true, false) {
                Ok(value) => value,
                Err(error) => return Err(error),
            };
            if kind != Kind::Form1 {
                return Err(Error::new(ErrorKind::Form1Protection));
            }
        },
        SectorProtection::Mode2Form2 { computed_edc } => {
            let kind: Kind = match regenerate_mode2_protection(sector, computed_edc, false) {
                Ok(value) => value,
                Err(error) => return Err(error),
            };
            if kind != Kind::Form2 {
                return Err(Error::new(ErrorKind::Form2Protection));
            }
        },
        SectorProtection::RecordedHeaderEcc => {
            let kind: Kind = match regenerate_mode2_protection(sector, false, true) {
                Ok(value) => value,
                Err(error) => return Err(error),
            };
            if kind != Kind::XaGap {
                return Err(Error::new(ErrorKind::RecordedHeaderProtection));
            }
        },
    }
    Ok(())
}

/// The header of a sector: its time and its mode.
pub open spec fn header_of(frame: u32, mode: u8) -> Result<Seq<u8>, Failure> {
    match msf_of(frame) {
        Err(failure) => Err(failure),
        Ok(msf) => Ok(msf.push(mode)),
    }
}

/// Makes the header of a sector.
pub fn frame_header(frame: u32, mode: u8) -> (result: Result<[u8; 4], Error>)
    ensures
        agrees(result, header_of(frame, mode)),
{
    let msf: [u8; 3] = match frame_to_msf(frame) {
        Ok(value) => value,
        Err(error) => return Err(error),
    };
    let header: [u8; 4] = [msf[0], msf[1], msf[2], mode];
    assert(header@ =~= header_of(frame, mode)->Ok_0);
    Ok(header)
}

/// A sector with nothing but its sync pattern and its header.
pub open spec fn bare_sector(header: Seq<u8>) -> Seq<u8> {
    put(put(fill(2352, 0), 0, sync()), 12, header)
}

fn initialized_sector(frame: u32, mode: u8) -> (result: Result<Vec<u8>, Error>)
    ensures
        match (result, header_of(frame, mode)) {
            (Ok(sector), Ok(header)) => sector@ == bare_sector(header),
            (Err(error), Err(failure)) => error@ == failure,
            _ => false,
        },
{
    proof {
        sync_is_constant();
    }
    let mut sector: Vec<u8> = filled(2352, 0);
    put_bytes(&mut sector, 0, SYNC.as_slice());
    let header: [u8; 4] = match frame_header(frame, mode) {
        Ok(value) => value,
        Err(error) => return Err(error),
    };
    put_bytes(&mut sector, 12, header.as_slice());
    Ok(sector)
}

/// A Mode 1 sector without its codes.
pub open spec fn mode1_plain(frame: u32, data: Seq<u8>) -> Result<Seq<u8>, Failure> {
    if data.len() != 2048 {
        Err(failure(ErrorKind::Mode1Payload))
    } else {
        match header_of(frame, 1) {
            Err(failure) => Err(failure),
            Ok(header) => Ok(put(bare_sector(header), 16, data)),
        }
    }
}

/// A Mode 2 sector without its codes: both subheaders and its data.
pub open spec fn mode2_plain(
    header: Seq<u8>,
    subheader: XaSubheader,
    subheader_copy: XaSubheader,
    data: Seq<u8>,
) -> Seq<u8> {
    put(
        put(
            put(bare_sector(header), 16, subheader_bytes(subheader)),
            20,
            subheader_bytes(subheader_copy),
        ),
        24,
        data,
    )
}

/// A Mode 2 sector of the first form without its codes.
pub open spec fn form1_plain(
    frame: u32,
    subheader: XaSubheader,
    subheader_copy: XaSubheader,
    data: Seq<u8>,
) -> Result<Seq<u8>, Failure> {
    if data.len() != 2048 {
        Err(failure(ErrorKind::Form1Payload))
    } else {
        match header_of(frame, 2) {
            Err(failure) => Err(failure),
            Ok(header) => Ok(mode2_plain(header, subheader, subheader_copy, data)),
        }
    }
}

/// A Mode 2 sector of the second form without its codes.
pub open spec fn form2_plain(
    frame: u32,
    subheader: XaSubheader,
    subheader_copy: XaSubheader,
    data: Seq<u8>,
) -> Result<Seq<u8>, Failure> {
    if data.len() != 2324 {
        Err(failure(ErrorKind::Form2Payload))
    } else {
        match header_of(frame, 2) {
            Err(failure) => Err(failure),
            Ok(header) => Ok(mode2_plain(header, subheader, subheader_copy, data)),
        }
    }
}

/// A sector with its codes, if there is one.
pub open spec fn then_protected(plain: Result<Seq<u8>, Failure>, protection: SectorProtection) -> Result<
    Seq<u8>,
    Failure,
> {
    match plain {
        Err(failure) => Err(failure),
        Ok(sector) => protected(sector, protection),
    }
}

/// A Mode 1 sector.
pub open spec fn mode1_sector(frame: u32, data: Seq<u8>) -> Result<Seq<u8>, Failure> {
    then_protected(mode1_plain(frame, data), SectorProtection::Mode1)
}

/// A Mode 2 sector of the first form.
pub open spec fn form1_sector(
    frame: u32,
    subheader: XaSubheader,
    subheader_copy: XaSubheader,
    data: Seq<u8>,
) -> Result<Seq<u8>, Failure> {
    then_protected(
        form1_plain(frame, subheader, subheader_copy, data),
        SectorProtection::Mode2Form1,
    )
}

/// A Mode 2 sector of the second form.
pub open spec fn form2_sector(
    frame: u32,
    subheader: XaSubheader,
    subheader_copy: XaSubheader,
    data: Seq<u8>,
    computed_edc: bool,
) -> Result<Seq<u8>, Failure> {
    then_protected(
        form2_plain(frame, subheader, subheader_copy, data),
        SectorProtection::Mode2Form2 { computed_edc },
    )
}

/// A sector of an XA gap: its subheaders and nothing else.
pub open spec fn gap_sector(frame: u32, subheader: XaSubheader) -> Result<Seq<u8>, Failure> {
    match header_of(frame, 2) {
        Err(failure) => Err(failure),
        Ok(header) => Ok(mode2_plain(header, subheader, subheader, Seq::empty())),
    }
}

/// Writes sectors.
pub struct SectorWriter;

impl SectorWriter {
    pub fn new() -> (writer: SectorWriter)
        ensures
            writer == SectorWriter,
    {
        SectorWriter
    }

    /// Writes a Mode 1 sector.
    pub fn mode1(&mut self, frame: u32, data: &[u8]) -> (result: Result<Vec<u8>, Error>)
        ensures
            agrees(result, mode1_sector(frame, data@)),
            *final(self) == *old(self),
    {
        let mut sector: Vec<u8> = match self.mode1_draft(frame, data) {
            Ok(value) => value,
            Err(error) => return Err(error),
        };
        match finalize_sector_protection(&mut sector, SectorProtection::Mode1) {
            Ok(_) => {},
            Err(error) => return Err(error),
        }
        Ok(sector)
    }

    /// Writes a Mode 1 sector without its codes.
    pub fn mode1_draft(&mut self, frame: u32, data: &[u8]) -> (result: Result<Vec<u8>, Error>)
        ensures
            agrees(result, mode1_plain(frame, data@)),
            *final(self) == *old(self),
    {
        if data.len() != 2048 {
            return Err(Error::new(ErrorKind::Mode1Payload));
        }
        let mut sector: Vec<u8> = match initialized_sector(frame, 1) {
            Ok(value) => value,
            Err(error) => return Err(error),
        };
        put_bytes(&mut sector, 16, data);
        Ok(sector)
    }

    /// Writes a Mode 2 sector of the first form.
    pub fn form1(&mut self, frame: u32, subheader: XaSubheader, data: &[u8]) -> (result: Result<
        Vec<u8>,
        Error,
    >)
        ensures
            agrees(result, form1_sector(frame, subheader, subheader, data@)),
            *final(self) == *old(self),
    {
        self.form1_with_subheaders(frame, subheader, subheader, data)
    }

    /// Writes a Mode 2 sector of the first form whose subheaders differ.
    pub fn form1_with_subheaders(
        &mut self,
        frame: u32,
        subheader: XaSubheader,
        subheader_copy: XaSubheader,
        data: &[u8],
    ) -> (result: Result<Vec<u8>, Error>)
        ensures
            agrees(result, form1_sector(frame, subheader, subheader_copy, data@)),
            *final(self) == *old(self),
    {
        let mut sector: Vec<u8> = match self.form1_with_subheaders_draft(
            frame,
            subheader,
            subheader_copy,
            data,
        ) {
            Ok(value) => value,
            Err(error) => return Err(error),
        };
        match finalize_sector_protection(&mut sector, SectorProtection::Mode2Form1) {
            Ok(_) => {},
            Err(error) => return Err(error),
        }
        Ok(sector)
    }

    /// Writes a Mode 2 sector of the first form without its codes.
    pub fn form1_draft(&mut self, frame: u32, subheader: XaSubheader, data: &[u8]) -> (result: Result<
        Vec<u8>,
        Error,
    >)
        ensures
            agrees(result, form1_plain(frame, subheader, subheader, data@)),
            *final(self) == *old(self),
    {
        self.form1_with_subheaders_draft(frame, subheader, subheader, data)
    }

    /// Writes a Mode 2 sector of the first form whose subheaders differ, without its
    /// codes.
    pub fn form1_with_subheaders_draft(
        &mut self,
        frame: u32,
        subheader: XaSubheader,
        subheader_copy: XaSubheader,
        data: &[u8],
    ) -> (result: Result<Vec<u8>, Error>)
        ensures
            agrees(result, form1_plain(frame, subheader, subheader_copy, data@)),
            *final(self) == *old(self),
    {
        if data.len() != 2048 {
            return Err(Error::new(ErrorKind::Form1Payload));
        }
        let mut sector: Vec<u8> = match initialized_sector(frame, 2) {
            Ok(value) => value,
            Err(error) => return Err(error),
        };
        write_mode2(&mut sector, subheader, subheader_copy, data);
        Ok(sector)
    }

    /// Writes a Mode 2 sector of the second form.
    pub fn form2(&mut self, frame: u32, subheader: XaSubheader, data: &[u8], computed_edc: bool) -> (result: Result<
        Vec<u8>,
        Error,
    >)
        ensures
            agrees(result, form2_sector(frame, subheader, subheader, data@, computed_edc)),
            *final(self) == *old(self),
    {
        self.form2_with_subheaders(frame, subheader, subheader, data, computed_edc)
    }

    /// Writes a Mode 2 sector of the second form whose subheaders differ.
    pub fn form2_with_subheaders(
        &mut self,
        frame: u32,
        subheader: XaSubheader,
        subheader_copy: XaSubheader,
        data: &[u8],
        computed_edc: bool,
    ) -> (result: Result<Vec<u8>, Error>)
        ensures
            agrees(
                result,
                form2_sector(frame, subheader, subheader_copy, data@, computed_edc),
            ),
            *final(self) == *old(self),
    {
        let mut sector: Vec<u8> = match self.form2_with_subheaders_draft(
            frame,
            subheader,
            subheader_copy,
            data,
        ) {
            Ok(value) => value,
            Err(error) => return Err(error),
        };
        match finalize_sector_protection(
            &mut sector,
            SectorProtection::Mode2Form2 { computed_edc },
        ) {
            Ok(_) => {},
            Err(error) => return Err(error),
        }
        Ok(sector)
    }

    /// Writes a Mode 2 sector of the second form without its codes.
    pub fn form2_draft(&mut self, frame: u32, subheader: XaSubheader, data: &[u8]) -> (result: Result<
        Vec<u8>,
        Error,
    >)
        ensures
            agrees(result, form2_plain(frame, subheader, subheader, data@)),
            *final(self) == *old(self),
    {
        self.form2_with_subheaders_draft(frame, subheader, subheader, data)
    }

    /// Writes a Mode 2 sector of the second form whose subheaders differ, without its
    /// codes.
    pub fn form2_with_subheaders_draft(
        &mut self,
        frame: u32,
        subheader: XaSubheader,
        subheader_copy: XaSubheader,
        data: &[u8],
    ) -> (result: Result<Vec<u8>, Error>)
        ensures
            agrees(result, form2_plain(frame, subheader, subheader_copy, data@)),
            *final(self) == *old(self),
    {
        if data.len() != 2324 {
            return Err(Error::new(ErrorKind::Form2Payload));
        }
        let mut sector: Vec<u8> = match initialized_sector(frame, 2) {
            Ok(value) => value,
            Err(error) => return Err(error),
        };
        write_mode2(&mut sector, subheader, subheader_copy, data);
        Ok(sector)
    }

    /// Writes a sector of an XA gap.
    pub fn xa_gap(&mut self, frame: u32, subheader: XaSubheader) -> (result: Result<Vec<u8>, Error>)
        ensures
            agrees(result, gap_sector(frame, subheader)),
            *final(self) == *old(self),
    {
        let mut sector: Vec<u8> = match initialized_sector(frame, 2) {
            Ok(value) => value,
            Err(error) => return Err(error),
        };
        let nothing: Vec<u8> = Vec::new();
        assert(nothing@ =~= Seq::empty());
        write_mode2(&mut sector, subheader, subheader, nothing.as_slice());
        Ok(sector)
    }

    /// Writes a sector of an XA gap whose error correction covers its header.
    pub fn xa_gap_with_recorded_header_ecc(&mut self, frame: u32, subheader: XaSubheader) -> (result: Result<
        Vec<u8>,
        Error,
    >)
        ensures
            agrees(
                result,
                then_protected(
                    gap_sector(frame, subheader),
                    SectorProtection::RecordedHeaderEcc,
                ),
            ),
            *final(self) == *old(self),
    {
        let mut sector: Vec<u8> = match self.xa_gap(frame, subheader) {
            Ok(value) => value,
            Err(error) => return Err(error),
        };
        match finalize_sector_protection(&mut sector, SectorProtection::RecordedHeaderEcc) {
            Ok(_) => {},
            Err(error) => return Err(error),
        }
        Ok(sector)
    }
}

fn write_mode2(sector: &mut Vec<u8>, subheader: XaSubheader, subheader_copy: XaSubheader, data: &[u8])
    requires
        old(sector).len() == 2352,
        24 + data.len() <= 2352,
    ensures
        final(sector)@ == put(
            put(
                put(old(sector)@, 16, subheader_bytes(subheader)),
                20,
                subheader_bytes(subheader_copy),
            ),
            24,
            data@,
        ),
{
    let first: [u8; 4] = subheader.to_bytes();
    let second: [u8; 4] = subheader_copy.to_bytes();
    put_bytes(sector, 16, first.as_slice());
    put_bytes(sector, 20, second.as_slice());
    put_bytes(sector, 24, data);
}

} // verus!
