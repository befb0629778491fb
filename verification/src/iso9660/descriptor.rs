//! Volume descriptors: the primary one and the Joliet one.
use vstd::prelude::*;
use vstd::slice::slice_subrange;

use crate::bytes::{
    field, fill, filled, from_le16, measure_used, put, put_bytes, read_le16, same_bytes,
    used_length, used_length_is_last,
};
use crate::error::{failure, failure_at, Error, ErrorKind, Failure};
use crate::hexcode::{encode, hex_text};
use crate::iso9660::description::{PrimaryVolume, RootDirectoryIdentifier, VolumeModel};
use crate::iso9660::fields::{
    fixed_text, pvd_u16_encoding, read_both32, read_both_u32, read_fixed, u16_encoding_of,
};
use crate::iso9660::joliet::{
    joliet_fixed_text, optional_level_of, parse_optional_joliet_level, read_joliet_fixed,
};
use crate::iso9660::time::{parse_volume_time, volume_time_text};
use crate::manifest::{JolietLevel, PrimaryVolumeApplicationUse, PvdU16Encoding};
use crate::model::{agrees, both, opt_view};
use crate::raw_cd::Block;

verus! {

/// Whether an outcome is a success, without its value.
pub open spec fn ok<T>(outcome: Result<T, Failure>) -> Result<(), Failure> {
    match outcome {
        Ok(_) => Ok(()),
        Err(failure) => Err(failure),
    }
}

/// Where the application-use field begins.
pub const APPLICATION_USE_START: usize = 883;

/// Where the application-use field ends and the reserved field begins.
pub const APPLICATION_USE_END: usize = 1395;

/// The size of the application-use field.
pub const APPLICATION_USE_SIZE: usize = 512;

/// The size of the reserved field.
pub const RESERVED_SIZE: usize = 653;

/// The signature of a disc with XA sectors: `CD-XA001`.
pub open spec fn cd_xa_signature() -> Seq<u8> {
    seq![67u8, 68u8, 45u8, 88u8, 65u8, 48u8, 48u8, 49u8]
}

/// The bytes that the version mark `1 1` is written with.
pub open spec fn version_mark() -> Seq<u8> {
    seq![0u8, 0u8, 49u8, 32u8, 49u8, 32u8, 32u8, 32u8, 32u8, 32u8]
}

/// The mark of a mastering tool: `XCD322.1 (13`.
pub open spec fn xcd_mark() -> Seq<u8> {
    seq![88u8, 67u8, 68u8, 51u8, 50u8, 50u8, 46u8, 49u8, 32u8, 40u8, 49u8, 51u8]
}

/// The mark of a mastering tool: `CD Rep 2.0.131`.
pub open spec fn cd_rep_mark() -> Seq<u8> {
    seq![67u8, 68u8, 32u8, 82u8, 101u8, 112u8, 32u8, 50u8, 46u8, 48u8, 46u8, 49u8, 51u8, 49u8]
}

/// The bytes of a known application-use field.
pub open spec fn application_use_bytes(kind: PrimaryVolumeApplicationUse) -> Seq<u8> {
    let empty = fill(512, 0);
    let signed = put(empty, 141, cd_xa_signature());
    match kind {
        PrimaryVolumeApplicationUse::CdRep20131 => put(empty, 0, cd_rep_mark()),
        PrimaryVolumeApplicationUse::CdXa001 => signed,
        PrimaryVolumeApplicationUse::CdXa001_1_1 => put(signed, 149, version_mark()),
        PrimaryVolumeApplicationUse::CdXa001Xcd3221Revision13 => put(signed, 500, xcd_mark()),
    }
}

/// Makes a known application-use field.
pub fn primary_volume_application_use(kind: PrimaryVolumeApplicationUse) -> (bytes: Vec<u8>)
    ensures
        bytes@ == application_use_bytes(kind),
        bytes.len() == 512,
{
    let mut data: Vec<u8> = filled(512, 0);
    if kind == PrimaryVolumeApplicationUse::CdRep20131 {
        let mark: [u8; 14] = [
            67u8, 68u8, 32u8, 82u8, 101u8, 112u8, 32u8, 50u8, 46u8, 48u8, 46u8, 49u8, 51u8, 49u8,
        ];
        assert(mark@ =~= cd_rep_mark());
        put_bytes(&mut data, 0, mark.as_slice());
        return data;
    }
    let signature: [u8; 8] = [67u8, 68u8, 45u8, 88u8, 65u8, 48u8, 48u8, 49u8];
    assert(signature@ =~= cd_xa_signature());
    put_bytes(&mut data, 141, signature.as_slice());
    if kind == PrimaryVolumeApplicationUse::CdXa001_1_1 {
        let mark: [u8; 10] = [0u8, 0u8, 49u8, 32u8, 49u8, 32u8, 32u8, 32u8, 32u8, 32u8];
        assert(mark@ =~= version_mark());
        put_bytes(&mut data, 149, mark.as_slice());
    }
    if kind == PrimaryVolumeApplicationUse::CdXa001Xcd3221Revision13 {
        let mark: [u8; 12] = [
            88u8, 67u8, 68u8, 51u8, 50u8, 50u8, 46u8, 49u8, 32u8, 40u8, 49u8, 51u8,
        ];
        assert(mark@ =~= xcd_mark());
        put_bytes(&mut data, 500, mark.as_slice());
    }
    data
}

/// The known application-use field that bytes are.
#[verifier::opaque]
pub open spec fn application_use_of(bytes: Seq<u8>) -> Option<PrimaryVolumeApplicationUse> {
    if bytes == application_use_bytes(PrimaryVolumeApplicationUse::CdXa001) {
        Some(PrimaryVolumeApplicationUse::CdXa001)
    } else if bytes == application_use_bytes(PrimaryVolumeApplicationUse::CdXa001_1_1) {
        Some(PrimaryVolumeApplicationUse::CdXa001_1_1)
    } else if bytes == application_use_bytes(
        PrimaryVolumeApplicationUse::CdXa001Xcd3221Revision13,
    ) {
        Some(PrimaryVolumeApplicationUse::CdXa001Xcd3221Revision13)
    } else if bytes == application_use_bytes(PrimaryVolumeApplicationUse::CdRep20131) {
        Some(PrimaryVolumeApplicationUse::CdRep20131)
    } else {
        None
    }
}

fn find_application_use(bytes: &[u8]) -> (kind: Option<PrimaryVolumeApplicationUse>)
    ensures
        kind == application_use_of(bytes@),
{
    reveal(application_use_of);
    if same_bytes(
        bytes,
        primary_volume_application_use(PrimaryVolumeApplicationUse::CdXa001).as_slice(),
    ) {
        return Some(PrimaryVolumeApplicationUse::CdXa001);
    }
    if same_bytes(
        bytes,
        primary_volume_application_use(PrimaryVolumeApplicationUse::CdXa001_1_1).as_slice(),
    ) {
        return Some(PrimaryVolumeApplicationUse::CdXa001_1_1);
    }
    if same_bytes(
        bytes,
        primary_volume_application_use(
            PrimaryVolumeApplicationUse::CdXa001Xcd3221Revision13,
        ).as_slice(),
    ) {
        return Some(PrimaryVolumeApplicationUse::CdXa001Xcd3221Revision13);
    }
    if same_bytes(
        bytes,
        primary_volume_application_use(PrimaryVolumeApplicationUse::CdRep20131).as_slice(),
    ) {
        return Some(PrimaryVolumeApplicationUse::CdRep20131);
    }
    None
}

/// The digits of a field's bytes up to the last one that is not zero.
#[verifier::opaque]
pub open spec fn used_hex(bytes: Seq<u8>) -> Option<Seq<char>> {
    let length = used_length(bytes, 0);
    if length == 0 {
        None
    } else {
        Some(hex_text(bytes.take(length as int)))
    }
}

/// Keeps a field's bytes up to the last one that is not zero.
pub fn keep_used(bytes: &[u8]) -> (text: Option<String>)
    ensures
        opt_view(text) == used_hex(bytes@),
{
    let length: usize = measure_used(bytes, 0);
    proof {
        reveal(used_hex);
        used_length_is_last(bytes@, 0);
    }
    if length == 0 {
        return None;
    }
    let used: &[u8] = slice_subrange(bytes, 0, length);
    assert(used@ =~= bytes@.take(length as int));
    Some(encode(used))
}

/// The text of a descriptor field.
#[verifier::opaque]
pub open spec fn text_field(block: Seq<u8>, offset: int, length: int, joliet: bool) -> Result<
    Seq<char>,
    Failure,
> {
    if joliet {
        joliet_fixed_text(block, offset, length)
    } else {
        fixed_text(block, offset, length)
    }
}

fn read_text_field(block: &[u8], offset: usize, length: usize, joliet: bool) -> (result: Result<
    String,
    Error,
>)
    requires
        offset + length <= block.len(),
    ensures
        agrees(result, text_field(block@, offset as int, length as int, joliet)),
{
    reveal(text_field);
    if joliet {
        read_joliet_fixed(block, offset, length)
    } else {
        read_fixed(block, offset, length)
    }
}

/// The first text field of a descriptor that cannot be read.
pub open spec fn texts_check(block: Seq<u8>, joliet: bool) -> Result<(), Failure> {
    both(
        ok(text_field(block, 8, 32, joliet)),
        both(
            ok(text_field(block, 40, 32, joliet)),
            both(
                ok(text_field(block, 190, 128, joliet)),
                both(
                    ok(text_field(block, 318, 128, joliet)),
                    both(
                        ok(text_field(block, 446, 128, joliet)),
                        both(
                            ok(text_field(block, 574, 128, joliet)),
                            both(
                                ok(text_field(block, 702, 37, joliet)),
                                both(
                                    ok(text_field(block, 739, 37, joliet)),
                                    ok(text_field(block, 776, 37, joliet)),
                                ),
                            ),
                        ),
                    ),
                ),
            ),
        ),
    )
}

/// The escape sequence of a primary descriptor; a Joliet one is read elsewhere.
pub open spec fn escape_field(block: Seq<u8>, joliet: bool) -> Result<Option<JolietLevel>, Failure> {
    if joliet {
        Ok(None)
    } else {
        optional_level_of(block.subrange(88, 120))
    }
}

/// How a descriptor writes its 16-bit fields, if its fixed fields are supported.
#[verifier::opaque]
pub open spec fn header_encoding(block: Seq<u8>) -> Result<PvdU16Encoding, Failure> {
    match read_both32(block, 80) {
        Err(failure) => Err(failure),
        Ok(size) => if size == 0 {
            Err(failure(ErrorKind::VolumeSize))
        } else {
            match u16_encoding_of(block) {
                Err(failure) => Err(failure),
                Ok(encoding) => if from_le16(field(block, 120, 2)) != 1 {
                    Err(failure(ErrorKind::VolumeSetSize))
                } else if from_le16(field(block, 124, 2)) != 1 {
                    Err(failure(ErrorKind::VolumeSequence))
                } else if from_le16(field(block, 128, 2)) != 2048 {
                    Err(failure(ErrorKind::VolumeBlockSize))
                } else if block[881] != 1 && block[881] != 0 {
                    Err(failure(ErrorKind::FileStructureVersion))
                } else if block[189] > 1 {
                    Err(failure_at(ErrorKind::RootIdentifier, block[189] as int))
                } else {
                    Ok(encoding)
                },
            }
        },
    }
}

fn check_header(block: &[u8]) -> (result: Result<PvdU16Encoding, Error>)
    requires
        block.len() == 2048,
    ensures
        match (result, header_encoding(block@)) {
            (Ok(encoding), Ok(expected)) => encoding == expected,
            (Err(error), Err(failure)) => error@ == failure,
            _ => false,
        },
{
    reveal(header_encoding);
    match read_both_u32(block, 80) {
        Err(error) => return Err(error),
        Ok(size) => {
            if size == 0 {
                return Err(Error::new(ErrorKind::VolumeSize));
            }
        },
    }
    let encoding: PvdU16Encoding = match pvd_u16_encoding(block) {
        Ok(encoding) => encoding,
        Err(error) => return Err(error),
    };
    if read_le16(block, 120) != 1 {
        return Err(Error::new(ErrorKind::VolumeSetSize));
    }
    if read_le16(block, 124) != 1 {
        return Err(Error::new(ErrorKind::VolumeSequence));
    }
    if read_le16(block, 128) != 2048 {
        return Err(Error::new(ErrorKind::VolumeBlockSize));
    }
    if block[881] != 1 && block[881] != 0 {
        return Err(Error::new(ErrorKind::FileStructureVersion));
    }
    if block[189] > 1 {
        return Err(Error::at(ErrorKind::RootIdentifier, block[189] as u64));
    }
    Ok(encoding)
}

/// The first field of a descriptor that is not supported.
pub open spec fn volume_check(block: Seq<u8>, joliet: bool) -> Result<(), Failure> {
    both(
        ok(header_encoding(block)),
        both(ok(escape_field(block, joliet)), texts_check(block, joliet)),
    )
}

/// The volume that a descriptor describes.
pub open spec fn parsed_volume(block: Seq<u8>, joliet: bool) -> Result<VolumeModel, Failure> {
    let application_use = application_use_of(block.subrange(883, 1395));
    match volume_check(block, joliet) {
        Err(failure) => Err(failure),
        Ok(_) => Ok(
            VolumeModel {
                volume_space_size: None,
                file_structure_version: if block[881] == 1 {
                    None
                } else {
                    Some(0u8)
                },
                u16_encoding: header_encoding(block)->Ok_0,
                application_use: match application_use {
                    Some(kind) => kind,
                    None => PrimaryVolumeApplicationUse::CdXa001,
                },
                application_use_hex: if application_use is None {
                    Some(hex_text(block.subrange(883, 1395)))
                } else {
                    None
                },
                root_directory_record_length: None,
                root_directory_recording_time: None,
                root_directory_identifier: if block[189] == 0 {
                    RootDirectoryIdentifier::Current
                } else {
                    RootDirectoryIdentifier::Parent
                },
                escape_sequence: escape_field(block, joliet)->Ok_0,
                system_identifier: text_field(block, 8, 32, joliet)->Ok_0,
                volume_identifier: text_field(block, 40, 32, joliet)->Ok_0,
                volume_set_identifier: text_field(block, 190, 128, joliet)->Ok_0,
                publisher_identifier: text_field(block, 318, 128, joliet)->Ok_0,
                data_preparer_identifier: text_field(block, 446, 128, joliet)->Ok_0,
                application_identifier: text_field(block, 574, 128, joliet)->Ok_0,
                copyright_file_identifier: text_field(block, 702, 37, joliet)->Ok_0,
                abstract_file_identifier: text_field(block, 739, 37, joliet)->Ok_0,
                bibliographic_file_identifier: text_field(block, 776, 37, joliet)->Ok_0,
                reserved_hex: used_hex(block.subrange(1395, 2048)),
                creation_time: volume_time_text(block.subrange(813, 830)),
                modification_time: volume_time_text(block.subrange(830, 847)),
                expiration_time: volume_time_text(block.subrange(847, 864)),
                effective_time: volume_time_text(block.subrange(864, 881)),
            },
        ),
    }
}

fn read_volume_time(block: &[u8], offset: usize) -> (text: Option<String>)
    requires
        offset + 17 <= block.len(),
    ensures
        opt_view(text) == volume_time_text(block@.subrange(offset as int, offset + 17)),
{
    match parse_volume_time(slice_subrange(block, offset, offset + 17)) {
        Ok(text) => text,
        Err(_) => None,
    }
}

/// Reads the fields of a descriptor; `joliet` says how its texts are written.
pub fn parse_pvd_fields(block: &[u8], joliet: bool) -> (result: Result<PrimaryVolume, Error>)
    requires
        block.len() == 2048,
    ensures
        agrees(result, parsed_volume(block@, joliet)),
{
    let u16_encoding: PvdU16Encoding = match check_header(block) {
        Ok(encoding) => encoding,
        Err(error) => return Err(error),
    };
    let escape_sequence: Option<JolietLevel> = if joliet {
        None
    } else {
        match parse_optional_joliet_level(slice_subrange(block, 88, 120)) {
            Ok(level) => level,
            Err(error) => return Err(error),
        }
    };
    let application_use: Option<PrimaryVolumeApplicationUse> = find_application_use(
        slice_subrange(block, 883, 1395),
    );
    let application_use_hex: Option<String> = if application_use.is_none() {
        Some(encode(slice_subrange(block, 883, 1395)))
    } else {
        None
    };
    let system_identifier: String = match read_text_field(block, 8, 32, joliet) {
        Ok(text) => text,
        Err(error) => return Err(error),
    };
    let volume_identifier: String = match read_text_field(block, 40, 32, joliet) {
        Ok(text) => text,
        Err(error) => return Err(error),
    };
    let volume_set_identifier: String = match read_text_field(block, 190, 128, joliet) {
        Ok(text) => text,
        Err(error) => return Err(error),
    };
    let publisher_identifier: String = match read_text_field(block, 318, 128, joliet) {
        Ok(text) => text,
        Err(error) => return Err(error),
    };
    let data_preparer_identifier: String = match read_text_field(block, 446, 128, joliet) {
        Ok(text) => text,
        Err(error) => return Err(error),
    };
    let application_identifier: String = match read_text_field(block, 574, 128, joliet) {
        Ok(text) => text,
        Err(error) => return Err(error),
    };
    let copyright_file_identifier: String = match read_text_field(block, 702, 37, joliet) {
        Ok(text) => text,
        Err(error) => return Err(error),
    };
    let abstract_file_identifier: String = match read_text_field(block, 739, 37, joliet) {
        Ok(text) => text,
        Err(error) => return Err(error),
    };
    let bibliographic_file_identifier: String = match read_text_field(block, 776, 37, joliet) {
        Ok(text) => text,
        Err(error) => return Err(error),
    };
    let volume = PrimaryVolume {
        volume_space_size: None,
        file_structure_version: if block[881] == 1 {
            None
        } else {
            Some(0)
        },
        u16_encoding,
        application_use: match application_use {
            Some(kind) => kind,
            None => PrimaryVolumeApplicationUse::CdXa001,
        },
        application_use_hex,
        root_directory_record_length: None,
        root_directory_recording_time: None,
        root_directory_identifier: if block[189] == 0 {
            RootDirectoryIdentifier::Current
        } else {
            RootDirectoryIdentifier::Parent
        },
        escape_sequence,
        system_identifier,
        volume_identifier,
        volume_set_identifier,
        publisher_identifier,
        data_preparer_identifier,
        application_identifier,
        copyright_file_identifier,
        abstract_file_identifier,
        bibliographic_file_identifier,
        reserved_hex: keep_used(slice_subrange(block, 1395, 2048)),
        creation_time: read_volume_time(block, 813),
        modification_time: read_volume_time(block, 830),
        expiration_time: read_volume_time(block, 847),
        effective_time: read_volume_time(block, 864),
    };
    assert(volume@ =~= parsed_volume(block@, joliet)->Ok_0);
    Ok(volume)
}

/// Reads a primary volume descriptor.
pub fn parse_pvd(block: &Block) -> (result: Result<PrimaryVolume, Error>)
    ensures
        agrees(result, parsed_volume(block@, false)),
{
    parse_pvd_fields(block.as_slice(), false)
}

/// Reads a Joliet volume descriptor.
pub fn parse_joliet_descriptor(block: &Block) -> (result: Result<PrimaryVolume, Error>)
    ensures
        agrees(result, parsed_volume(block@, true)),
{
    parse_pvd_fields(block.as_slice(), true)
}

} // verus!
