//! Writing volume descriptors.
use vstd::prelude::*;

use crate::bytes::{be32, be32_bytes, fill, filled, le32, le32_bytes, put, put_bytes};
use crate::error::{failure, failure_of, Error, ErrorKind, Failure};
use crate::hexcode::{decode, decoded};
use crate::iso9660::description::{
    Entry, EntryModel, JolietEntry, JolietModel, JolietVolume, PrimaryVolume,
    RootDirectoryIdentifier, VolumeModel,
};
use crate::iso9660::descriptor::{application_use_bytes, ok, primary_volume_application_use};
use crate::iso9660::fields::{
    both32, fixed_bytes, fixed_field, pvd_u16, to_block, write_both_u32, write_pvd_u16,
};
use crate::iso9660::joliet::{
    joliet_escape_sequence, joliet_field, joliet_field_bytes, level_bytes,
};
use crate::iso9660::record::{record_bytes, serialize_record, Record, RecordModel};
use crate::iso9660::time::{
    recording_time_bytes, serialize_recording_time, serialize_volume_time, volume_time_bytes,
};
use crate::manifest::{JolietLevel, PrimaryVolumeApplicationUse, PvdU16Encoding};
use crate::model::{agrees, both, opt_view};
use crate::raw_cd::Block;

verus! {

/// The encoded fields of a descriptor.
pub struct DescriptorFields {
    pub kind: u8,
    pub flags: u8,
    pub volume_space_size: u32,
    pub escape_sequence: Option<JolietLevel>,
    pub u16_encoding: PvdU16Encoding,
    pub path_table_size: u32,
    pub pointers: [u32; 4],
    pub root_record: Vec<u8>,
    /// A size that the root record claims in place of its own.
    pub root_record_length: Option<u8>,
    pub system_identifier: Vec<u8>,
    pub volume_identifier: Vec<u8>,
    pub volume_set_identifier: Vec<u8>,
    pub publisher_identifier: Vec<u8>,
    pub data_preparer_identifier: Vec<u8>,
    pub application_identifier: Vec<u8>,
    pub copyright_file_identifier: Vec<u8>,
    pub abstract_file_identifier: Vec<u8>,
    pub bibliographic_file_identifier: Vec<u8>,
    pub creation_time: Vec<u8>,
    pub modification_time: Vec<u8>,
    pub expiration_time: Vec<u8>,
    pub effective_time: Vec<u8>,
    pub file_structure_version: u8,
    pub application_use: Vec<u8>,
    pub reserved: Vec<u8>,
}

/// The mathematical form of [`DescriptorFields`].
#[verifier::ext_equal]
pub struct DescriptorModel {
    pub kind: u8,
    pub flags: u8,
    pub volume_space_size: u32,
    pub escape_sequence: Option<JolietLevel>,
    pub u16_encoding: PvdU16Encoding,
    pub path_table_size: u32,
    pub pointers: Seq<u32>,
    pub root_record: Seq<u8>,
    pub root_record_length: Option<u8>,
    pub system_identifier: Seq<u8>,
    pub volume_identifier: Seq<u8>,
    pub volume_set_identifier: Seq<u8>,
    pub publisher_identifier: Seq<u8>,
    pub data_preparer_identifier: Seq<u8>,
    pub application_identifier: Seq<u8>,
    pub copyright_file_identifier: Seq<u8>,
    pub abstract_file_identifier: Seq<u8>,
    pub bibliographic_file_identifier: Seq<u8>,
    pub creation_time: Seq<u8>,
    pub modification_time: Seq<u8>,
    pub expiration_time: Seq<u8>,
    pub effective_time: Seq<u8>,
    pub file_structure_version: u8,
    pub application_use: Seq<u8>,
    pub reserved: Seq<u8>,
}

impl View for DescriptorFields {
    type V = DescriptorModel;

    open spec fn view(&self) -> DescriptorModel {
        DescriptorModel {
            kind: self.kind,
            flags: self.flags,
            volume_space_size: self.volume_space_size,
            escape_sequence: self.escape_sequence,
            u16_encoding: self.u16_encoding,
            path_table_size: self.path_table_size,
            pointers: self.pointers@,
            root_record: self.root_record@,
            root_record_length: self.root_record_length,
            system_identifier: self.system_identifier@,
            volume_identifier: self.volume_identifier@,
            volume_set_identifier: self.volume_set_identifier@,
            publisher_identifier: self.publisher_identifier@,
            data_preparer_identifier: self.data_preparer_identifier@,
            application_identifier: self.application_identifier@,
            copyright_file_identifier: self.copyright_file_identifier@,
            abstract_file_identifier: self.abstract_file_identifier@,
            bibliographic_file_identifier: self.bibliographic_file_identifier@,
            creation_time: self.creation_time@,
            modification_time: self.modification_time@,
            expiration_time: self.expiration_time@,
            effective_time: self.effective_time@,
            file_structure_version: self.file_structure_version,
            application_use: self.application_use@,
            reserved: self.reserved@,
        }
    }
}

impl DescriptorModel {
    /// Every field has the size of its place.
    pub open spec fn fits(self) -> bool {
        &&& self.pointers.len() == 4
        &&& self.root_record.len() == 34
        &&& self.system_identifier.len() == 32
        &&& self.volume_identifier.len() == 32
        &&& self.volume_set_identifier.len() == 128
        &&& self.publisher_identifier.len() == 128
        &&& self.data_preparer_identifier.len() == 128
        &&& self.application_identifier.len() == 128
        &&& self.copyright_file_identifier.len() == 37
        &&& self.abstract_file_identifier.len() == 37
        &&& self.bibliographic_file_identifier.len() == 37
        &&& self.creation_time.len() == 17
        &&& self.modification_time.len() == 17
        &&& self.expiration_time.len() == 17
        &&& self.effective_time.len() == 17
        &&& self.application_use.len() == 512
        &&& self.reserved.len() <= 653
    }
}

/// The signature that every descriptor begins with.
pub open spec fn descriptor_signature(kind: u8) -> Seq<u8> {
    seq![kind, 67u8, 68u8, 48u8, 48u8, 49u8, 1u8]
}

/// The escape sequence of a descriptor.
pub open spec fn escape_bytes(level: Option<JolietLevel>) -> Seq<u8> {
    match level {
        Some(level) => level_bytes(level),
        None => Seq::empty(),
    }
}

/// The first part of a descriptor: everything before the root record.
pub open spec fn descriptor_head(fields: DescriptorModel) -> Seq<u8> {
    let block = fill(2048, 0);
    let block = put(block, 0, descriptor_signature(fields.kind));
    let block = put(block, 7, seq![fields.flags]);
    let block = put(block, 8, fields.system_identifier);
    let block = put(block, 40, fields.volume_identifier);
    let block = put(block, 80, both32(fields.volume_space_size));
    let block = put(block, 88, escape_bytes(fields.escape_sequence));
    let block = put(block, 120, pvd_u16(1, fields.u16_encoding));
    let block = put(block, 124, pvd_u16(1, fields.u16_encoding));
    let block = put(block, 128, pvd_u16(2048, fields.u16_encoding));
    let block = put(block, 132, both32(fields.path_table_size));
    let block = put(block, 140, le32(fields.pointers[0]));
    let block = put(block, 144, le32(fields.pointers[1]));
    let block = put(block, 148, be32(fields.pointers[2]));
    put(block, 152, be32(fields.pointers[3]))
}

/// A descriptor: every field at its offset, and zeros between them.
pub open spec fn descriptor_block(fields: DescriptorModel) -> Seq<u8> {
    let block = descriptor_head(fields);
    let block = put(block, 156, fields.root_record);
    let block = put(block, 190, fields.volume_set_identifier);
    let block = put(block, 318, fields.publisher_identifier);
    let block = put(block, 446, fields.data_preparer_identifier);
    let block = put(block, 574, fields.application_identifier);
    let block = put(block, 702, fields.copyright_file_identifier);
    let block = put(block, 739, fields.abstract_file_identifier);
    let block = put(block, 776, fields.bibliographic_file_identifier);
    let block = put(block, 813, fields.creation_time);
    let block = put(block, 830, fields.modification_time);
    let block = put(block, 847, fields.expiration_time);
    let block = put(block, 864, fields.effective_time);
    let block = put(block, 881, seq![fields.file_structure_version]);
    let block = put(block, 883, fields.application_use);
    let block = put(block, 1395, fields.reserved);
    match fields.root_record_length {
        Some(length) => put(block, 156, seq![length]),
        None => block,
    }
}

fn write_head(fields: &DescriptorFields) -> (block: Vec<u8>)
    requires
        fields@.fits(),
    ensures
        block@ == descriptor_head(fields@),
        block.len() == 2048,
{
    let mut block: Vec<u8> = filled(2048, 0);
    let signature: [u8; 7] = [fields.kind, 67u8, 68u8, 48u8, 48u8, 49u8, 1u8];
    assert(signature@ =~= descriptor_signature(fields.kind));
    put_bytes(&mut block, 0, signature.as_slice());
    let flags: [u8; 1] = [fields.flags];
    assert(flags@ =~= seq![fields.flags]);
    put_bytes(&mut block, 7, flags.as_slice());
    put_bytes(&mut block, 8, fields.system_identifier.as_slice());
    put_bytes(&mut block, 40, fields.volume_identifier.as_slice());
    write_both_u32(&mut block, 80, fields.volume_space_size);
    match fields.escape_sequence {
        Some(level) => {
            put_bytes(&mut block, 88, joliet_escape_sequence(level).as_slice());
        },
        None => {
            assert(put(block@, 88, Seq::empty()) =~= block@);
        },
    }
    write_pvd_u16(&mut block, 120, 1, fields.u16_encoding);
    write_pvd_u16(&mut block, 124, 1, fields.u16_encoding);
    write_pvd_u16(&mut block, 128, 2048, fields.u16_encoding);
    write_both_u32(&mut block, 132, fields.path_table_size);
    put_bytes(&mut block, 140, le32_bytes(fields.pointers[0]).as_slice());
    put_bytes(&mut block, 144, le32_bytes(fields.pointers[1]).as_slice());
    put_bytes(&mut block, 148, be32_bytes(fields.pointers[2]).as_slice());
    put_bytes(&mut block, 152, be32_bytes(fields.pointers[3]).as_slice());
    block
}

/// Assembles a descriptor.
pub fn assemble_descriptor(fields: &DescriptorFields) -> (block: Block)
    requires
        fields@.fits(),
    ensures
        block@ == descriptor_block(fields@),
{
    let mut block: Vec<u8> = write_head(fields);
    put_bytes(&mut block, 156, fields.root_record.as_slice());
    put_bytes(&mut block, 190, fields.volume_set_identifier.as_slice());
    put_bytes(&mut block, 318, fields.publisher_identifier.as_slice());
    put_bytes(&mut block, 446, fields.data_preparer_identifier.as_slice());
    put_bytes(&mut block, 574, fields.application_identifier.as_slice());
    put_bytes(&mut block, 702, fields.copyright_file_identifier.as_slice());
    put_bytes(&mut block, 739, fields.abstract_file_identifier.as_slice());
    put_bytes(&mut block, 776, fields.bibliographic_file_identifier.as_slice());
    put_bytes(&mut block, 813, fields.creation_time.as_slice());
    put_bytes(&mut block, 830, fields.modification_time.as_slice());
    put_bytes(&mut block, 847, fields.expiration_time.as_slice());
    put_bytes(&mut block, 864, fields.effective_time.as_slice());
    let version: [u8; 1] = [fields.file_structure_version];
    assert(version@ =~= seq![fields.file_structure_version]);
    put_bytes(&mut block, 881, version.as_slice());
    put_bytes(&mut block, 883, fields.application_use.as_slice());
    put_bytes(&mut block, 1395, fields.reserved.as_slice());
    match fields.root_record_length {
        Some(length) => {
            let claimed: [u8; 1] = [length];
            assert(claimed@ =~= seq![length]);
            put_bytes(&mut block, 156, claimed.as_slice());
        },
        None => {},
    }
    to_block(block.as_slice())
}

/// The flags of a directory record.
pub open spec fn record_flags(directory: bool, hidden: bool, associated: bool) -> u8 {
    ((if directory { 2int } else { 0 }) + (if hidden { 1int } else { 0 }) + (if associated {
        4int
    } else {
        0
    })) as u8
}

/// Makes the flags of a directory record.
pub fn make_record_flags(directory: bool, hidden: bool, associated: bool) -> (flags: u8)
    ensures
        flags == record_flags(directory, hidden, associated),
{
    (if directory { 2u8 } else { 0 }) + (if hidden { 1u8 } else { 0 }) + (if associated {
        4u8
    } else {
        0
    })
}

/// The identifier of a descriptor's root record.
pub open spec fn root_name(identifier: RootDirectoryIdentifier) -> Seq<u8> {
    seq![
        match identifier {
            RootDirectoryIdentifier::Current => 0u8,
            RootDirectoryIdentifier::Parent => 1u8,
        },
    ]
}

/// The root record of a descriptor.
#[verifier::opaque]
pub open spec fn root_record(
    extent: u32,
    length: u32,
    recording_time: Seq<char>,
    hidden: bool,
    associated: bool,
    identifier: RootDirectoryIdentifier,
) -> Result<Seq<u8>, Failure> {
    match recording_time_bytes(recording_time) {
        Err(failure) => Err(failure),
        Ok(time) => record_bytes(
            RecordModel {
                extent,
                length,
                recording_time: time,
                flags: record_flags(true, hidden, associated),
                file_unit_size: 0,
                interleave_gap_size: 0,
                volume_sequence_number: 1,
                name: root_name(identifier),
                system_use: Seq::empty(),
                trailing_system_use_padding: false,
            },
        ),
    }
}

fn make_root_record(
    extent: u32,
    length: u32,
    recording_time: &str,
    hidden: bool,
    associated: bool,
    identifier: RootDirectoryIdentifier,
) -> (result: Result<Vec<u8>, Error>)
    ensures
        agrees(
            result,
            root_record(extent, length, recording_time@, hidden, associated, identifier),
        ),
        result matches Ok(bytes) ==> bytes.len() == 34,
{
    reveal(root_record);
    let time: [u8; 7] = match serialize_recording_time(recording_time) {
        Ok(time) => time,
        Err(error) => return Err(error),
    };
    let mut name: Vec<u8> = Vec::new();
    name.push(
        match identifier {
            RootDirectoryIdentifier::Current => 0u8,
            RootDirectoryIdentifier::Parent => 1u8,
        },
    );
    let record = Record {
        extent,
        length,
        recording_time: time,
        flags: make_record_flags(true, hidden, associated),
        file_unit_size: 0,
        interleave_gap_size: 0,
        volume_sequence_number: 1,
        name,
        system_use: Vec::new(),
        trailing_system_use_padding: false,
    };
    assert(record@.name =~= root_name(identifier));
    assert(record@.system_use =~= Seq::empty());
    serialize_record(&record)
}

/// The bytes of a descriptor's application-use field.
#[verifier::opaque]
pub open spec fn application_field(volume: VolumeModel, label: Seq<char>) -> Result<Seq<u8>, Failure> {
    match volume.application_use_hex {
        None => Ok(application_use_bytes(volume.application_use)),
        Some(text) => if volume.application_use != PrimaryVolumeApplicationUse::CdXa001 {
            Err(failure_of(ErrorKind::ApplicationUseCombined, label))
        } else {
            match decoded(text, ErrorKind::ApplicationUseHex, label) {
                Err(failure) => Err(failure),
                Ok(bytes) => if bytes.len() != 512 {
                    Err(failure_of(ErrorKind::ApplicationUseLength, label))
                } else {
                    Ok(bytes)
                },
            }
        },
    }
}

/// The bytes of a descriptor's reserved field that are not zero.
#[verifier::opaque]
pub open spec fn reserved_field(volume: VolumeModel, label: Seq<char>) -> Result<Seq<u8>, Failure> {
    match volume.reserved_hex {
        None => Ok(Seq::empty()),
        Some(text) => match decoded(text, ErrorKind::ReservedHex, label) {
            Err(failure) => Err(failure),
            Ok(bytes) => if bytes.len() == 0 || bytes.len() > 653 {
                Err(failure_of(ErrorKind::ReservedLength, label))
            } else {
                Ok(bytes)
            },
        },
    }
}

/// The size that a descriptor's root record claims.
pub open spec fn root_length_check(volume: VolumeModel, label: Seq<char>) -> Result<(), Failure> {
    match volume.root_directory_record_length {
        Some(length) => if length > 34 {
            Ok(())
        } else {
            Err(failure_of(ErrorKind::RootRecordLength, label))
        },
        None => Ok(()),
    }
}

/// Makes the application-use and reserved fields of a descriptor.
pub fn write_descriptor_application_and_reserved(volume: &PrimaryVolume, label: &str) -> (result: Result<
    (Vec<u8>, Vec<u8>),
    Error,
>)
    ensures
        match result {
            Ok(fields) => {
                &&& application_field(volume@, label@) == Ok::<Seq<u8>, Failure>(fields.0@)
                &&& reserved_field(volume@, label@) == Ok::<Seq<u8>, Failure>(fields.1@)
                &&& root_length_check(volume@, label@) is Ok
                &&& fields.0.len() == 512
                &&& fields.1.len() <= 653
            },
            Err(error) => both(
                ok(application_field(volume@, label@)),
                both(ok(reserved_field(volume@, label@)), root_length_check(volume@, label@)),
            ) == Err::<(), Failure>(error@),
        },
{
    reveal(application_field);
    reveal(reserved_field);
    let application_use: Vec<u8> = match &volume.application_use_hex {
        None => primary_volume_application_use(volume.application_use),
        Some(text) => {
            if volume.application_use != PrimaryVolumeApplicationUse::CdXa001 {
                return Err(Error::of(ErrorKind::ApplicationUseCombined, label));
            }
            match decode(text.as_str(), ErrorKind::ApplicationUseHex, label) {
                Err(error) => return Err(error),
                Ok(bytes) => {
                    if bytes.len() != 512 {
                        return Err(Error::of(ErrorKind::ApplicationUseLength, label));
                    }
                    bytes
                },
            }
        },
    };
    let reserved: Vec<u8> = match &volume.reserved_hex {
        None => Vec::new(),
        Some(text) => match decode(text.as_str(), ErrorKind::ReservedHex, label) {
            Err(error) => return Err(error),
            Ok(bytes) => {
                if bytes.len() == 0 || bytes.len() > 653 {
                    return Err(Error::of(ErrorKind::ReservedLength, label));
                }
                bytes
            },
        },
    };
    match volume.root_directory_record_length {
        Some(length) => {
            if length <= 34 {
                return Err(Error::of(ErrorKind::RootRecordLength, label));
            }
        },
        None => {},
    }
    Ok((application_use, reserved))
}

fn write_time(text: &Option<String>) -> (result: Result<Vec<u8>, Error>)
    ensures
        agrees(result, volume_time_bytes(opt_view(*text))),
        result matches Ok(bytes) ==> bytes.len() == 17,
{
    match text {
        Some(text) => serialize_volume_time(Some(text.as_str())),
        None => serialize_volume_time(None),
    }
}

/// The four times of a descriptor, encoded.
pub struct DescriptorTimes {
    pub creation_time: Vec<u8>,
    pub modification_time: Vec<u8>,
    pub expiration_time: Vec<u8>,
    pub effective_time: Vec<u8>,
}

/// The first time of a descriptor that cannot be written.
pub open spec fn times_check(volume: VolumeModel) -> Result<(), Failure> {
    both(
        ok(volume_time_bytes(volume.creation_time)),
        both(
            ok(volume_time_bytes(volume.modification_time)),
            both(
                ok(volume_time_bytes(volume.expiration_time)),
                ok(volume_time_bytes(volume.effective_time)),
            ),
        ),
    )
}

fn write_times(volume: &PrimaryVolume) -> (result: Result<DescriptorTimes, Error>)
    ensures
        match result {
            Ok(times) => {
                &&& times_check(volume@) is Ok
                &&& volume_time_bytes(volume@.creation_time) == Ok::<Seq<u8>, Failure>(times.creation_time@)
                &&& times.creation_time.len() == 17
                &&& volume_time_bytes(volume@.modification_time) == Ok::<Seq<u8>, Failure>(times.modification_time@)
                &&& times.modification_time.len() == 17
                &&& volume_time_bytes(volume@.expiration_time) == Ok::<Seq<u8>, Failure>(times.expiration_time@)
                &&& times.expiration_time.len() == 17
                &&& volume_time_bytes(volume@.effective_time) == Ok::<Seq<u8>, Failure>(times.effective_time@)
                &&& times.effective_time.len() == 17
            },
            Err(error) => times_check(volume@) == Err::<(), Failure>(error@),
        },
{
    let creation_time: Vec<u8> = match write_time(&volume.creation_time) {
        Ok(bytes) => bytes,
        Err(error) => return Err(error),
    };
    let modification_time: Vec<u8> = match write_time(&volume.modification_time) {
        Ok(bytes) => bytes,
        Err(error) => return Err(error),
    };
    let expiration_time: Vec<u8> = match write_time(&volume.expiration_time) {
        Ok(bytes) => bytes,
        Err(error) => return Err(error),
    };
    let effective_time: Vec<u8> = match write_time(&volume.effective_time) {
        Ok(bytes) => bytes,
        Err(error) => return Err(error),
    };
    Ok(DescriptorTimes { creation_time, modification_time, expiration_time, effective_time })
}

/// The time of a descriptor's root record: its own, or that of the root entry.
pub open spec fn root_time(volume: VolumeModel, root_time: Seq<char>) -> Seq<char> {
    match volume.root_directory_recording_time {
        Some(time) => time,
        None => root_time,
    }
}

/// What a descriptor says of the image around it.
pub struct DescriptorPlace {
    pub volume_blocks: u32,
    pub path_table_size: u32,
    pub pointers: [u32; 4],
    pub root_extent: u32,
    pub root_length: u32,
}

/// The mathematical form of a [`DescriptorPlace`].
#[verifier::ext_equal]
pub struct PlaceModel {
    pub volume_blocks: u32,
    pub path_table_size: u32,
    pub pointers: Seq<u32>,
    pub root_extent: u32,
    pub root_length: u32,
}

impl View for DescriptorPlace {
    type V = PlaceModel;

    open spec fn view(&self) -> PlaceModel {
        PlaceModel {
            volume_blocks: self.volume_blocks,
            path_table_size: self.path_table_size,
            pointers: self.pointers@,
            root_extent: self.root_extent,
            root_length: self.root_length,
        }
    }
}

/// The first field of a primary descriptor that cannot be written.
pub open spec fn pvd_check(volume: VolumeModel, place: PlaceModel, root: EntryModel) -> Result<
    (),
    Failure,
> {
    let label = "primary-volume"@;
    both(
        ok(fixed_field(volume.system_identifier, 32)),
        both(
            ok(fixed_field(volume.volume_identifier, 32)),
            both(
                ok(pvd_root(volume, place, root)),
                both(
                    ok(fixed_field(volume.volume_set_identifier, 128)),
                    both(
                        ok(fixed_field(volume.publisher_identifier, 128)),
                        both(
                            ok(fixed_field(volume.data_preparer_identifier, 128)),
                            both(
                                ok(fixed_field(volume.application_identifier, 128)),
                                both(
                                    ok(fixed_field(volume.copyright_file_identifier, 37)),
                                    both(
                                        ok(fixed_field(volume.abstract_file_identifier, 37)),
                                        both(
                                            ok(fixed_field(volume.bibliographic_file_identifier, 37)),
                                            both(
                                                times_check(volume),
                                                both(
                                                    ok(application_field(volume, label)),
                                                    both(
                                                        ok(reserved_field(volume, label)),
                                                        root_length_check(volume, label),
                                                    ),
                                                ),
                                            ),
                                        ),
                                    ),
                                ),
                            ),
                        ),
                    ),
                ),
            ),
        ),
    )
}

/// The root record of a primary descriptor.
pub open spec fn pvd_root(volume: VolumeModel, place: PlaceModel, root: EntryModel) -> Result<
    Seq<u8>,
    Failure,
> {
    root_record(
        place.root_extent,
        place.root_length,
        root_time(volume, root.recording_time),
        root.hidden,
        root.associated,
        volume.root_directory_identifier,
    )
}

/// The fields of a primary descriptor.
pub open spec fn pvd_fields(volume: VolumeModel, place: PlaceModel, root: EntryModel) -> DescriptorModel {
    let label = "primary-volume"@;
    DescriptorModel {
        kind: 1,
        flags: 0,
        volume_space_size: place.volume_blocks,
        escape_sequence: volume.escape_sequence,
        u16_encoding: volume.u16_encoding,
        path_table_size: place.path_table_size,
        pointers: place.pointers,
        root_record: pvd_root(volume, place, root)->Ok_0,
        root_record_length: volume.root_directory_record_length,
        system_identifier: fixed_field(volume.system_identifier, 32)->Ok_0,
        volume_identifier: fixed_field(volume.volume_identifier, 32)->Ok_0,
        volume_set_identifier: fixed_field(volume.volume_set_identifier, 128)->Ok_0,
        publisher_identifier: fixed_field(volume.publisher_identifier, 128)->Ok_0,
        data_preparer_identifier: fixed_field(volume.data_preparer_identifier, 128)->Ok_0,
        application_identifier: fixed_field(volume.application_identifier, 128)->Ok_0,
        copyright_file_identifier: fixed_field(volume.copyright_file_identifier, 37)->Ok_0,
        abstract_file_identifier: fixed_field(volume.abstract_file_identifier, 37)->Ok_0,
        bibliographic_file_identifier: fixed_field(volume.bibliographic_file_identifier, 37)->Ok_0,
        creation_time: volume_time_bytes(volume.creation_time)->Ok_0,
        modification_time: volume_time_bytes(volume.modification_time)->Ok_0,
        expiration_time: volume_time_bytes(volume.expiration_time)->Ok_0,
        effective_time: volume_time_bytes(volume.effective_time)->Ok_0,
        file_structure_version: match volume.file_structure_version {
            Some(version) => version,
            None => 1,
        },
        application_use: application_field(volume, label)->Ok_0,
        reserved: reserved_field(volume, label)->Ok_0,
    }
}

/// A primary descriptor.
pub open spec fn pvd_block(volume: VolumeModel, place: PlaceModel, root: EntryModel) -> Result<
    Seq<u8>,
    Failure,
> {
    match pvd_check(volume, place, root) {
        Err(failure) => Err(failure),
        Ok(_) => Ok(descriptor_block(pvd_fields(volume, place, root))),
    }
}

/// Writes a primary descriptor.
pub fn serialize_pvd(volume: &PrimaryVolume, place: &DescriptorPlace, root: &Entry) -> (result: Result<
    Block,
    Error,
>)
    ensures
        agrees(result, pvd_block(volume@, place@, root@)),
{
    let label: &str = "primary-volume";
    let system_identifier: Vec<u8> = match fixed_bytes(32, volume.system_identifier.as_str()) {
        Ok(bytes) => bytes,
        Err(error) => return Err(error),
    };
    let volume_identifier: Vec<u8> = match fixed_bytes(32, volume.volume_identifier.as_str()) {
        Ok(bytes) => bytes,
        Err(error) => return Err(error),
    };
    let time: &str = match &volume.root_directory_recording_time {
        Some(time) => time.as_str(),
        None => root.recording_time.as_str(),
    };
    let record: Vec<u8> = match make_root_record(
        place.root_extent,
        place.root_length,
        time,
        root.hidden,
        root.associated,
        volume.root_directory_identifier,
    ) {
        Ok(bytes) => bytes,
        Err(error) => return Err(error),
    };
    let volume_set_identifier: Vec<u8> = match fixed_bytes(128, volume.volume_set_identifier.as_str()) {
        Ok(bytes) => bytes,
        Err(error) => return Err(error),
    };
    let publisher_identifier: Vec<u8> = match fixed_bytes(128, volume.publisher_identifier.as_str()) {
        Ok(bytes) => bytes,
        Err(error) => return Err(error),
    };
    let data_preparer_identifier: Vec<u8> = match fixed_bytes(128, volume.data_preparer_identifier.as_str()) {
        Ok(bytes) => bytes,
        Err(error) => return Err(error),
    };
    let application_identifier: Vec<u8> = match fixed_bytes(128, volume.application_identifier.as_str()) {
        Ok(bytes) => bytes,
        Err(error) => return Err(error),
    };
    let copyright_file_identifier: Vec<u8> = match fixed_bytes(37, volume.copyright_file_identifier.as_str()) {
        Ok(bytes) => bytes,
        Err(error) => return Err(error),
    };
    let abstract_file_identifier: Vec<u8> = match fixed_bytes(37, volume.abstract_file_identifier.as_str()) {
        Ok(bytes) => bytes,
        Err(error) => return Err(error),
    };
    let bibliographic_file_identifier: Vec<u8> = match fixed_bytes(37, volume.bibliographic_file_identifier.as_str()) {
        Ok(bytes) => bytes,
        Err(error) => return Err(error),
    };
    let times: DescriptorTimes = match write_times(volume) {
        Ok(times) => times,
        Err(error) => return Err(error),
    };
    let (application_use, reserved) = match write_descriptor_application_and_reserved(volume, label) {
        Ok(fields) => fields,
        Err(error) => return Err(error),
    };
    let fields = DescriptorFields {
        kind: 1,
        flags: 0,
        volume_space_size: place.volume_blocks,
        escape_sequence: volume.escape_sequence,
        u16_encoding: volume.u16_encoding,
        path_table_size: place.path_table_size,
        pointers: place.pointers,
        root_record: record,
        root_record_length: volume.root_directory_record_length,
        system_identifier,
        volume_identifier,
        volume_set_identifier,
        publisher_identifier,
        data_preparer_identifier,
        application_identifier,
        copyright_file_identifier,
        abstract_file_identifier,
        bibliographic_file_identifier,
        creation_time: times.creation_time,
        modification_time: times.modification_time,
        expiration_time: times.expiration_time,
        effective_time: times.effective_time,
        file_structure_version: match volume.file_structure_version {
            Some(version) => version,
            None => 1,
        },
        application_use,
        reserved,
    };
    assert(fields@ =~= pvd_fields(volume@, place@, root@));
    Ok(assemble_descriptor(&fields))
}

/// The odd bytes of the three file identifier fields.
pub open spec fn odd_bytes(volume: JolietModel) -> Result<Seq<u8>, Failure> {
    match volume.file_identifier_odd_bytes_hex {
        None => Ok(fill(3, 0)),
        Some(text) => match decoded(text, ErrorKind::JolietOddBytesHex, Seq::empty()) {
            Err(failure) => Err(failure),
            Ok(bytes) => if bytes.len() != 3 {
                Err(failure_of(ErrorKind::JolietOddBytesLength, Seq::empty()))
            } else {
                Ok(bytes)
            },
        },
    }
}

/// The volume set identifier: raw bytes, or a text.
pub open spec fn joliet_set_identifier(volume: JolietModel) -> Result<Seq<u8>, Failure> {
    match volume.volume_set_identifier_raw_hex {
        Some(text) => match decoded(text, ErrorKind::JolietSetIdentifierHex, Seq::empty()) {
            Err(failure) => Err(failure),
            Ok(bytes) => if bytes.len() != 128 {
                Err(failure_of(ErrorKind::JolietSetIdentifierLength, Seq::empty()))
            } else {
                Ok(bytes)
            },
        },
        None => joliet_text_field(volume, volume.descriptor.volume_set_identifier, 128, None),
    }
}

/// A text field of a Joliet descriptor.
pub open spec fn joliet_text_field(
    volume: JolietModel,
    text: Seq<char>,
    length: int,
    odd_byte: Option<u8>,
) -> Result<Seq<u8>, Failure> {
    joliet_field(text, length, volume.zero_fill_empty_strings, volume.zero_pad_strings, odd_byte)
}

/// The root record of a Joliet descriptor.
pub open spec fn svd_root(volume: JolietModel, place: PlaceModel) -> Result<Seq<u8>, Failure> {
    let root = volume.entries[0];
    root_record(
        place.root_extent,
        place.root_length,
        root_time(volume.descriptor, root.recording_time),
        root.hidden,
        root.associated,
        volume.descriptor.root_directory_identifier,
    )
}

/// The first field of a Joliet descriptor that cannot be written.
pub open spec fn svd_check(volume: JolietModel, place: PlaceModel) -> Result<(), Failure> {
    let label = "Joliet"@;
    let descriptor = volume.descriptor;
    let odd = odd_bytes(volume)->Ok_0;
    both(
        ok(joliet_text_field(volume, descriptor.system_identifier, 32, None)),
        both(
            ok(joliet_text_field(volume, descriptor.volume_identifier, 32, None)),
            both(
                ok(svd_root(volume, place)),
                both(
                    ok(joliet_set_identifier(volume)),
                    both(
                        ok(joliet_text_field(volume, descriptor.publisher_identifier, 128, None)),
                        both(
                            ok(joliet_text_field(volume, descriptor.data_preparer_identifier, 128, None)),
                            both(
                                ok(joliet_text_field(volume, descriptor.application_identifier, 128, None)),
                                both(
                                    ok(odd_bytes(volume)),
                                    both(
                                        ok(joliet_text_field(volume, descriptor.copyright_file_identifier, 37, Some(odd[0]))),
                                        both(
                                            ok(joliet_text_field(volume, descriptor.abstract_file_identifier, 37, Some(odd[1]))),
                                            both(
                                                ok(joliet_text_field(volume, descriptor.bibliographic_file_identifier, 37, Some(odd[2]))),
                                                both(
                                                    times_check(descriptor),
                                                    both(
                                                        ok(application_field(descriptor, label)),
                                                        both(
                                                            ok(reserved_field(descriptor, label)),
                                                            root_length_check(descriptor, label),
                                                        ),
                                                    ),
                                                ),
                                            ),
                                        ),
                                    ),
                                ),
                            ),
                        ),
                    ),
                ),
            ),
        ),
    )
}

/// The fields of a Joliet descriptor.
pub open spec fn svd_fields(volume: JolietModel, place: PlaceModel) -> DescriptorModel {
    let label = "Joliet"@;
    let descriptor = volume.descriptor;
    let odd = odd_bytes(volume)->Ok_0;
    DescriptorModel {
        kind: 2,
        flags: volume.flags,
        volume_space_size: match descriptor.volume_space_size {
            Some(size) => size,
            None => place.volume_blocks,
        },
        escape_sequence: Some(volume.level),
        u16_encoding: descriptor.u16_encoding,
        path_table_size: place.path_table_size,
        pointers: place.pointers,
        root_record: svd_root(volume, place)->Ok_0,
        root_record_length: descriptor.root_directory_record_length,
        system_identifier: joliet_text_field(volume, descriptor.system_identifier, 32, None)->Ok_0,
        volume_identifier: joliet_text_field(volume, descriptor.volume_identifier, 32, None)->Ok_0,
        volume_set_identifier: joliet_set_identifier(volume)->Ok_0,
        publisher_identifier: joliet_text_field(volume, descriptor.publisher_identifier, 128, None)->Ok_0,
        data_preparer_identifier: joliet_text_field(volume, descriptor.data_preparer_identifier, 128, None)->Ok_0,
        application_identifier: joliet_text_field(volume, descriptor.application_identifier, 128, None)->Ok_0,
        copyright_file_identifier: joliet_text_field(volume, descriptor.copyright_file_identifier, 37, Some(odd[0]))->Ok_0,
        abstract_file_identifier: joliet_text_field(volume, descriptor.abstract_file_identifier, 37, Some(odd[1]))->Ok_0,
        bibliographic_file_identifier: joliet_text_field(volume, descriptor.bibliographic_file_identifier, 37, Some(odd[2]))->Ok_0,
        creation_time: volume_time_bytes(descriptor.creation_time)->Ok_0,
        modification_time: volume_time_bytes(descriptor.modification_time)->Ok_0,
        expiration_time: volume_time_bytes(descriptor.expiration_time)->Ok_0,
        effective_time: volume_time_bytes(descriptor.effective_time)->Ok_0,
        file_structure_version: match descriptor.file_structure_version {
            Some(version) => version,
            None => 1,
        },
        application_use: application_field(descriptor, label)->Ok_0,
        reserved: reserved_field(descriptor, label)->Ok_0,
    }
}

/// A Joliet descriptor.
pub open spec fn svd_block(volume: JolietModel, place: PlaceModel) -> Result<Seq<u8>, Failure> {
    if volume.entries.len() == 0 {
        Err(failure(ErrorKind::JolietRootEntry))
    } else {
        match svd_check(volume, place) {
            Err(failure) => Err(failure),
            Ok(_) => Ok(descriptor_block(svd_fields(volume, place))),
        }
    }
}

fn write_joliet_text(volume: &JolietVolume, length: usize, text: &str, odd_byte: Option<u8>) -> (result: Result<
    Vec<u8>,
    Error,
>)
    ensures
        agrees(result, joliet_text_field(volume@, text@, length as int, odd_byte)),
        result matches Ok(bytes) ==> bytes.len() == length,
{
    joliet_field_bytes(
        length,
        text,
        volume.zero_fill_empty_strings,
        volume.zero_pad_strings,
        odd_byte,
    )
}

fn write_set_identifier(volume: &JolietVolume) -> (result: Result<Vec<u8>, Error>)
    ensures
        agrees(result, joliet_set_identifier(volume@)),
        result matches Ok(bytes) ==> bytes.len() == 128,
{
    let nothing: &str = "";
    proof {
        reveal_strlit("");
        assert(nothing@ =~= Seq::empty());
    }
    match &volume.volume_set_identifier_raw_hex {
        Some(text) => match decode(text.as_str(), ErrorKind::JolietSetIdentifierHex, nothing) {
            Err(error) => Err(error),
            Ok(bytes) => if bytes.len() != 128 {
                Err(Error::of(ErrorKind::JolietSetIdentifierLength, nothing))
            } else {
                Ok(bytes)
            },
        },
        None => write_joliet_text(
            volume,
            128,
            volume.descriptor.volume_set_identifier.as_str(),
            None,
        ),
    }
}

fn write_odd_bytes(volume: &JolietVolume) -> (result: Result<Vec<u8>, Error>)
    ensures
        agrees(result, odd_bytes(volume@)),
        result matches Ok(bytes) ==> bytes.len() == 3,
{
    let nothing: &str = "";
    proof {
        reveal_strlit("");
        assert(nothing@ =~= Seq::empty());
    }
    match &volume.file_identifier_odd_bytes_hex {
        None => Ok(filled(3, 0)),
        Some(text) => match decode(text.as_str(), ErrorKind::JolietOddBytesHex, nothing) {
            Err(error) => Err(error),
            Ok(bytes) => if bytes.len() != 3 {
                Err(Error::of(ErrorKind::JolietOddBytesLength, nothing))
            } else {
                Ok(bytes)
            },
        },
    }
}

/// Writes a Joliet descriptor.
pub fn serialize_joliet_svd(volume: &JolietVolume, place: &DescriptorPlace) -> (result: Result<
    Block,
    Error,
>)
    ensures
        agrees(result, svd_block(volume@, place@)),
{
    if volume.entries.len() == 0 {
        return Err(Error::new(ErrorKind::JolietRootEntry));
    }
    let label: &str = "Joliet";
    let descriptor: &PrimaryVolume = &volume.descriptor;
    let root: &JolietEntry = &volume.entries[0];
    assert(volume@.entries[0] == root@);
    let system_identifier: Vec<u8> = match write_joliet_text(volume, 32, descriptor.system_identifier.as_str(), None) {
        Ok(bytes) => bytes,
        Err(error) => return Err(error),
    };
    let volume_identifier: Vec<u8> = match write_joliet_text(volume, 32, descriptor.volume_identifier.as_str(), None) {
        Ok(bytes) => bytes,
        Err(error) => return Err(error),
    };
    let time: &str = match &descriptor.root_directory_recording_time {
        Some(time) => time.as_str(),
        None => root.recording_time.as_str(),
    };
    let record: Vec<u8> = match make_root_record(
        place.root_extent,
        place.root_length,
        time,
        root.hidden,
        root.associated,
        descriptor.root_directory_identifier,
    ) {
        Ok(bytes) => bytes,
        Err(error) => return Err(error),
    };
    let volume_set_identifier: Vec<u8> = match write_set_identifier(volume) {
        Ok(bytes) => bytes,
        Err(error) => return Err(error),
    };
    let publisher_identifier: Vec<u8> = match write_joliet_text(volume, 128, descriptor.publisher_identifier.as_str(), None) {
        Ok(bytes) => bytes,
        Err(error) => return Err(error),
    };
    let data_preparer_identifier: Vec<u8> = match write_joliet_text(volume, 128, descriptor.data_preparer_identifier.as_str(), None) {
        Ok(bytes) => bytes,
        Err(error) => return Err(error),
    };
    let application_identifier: Vec<u8> = match write_joliet_text(volume, 128, descriptor.application_identifier.as_str(), None) {
        Ok(bytes) => bytes,
        Err(error) => return Err(error),
    };
    let odd: Vec<u8> = match write_odd_bytes(volume) {
        Ok(bytes) => bytes,
        Err(error) => return Err(error),
    };
    let copyright_file_identifier: Vec<u8> = match write_joliet_text(volume, 37, descriptor.copyright_file_identifier.as_str(), Some(odd[0])) {
        Ok(bytes) => bytes,
        Err(error) => return Err(error),
    };
    let abstract_file_identifier: Vec<u8> = match write_joliet_text(volume, 37, descriptor.abstract_file_identifier.as_str(), Some(odd[1])) {
        Ok(bytes) => bytes,
        Err(error) => return Err(error),
    };
    let bibliographic_file_identifier: Vec<u8> = match write_joliet_text(volume, 37, descriptor.bibliographic_file_identifier.as_str(), Some(odd[2])) {
        Ok(bytes) => bytes,
        Err(error) => return Err(error),
    };
    let times: DescriptorTimes = match write_times(descriptor) {
        Ok(times) => times,
        Err(error) => return Err(error),
    };
    let (application_use, reserved) = match write_descriptor_application_and_reserved(descriptor, label) {
        Ok(fields) => fields,
        Err(error) => return Err(error),
    };
    let fields = DescriptorFields {
        kind: 2,
        flags: volume.flags,
        volume_space_size: match descriptor.volume_space_size {
            Some(size) => size,
            None => place.volume_blocks,
        },
        escape_sequence: Some(volume.level),
        u16_encoding: descriptor.u16_encoding,
        path_table_size: place.path_table_size,
        pointers: place.pointers,
        root_record: record,
        root_record_length: descriptor.root_directory_record_length,
        system_identifier,
        volume_identifier,
        volume_set_identifier,
        publisher_identifier,
        data_preparer_identifier,
        application_identifier,
        copyright_file_identifier,
        abstract_file_identifier,
        bibliographic_file_identifier,
        creation_time: times.creation_time,
        modification_time: times.modification_time,
        expiration_time: times.expiration_time,
        effective_time: times.effective_time,
        file_structure_version: match descriptor.file_structure_version {
            Some(version) => version,
            None => 1,
        },
        application_use,
        reserved,
    };
    assert(fields@ =~= svd_fields(volume@, place@));
    Ok(assemble_descriptor(&fields))
}

} // verus!
