//! A descriptor that was written, read and written again is the same.
use vstd::prelude::*;

use crate::bytes::{
    all_are, be32, be32_round_trip, field, fill, from_le16, le16, le32, le32_round_trip,
    used_length, used_length_is_last,
};
use crate::error::Failure;
use crate::hexcode::{hex_round_trip, hex_text};
use crate::iso9660::description::{EntryModel, JolietModel, VolumeModel};
use crate::iso9660::descriptor::{
    application_use_of, escape_field, header_encoding, parsed_volume, text_field, used_hex,
    volume_check,
};
use crate::iso9660::descriptor_write::{
    application_field, descriptor_block, descriptor_head, descriptor_signature, joliet_text_field,
    odd_bytes, pvd_block, pvd_check, pvd_fields, pvd_root, reserved_field, root_name, root_record,
    svd_block, svd_check, svd_fields, svd_root, DescriptorModel, PlaceModel,
};
use crate::iso9660::fields::{both32, both32_round_trip, fixed_field, read_both32};
use crate::iso9660::joliet::{joliet_field, level_bytes, level_of, level_survives};
use crate::iso9660::joliet_parse::{odd_identifier_bytes, table_pointers};
use crate::iso9660::time::{recording_time_bytes, volume_time_bytes};
use crate::iso9660::time_laws::volume_time_survives;
use crate::manifest::{JolietLevel, PrimaryVolumeApplicationUse, PvdU16Encoding};
use crate::text::{trimmed, trimmed_length, trimmed_length_bound, utf8};

verus! {

/// What is cut off a text is spaces, and no NUL.
pub open spec fn ends_plainly(text: Seq<char>) -> bool {
    forall|i: int| trimmed_length(text) <= i < text.len() ==> text[i] == ' '
}

/// Every text of a volume ends plainly.
pub open spec fn texts_end_plainly(volume: VolumeModel) -> bool {
    &&& ends_plainly(volume.system_identifier)
    &&& ends_plainly(volume.volume_identifier)
    &&& ends_plainly(volume.volume_set_identifier)
    &&& ends_plainly(volume.publisher_identifier)
    &&& ends_plainly(volume.data_preparer_identifier)
    &&& ends_plainly(volume.application_identifier)
    &&& ends_plainly(volume.copyright_file_identifier)
    &&& ends_plainly(volume.abstract_file_identifier)
    &&& ends_plainly(volume.bibliographic_file_identifier)
}

spec fn spaces(count: nat) -> Seq<char> {
    Seq::new(count, |i: int| ' ')
}

proof fn trimmed_of_padded(text: Seq<char>, count: nat)
    ensures
        trimmed_length(text + spaces(count)) == trimmed_length(text),
    decreases count,
{
    let padded = text + spaces(count);
    if count == 0 {
        assert(padded =~= text);
    } else {
        trimmed_of_padded(text, (count - 1) as nat);
        assert(padded.last() == ' ');
        assert(padded.drop_last() =~= text + spaces((count - 1) as nat));
    }
}

/// A text that was written to a field is read from it, without what is cut off.
pub proof fn text_is_read(text: Seq<char>, block: Seq<u8>, offset: int, length: int)
    requires
        0 <= offset,
        0 <= length,
        offset + length <= block.len(),
        fixed_field(text, length) is Ok,
        block.subrange(offset, offset + length) == fixed_field(text, length)->Ok_0,
    ensures
        text_field(block, offset, length, false) == Ok::<Seq<char>, Failure>(trimmed(text)),
{
    reveal(text_field);
    reveal(fixed_field);
    vstd::utf8::is_ascii_chars_encode_utf8(text);
    let count = (length - text.len()) as nat;
    let padded = text + spaces(count);
    assert(vstd::utf8::is_ascii_chars(padded)) by {
        assert forall|i: int| 0 <= i < padded.len() implies '\0' <= #[trigger] padded[i]
            <= '\u{7f}' by {
            if i < text.len() {
                assert(padded[i] == text[i]);
            } else {
                assert(padded[i] == ' ');
            }
        }
    }
    vstd::utf8::is_ascii_chars_encode_utf8(padded);
    let bytes = fixed_field(text, length)->Ok_0;
    assert(' ' as u8 == 32);
    assert forall|i: int| 0 <= i < length implies bytes[i] == utf8(padded)[i] by {
        if i < text.len() {
            assert(padded[i] == text[i]);
            assert(text[i] as u8 == utf8(text)[i]);
        } else {
            assert(padded[i] == ' ');
        }
        assert(padded[i] as u8 == utf8(padded)[i]);
    }
    assert(bytes =~= utf8(padded));
    vstd::utf8::encode_utf8_valid_utf8(padded);
    vstd::utf8::encode_utf8_decode_utf8(padded);
    trimmed_of_padded(text, count);
    trimmed_length_bound(text);
    assert(trimmed(padded) =~= trimmed(text));
}

/// A text that was written to a field and read from it is written as before.
pub proof fn text_is_rebuilt(text: Seq<char>, block: Seq<u8>, offset: int, length: int)
    requires
        0 <= offset,
        0 <= length,
        offset + length <= block.len(),
        fixed_field(text, length) is Ok,
        block.subrange(offset, offset + length) == fixed_field(text, length)->Ok_0,
        ends_plainly(text),
    ensures
        text_field(block, offset, length, false) is Ok,
        fixed_field(text_field(block, offset, length, false)->Ok_0, length) == fixed_field(
            text,
            length,
        ),
{
    text_is_read(text, block, offset, length);
    reveal(fixed_field);
    vstd::utf8::is_ascii_chars_encode_utf8(text);
    trimmed_length_bound(text);
    let bytes = fixed_field(text, length)->Ok_0;
    let read = trimmed(text);
    assert(read =~= text.take(trimmed_length(text) as int));
    assert(vstd::utf8::is_ascii_chars(read)) by {
        assert forall|i: int| 0 <= i < read.len() implies '\0' <= #[trigger] read[i] <= '\u{7f}' by {
            assert(read[i] == text[i]);
        }
    }
    vstd::utf8::is_ascii_chars_encode_utf8(read);
    let again = fixed_field(read, length)->Ok_0;
    assert forall|i: int| 0 <= i < length implies again[i] == bytes[i] by {
        if i < read.len() {
            assert(read[i] == text[i]);
            assert(read[i] as u8 == utf8(read)[i]);
            assert(text[i] as u8 == utf8(text)[i]);
        } else if i < text.len() {
            assert(text[i] == ' ');
            assert(text[i] as u8 == utf8(text)[i]);
        }
    }
    assert(again =~= bytes);
}

/// Where the fields of a descriptor stand.
#[verifier::rlimit(60)]
#[verifier::spinoff_prover]
pub proof fn tail_parts(fields: DescriptorModel)
    requires
        fields.fits(),
    ensures
        ({
            let block = descriptor_block(fields);
            &&& block.len() == 2048
            &&& block.subrange(190, 318) == fields.volume_set_identifier
            &&& block.subrange(318, 446) == fields.publisher_identifier
            &&& block.subrange(446, 574) == fields.data_preparer_identifier
            &&& block.subrange(574, 702) == fields.application_identifier
            &&& block.subrange(702, 739) == fields.copyright_file_identifier
            &&& block.subrange(739, 776) == fields.abstract_file_identifier
            &&& block.subrange(776, 813) == fields.bibliographic_file_identifier
            &&& block.subrange(813, 830) == fields.creation_time
            &&& block.subrange(830, 847) == fields.modification_time
            &&& block.subrange(847, 864) == fields.expiration_time
            &&& block.subrange(864, 881) == fields.effective_time
            &&& block.subrange(883, 1395) == fields.application_use
            &&& block[881] == fields.file_structure_version
            &&& block[189] == fields.root_record[33]
            &&& block.subrange(1395, 2048) == fields.reserved + fill(
                (653 - fields.reserved.len()) as nat,
                0,
            )
        }),
{
    let block = descriptor_block(fields);
    assert(block.subrange(190, 318) =~= fields.volume_set_identifier);
    assert(block.subrange(318, 446) =~= fields.publisher_identifier);
    assert(block.subrange(446, 574) =~= fields.data_preparer_identifier);
    assert(block.subrange(574, 702) =~= fields.application_identifier);
    assert(block.subrange(702, 739) =~= fields.copyright_file_identifier);
    assert(block.subrange(739, 776) =~= fields.abstract_file_identifier);
    assert(block.subrange(776, 813) =~= fields.bibliographic_file_identifier);
    assert(block.subrange(813, 830) =~= fields.creation_time);
    assert(block.subrange(830, 847) =~= fields.modification_time);
    assert(block.subrange(847, 864) =~= fields.expiration_time);
    assert(block.subrange(864, 881) =~= fields.effective_time);
    assert(block.subrange(883, 1395) =~= fields.application_use);
    assert(block.subrange(1395, 2048) =~= fields.reserved + fill(
        (653 - fields.reserved.len()) as nat,
        0,
    ));
}

/// A descriptor is a block.
pub proof fn descriptor_length(fields: DescriptorModel)
    ensures
        descriptor_block(fields).len() == 2048,
{
}

/// What stands past the root record does not touch what stands before it.
#[verifier::spinoff_prover]
pub proof fn head_is_kept(fields: DescriptorModel)
    requires
        fields.fits(),
    ensures
        forall|i: int| 0 <= i < 156 ==> descriptor_block(fields)[i] == descriptor_head(fields)[i],
        descriptor_head(fields).len() == 2048,
{
}

/// Where the fields before the root record stand.
#[verifier::spinoff_prover]
pub proof fn head_parts(fields: DescriptorModel)
    requires
        fields.fits(),
    ensures
        ({
            let head = descriptor_head(fields);
            &&& head.subrange(8, 40) == fields.system_identifier
            &&& head.subrange(40, 72) == fields.volume_identifier
            &&& head.subrange(80, 88) == both32(fields.volume_space_size)
            &&& fields.escape_sequence is None ==> all_are(head.subrange(88, 120), 0)
            &&& fields.escape_sequence matches Some(level) ==> head.subrange(88, 91) == level_bytes(
                level,
            ) && all_are(head.subrange(91, 120), 0)
            &&& head.subrange(120, 122) == le16(1)
            &&& head.subrange(124, 126) == le16(1)
            &&& head.subrange(128, 130) == le16(2048)
            &&& fields.u16_encoding == PvdU16Encoding::BothEndian ==> head[122] == 0 && head[123]
                == 1 && head[126] == 0 && head[127] == 1 && head[130] == 8 && head[131] == 0
            &&& fields.u16_encoding == PvdU16Encoding::LittleEndianOnly ==> head[122] == 0
                && head[123] == 0 && head[126] == 0 && head[127] == 0 && head[130] == 0 && head[131]
                == 0
        }),
{
    let head = descriptor_head(fields);
    assert(head.subrange(8, 40) =~= fields.system_identifier);
    assert(head.subrange(40, 72) =~= fields.volume_identifier);
    assert(head.subrange(80, 88) =~= both32(fields.volume_space_size));
    if fields.escape_sequence is Some {
        assert(head.subrange(88, 91) =~= level_bytes(fields.escape_sequence->Some_0));
    }
    assert(head.subrange(120, 122) =~= le16(1));
    assert(head.subrange(124, 126) =~= le16(1));
    assert(head.subrange(128, 130) =~= le16(2048));
}

/// Where the fields of a descriptor before its root record stand.
pub proof fn start_parts(fields: DescriptorModel)
    requires
        fields.fits(),
    ensures
        ({
            let block = descriptor_block(fields);
            let head = descriptor_head(fields);
            &&& block.len() == 2048
            &&& block.subrange(0, 156) == head.subrange(0, 156)
            &&& forall|a: int, b: int|
                0 <= a <= b <= 156 ==> #[trigger] block.subrange(a, b) == head.subrange(a, b)
        }),
{
    head_is_kept(fields);
    let block = descriptor_block(fields);
    let head = descriptor_head(fields);
    assert(block.subrange(0, 156) =~= head.subrange(0, 156));
    assert forall|a: int, b: int| 0 <= a <= b <= 156 implies #[trigger] block.subrange(a, b)
        == head.subrange(a, b) by {
        assert(block.subrange(a, b) =~= head.subrange(a, b));
    }
}

/// The fixed fields of a descriptor are read as they were written.
pub proof fn header_is_read(fields: DescriptorModel)
    requires
        fields.fits(),
        fields.volume_space_size > 0,
        fields.file_structure_version <= 1,
        fields.root_record[33] <= 1,
    ensures
        header_encoding(descriptor_block(fields)) == Ok::<PvdU16Encoding, Failure>(
            fields.u16_encoding,
        ),
        escape_field(descriptor_block(fields), false) == Ok::<Option<JolietLevel>, Failure>(
            fields.escape_sequence,
        ),
{
    reveal(header_encoding);
    let block = descriptor_block(fields);
    let head = descriptor_head(fields);
    tail_parts(fields);
    head_parts(fields);
    head_is_kept(fields);
    start_parts(fields);
    both32_round_trip(block, 80, fields.volume_space_size);
    assert(field(block, 120, 2) == le16(1));
    assert(field(block, 124, 2) == le16(1));
    assert(field(block, 128, 2) == le16(2048));
    assert(from_le16(le16(1)) == 1);
    assert(from_le16(le16(2048)) == 2048);
    let second = field(block, 122, 2);
    assert(second[0] == head[122] && second[1] == head[123]);
    let fourth = field(block, 126, 2);
    assert(fourth[0] == head[126] && fourth[1] == head[127]);
    let sixth = field(block, 130, 2);
    assert(sixth[0] == head[130] && sixth[1] == head[131]);
    match fields.escape_sequence {
        None => {
            assert(block.subrange(88, 120) == head.subrange(88, 120));
        },
        Some(level) => {
            let bytes = block.subrange(88, 120);
            assert(bytes.subrange(0, 3) =~= head.subrange(88, 91));
            assert(bytes.subrange(3, 32) =~= head.subrange(91, 120));
            level_survives(level, bytes);
        },
    }
}

/// The application-use field is written as it was read.
pub proof fn application_is_rebuilt(bytes: Seq<u8>, volume: VolumeModel, label: Seq<char>)
    requires
        bytes.len() == 512,
        volume.application_use == (match application_use_of(bytes) {
            Some(kind) => kind,
            None => PrimaryVolumeApplicationUse::CdXa001,
        }),
        volume.application_use_hex == (if application_use_of(bytes) is None {
            Some(hex_text(bytes))
        } else {
            None
        }),
    ensures
        application_field(volume, label) == Ok::<Seq<u8>, Failure>(bytes),
{
    reveal(application_field);
    reveal(application_use_of);
    hex_round_trip(bytes);
}

/// The used part of a reserved field is written as it was read.
pub proof fn reserved_is_rebuilt(bytes: Seq<u8>, volume: VolumeModel, label: Seq<char>)
    requires
        bytes.len() == 653,
        volume.reserved_hex == used_hex(bytes),
    ensures
        reserved_field(volume, label) is Ok,
        ({
            let kept = reserved_field(volume, label)->Ok_0;
            kept.len() <= 653 && kept + fill((653 - kept.len()) as nat, 0) == bytes
        }),
{
    reveal(reserved_field);
    reveal(used_hex);
    used_length_is_last(bytes, 0);
    let length = used_length(bytes, 0) as int;
    hex_round_trip(bytes.take(length));
    let kept = reserved_field(volume, label)->Ok_0;
    assert(kept + fill((653 - kept.len()) as nat, 0) =~= bytes);
}

/// Descriptors whose fields are the same, but for zeros at the end of the last, are
/// the same.
#[verifier::rlimit(60)]
#[verifier::spinoff_prover]
proof fn same_fields(left: DescriptorModel, right: DescriptorModel)
    requires
        left.fits(),
        right.fits(),
        left == (DescriptorModel { reserved: left.reserved, ..right }),
        left.reserved + fill((653 - left.reserved.len()) as nat, 0) == right.reserved + fill(
            (653 - right.reserved.len()) as nat,
            0,
        ),
    ensures
        descriptor_block(left) == descriptor_block(right),
{
    let first = left.reserved + fill((653 - left.reserved.len()) as nat, 0);
    let second = right.reserved + fill((653 - right.reserved.len()) as nat, 0);
    assert forall|i: int| 0 <= i < 2048 implies descriptor_block(left)[i] == descriptor_block(
        right,
    )[i] by {
        if i >= 1395 {
            assert(first[i - 1395] == second[i - 1395]);
        }
    }
    assert(descriptor_block(left) =~= descriptor_block(right));
}

/// The identifier of a root record is its last byte.
pub proof fn root_ends_with_name(volume: VolumeModel, place: PlaceModel, root: EntryModel)
    requires
        pvd_root(volume, place, root) is Ok,
    ensures
        pvd_root(volume, place, root)->Ok_0.len() == 34,
        pvd_root(volume, place, root)->Ok_0[33] == root_name(volume.root_directory_identifier)[0],
{
    reveal(root_record);
    reveal(recording_time_bytes);
    let record = pvd_root(volume, place, root)->Ok_0;
    assert(record[33] == root_name(volume.root_directory_identifier)[0]);
}

proof fn field_length(text: Seq<char>, length: int)
    ensures
        fixed_field(text, length) matches Ok(bytes) ==> bytes.len() == length,
{
    reveal(fixed_field);
}

proof fn time_length(text: Option<Seq<char>>)
    ensures
        volume_time_bytes(text) matches Ok(bytes) ==> bytes.len() == 17,
{
    reveal(volume_time_bytes);
}

proof fn application_length(volume: VolumeModel, label: Seq<char>)
    ensures
        application_field(volume, label) matches Ok(bytes) ==> bytes.len() == 512,
        reserved_field(volume, label) matches Ok(bytes) ==> bytes.len() <= 653,
{
    reveal(application_field);
    reveal(reserved_field);
}

/// The fields of a primary descriptor that can be written fit it.
pub proof fn pvd_fields_fit(volume: VolumeModel, place: PlaceModel, root: EntryModel)
    requires
        pvd_check(volume, place, root) is Ok,
        place.pointers.len() == 4,
    ensures
        pvd_fields(volume, place, root).fits(),
{
    root_ends_with_name(volume, place, root);
    application_length(volume, "primary-volume"@);
    field_length(volume.system_identifier, 32);
    field_length(volume.volume_identifier, 32);
    field_length(volume.volume_set_identifier, 128);
    field_length(volume.publisher_identifier, 128);
    field_length(volume.data_preparer_identifier, 128);
    field_length(volume.application_identifier, 128);
    field_length(volume.copyright_file_identifier, 37);
    field_length(volume.abstract_file_identifier, 37);
    field_length(volume.bibliographic_file_identifier, 37);
    time_length(volume.creation_time);
    time_length(volume.modification_time);
    time_length(volume.expiration_time);
    time_length(volume.effective_time);
}

/// The volume that a primary descriptor was read as, with what its root record was
/// found to say in place of the usual.
pub open spec fn read_back(block: Seq<u8>, volume: VolumeModel) -> VolumeModel {
    VolumeModel {
        root_directory_record_length: volume.root_directory_record_length,
        root_directory_recording_time: volume.root_directory_recording_time,
        ..parsed_volume(block, false)->Ok_0
    }
}

/// What a primary descriptor says of the image.
#[verifier::spinoff_prover]
proof fn place_parts(fields: DescriptorModel)
    requires
        fields.fits(),
    ensures
        ({
            let head = descriptor_head(fields);
            &&& head.subrange(0, 7) == descriptor_signature(fields.kind)
            &&& head[7] == fields.flags
            &&& head.subrange(80, 88) == both32(fields.volume_space_size)
            &&& head.subrange(132, 140) == both32(fields.path_table_size)
            &&& head.subrange(140, 144) == le32(fields.pointers[0])
            &&& head.subrange(144, 148) == le32(fields.pointers[1])
            &&& head.subrange(148, 152) == be32(fields.pointers[2])
            &&& head.subrange(152, 156) == be32(fields.pointers[3])
        }),
{
    let head = descriptor_head(fields);
    assert(head.subrange(0, 7) =~= descriptor_signature(fields.kind));
    assert(head.subrange(80, 88) =~= both32(fields.volume_space_size));
    assert(head.subrange(132, 140) =~= both32(fields.path_table_size));
    assert(head.subrange(140, 144) =~= le32(fields.pointers[0]));
    assert(head.subrange(144, 148) =~= le32(fields.pointers[1]));
    assert(head.subrange(148, 152) =~= be32(fields.pointers[2]));
    assert(head.subrange(152, 156) =~= be32(fields.pointers[3]));
}

/// Where the root record of a descriptor stands.
#[verifier::spinoff_prover]
pub proof fn root_part(fields: DescriptorModel)
    requires
        fields.fits(),
    ensures
        ({
            let block = descriptor_block(fields);
            &&& block.subrange(157, 190) == fields.root_record.subrange(1, 34)
            &&& block[156] == (match fields.root_record_length {
                Some(length) => length,
                None => fields.root_record[0],
            })
        }),
{
    let block = descriptor_block(fields);
    assert(block.subrange(157, 190) =~= fields.root_record.subrange(1, 34));
}

/// A primary descriptor says of the image what was written to it.
pub proof fn pvd_tells(volume: VolumeModel, place: PlaceModel, root: EntryModel, block: Seq<u8>)
    requires
        pvd_block(volume, place, root) == Ok::<Seq<u8>, Failure>(block),
        place.pointers.len() == 4,
    ensures
        block.len() == 2048,
        block.take(7) == descriptor_signature(1),
        read_both32(block, 80) == Ok::<u32, Failure>(place.volume_blocks),
        read_both32(block, 132) == Ok::<u32, Failure>(place.path_table_size),
        table_pointers(block) == place.pointers,
        pvd_root(volume, place, root) is Ok,
        pvd_root(volume, place, root)->Ok_0.len() == 34,
        block.subrange(157, 190) == pvd_root(volume, place, root)->Ok_0.subrange(1, 34),
        block[156] == (match volume.root_directory_record_length {
            Some(length) => length,
            None => pvd_root(volume, place, root)->Ok_0[0],
        }),
{
    let fields = pvd_fields(volume, place, root);
    pvd_fields_fit(volume, place, root);
    descriptor_length(fields);
    place_parts(fields);
    start_parts(fields);
    root_part(fields);
    assert(block.take(7) == block.subrange(0, 7));
    both32_round_trip(block, 80, place.volume_blocks);
    both32_round_trip(block, 132, place.path_table_size);
    le32_round_trip(place.pointers[0]);
    le32_round_trip(place.pointers[1]);
    be32_round_trip(place.pointers[2]);
    be32_round_trip(place.pointers[3]);
    assert(table_pointers(block) =~= place.pointers);
}

proof fn joliet_field_length(volume: JolietModel, text: Seq<char>, length: int, odd_byte: Option<u8>)
    requires
        length >= 0,
    ensures
        joliet_text_field(volume, text, length, odd_byte) matches Ok(bytes) ==> bytes.len()
            == length,
{
    reveal(joliet_field);
}

/// A field of odd length ends with its odd byte.
proof fn odd_byte_is_last(volume: JolietModel, text: Seq<char>, byte: u8)
    ensures
        joliet_text_field(volume, text, 37, Some(byte)) matches Ok(bytes) ==> bytes.len() == 37
            && bytes[36] == byte,
{
    reveal(joliet_field);
}

/// The fields of a Joliet descriptor that can be written fit it.
#[verifier::spinoff_prover]
pub proof fn svd_fields_fit(volume: JolietModel, place: PlaceModel)
    requires
        svd_check(volume, place) is Ok,
        place.pointers.len() == 4,
    ensures
        svd_fields(volume, place).fits(),
{
    reveal(root_record);
    reveal(recording_time_bytes);
    let descriptor = volume.descriptor;
    let odd = odd_bytes(volume)->Ok_0;
    application_length(descriptor, "Joliet"@);
    joliet_field_length(volume, descriptor.system_identifier, 32, None);
    joliet_field_length(volume, descriptor.volume_identifier, 32, None);
    joliet_field_length(volume, descriptor.volume_set_identifier, 128, None);
    joliet_field_length(volume, descriptor.publisher_identifier, 128, None);
    joliet_field_length(volume, descriptor.data_preparer_identifier, 128, None);
    joliet_field_length(volume, descriptor.application_identifier, 128, None);
    joliet_field_length(volume, descriptor.copyright_file_identifier, 37, Some(odd[0]));
    joliet_field_length(volume, descriptor.abstract_file_identifier, 37, Some(odd[1]));
    joliet_field_length(volume, descriptor.bibliographic_file_identifier, 37, Some(odd[2]));
    time_length(descriptor.creation_time);
    time_length(descriptor.modification_time);
    time_length(descriptor.expiration_time);
    time_length(descriptor.effective_time);
    assert(svd_root(volume, place)->Ok_0.len() == 34);
}

/// A Joliet descriptor says of the image what was written to it.
pub proof fn svd_tells(volume: JolietModel, place: PlaceModel, block: Seq<u8>)
    requires
        svd_block(volume, place) == Ok::<Seq<u8>, Failure>(block),
        place.pointers.len() == 4,
    ensures
        block.len() == 2048,
        block.take(7) == descriptor_signature(2),
        block[7] == volume.flags,
        odd_identifier_bytes(block) == odd_bytes(volume)->Ok_0,
        level_of(block.subrange(88, 120)) == Ok::<JolietLevel, Failure>(volume.level),
        read_both32(block, 132) == Ok::<u32, Failure>(place.path_table_size),
        table_pointers(block) == place.pointers,
        svd_root(volume, place) is Ok,
        svd_root(volume, place)->Ok_0.len() == 34,
        block.subrange(157, 190) == svd_root(volume, place)->Ok_0.subrange(1, 34),
        block[156] == (match volume.descriptor.root_directory_record_length {
            Some(length) => length,
            None => svd_root(volume, place)->Ok_0[0],
        }),
{
    let fields = svd_fields(volume, place);
    svd_fields_fit(volume, place);
    descriptor_length(fields);
    head_is_kept(fields);
    head_parts(fields);
    place_parts(fields);
    start_parts(fields);
    root_part(fields);
    tail_parts(fields);
    let head = descriptor_head(fields);
    let odd = odd_bytes(volume)->Ok_0;
    odd_byte_is_last(volume, volume.descriptor.copyright_file_identifier, odd[0]);
    odd_byte_is_last(volume, volume.descriptor.abstract_file_identifier, odd[1]);
    odd_byte_is_last(volume, volume.descriptor.bibliographic_file_identifier, odd[2]);
    assert(block[738] == block.subrange(702, 739)[36]);
    assert(block[775] == block.subrange(739, 776)[36]);
    assert(block[812] == block.subrange(776, 813)[36]);
    assert(odd_identifier_bytes(block) =~= odd);
    assert(block.take(7) == block.subrange(0, 7));
    let bytes = block.subrange(88, 120);
    assert(bytes == head.subrange(88, 120));
    assert(bytes.subrange(0, 3) =~= head.subrange(88, 91));
    assert(bytes.subrange(3, 32) =~= head.subrange(91, 120));
    level_survives(volume.level, bytes);
    both32_round_trip(block, 132, place.path_table_size);
    le32_round_trip(place.pointers[0]);
    le32_round_trip(place.pointers[1]);
    be32_round_trip(place.pointers[2]);
    be32_round_trip(place.pointers[3]);
    assert(table_pointers(block) =~= place.pointers);
}

/// A primary descriptor that was written is read.
#[verifier::rlimit(40)]
pub proof fn pvd_is_read(volume: VolumeModel, place: PlaceModel, root: EntryModel, block: Seq<u8>)
    requires
        pvd_block(volume, place, root) == Ok::<Seq<u8>, Failure>(block),
        place.pointers.len() == 4,
        place.volume_blocks > 0,
        volume.file_structure_version matches Some(version) ==> version <= 1,
    ensures
        parsed_volume(block, false) is Ok,
{
    let fields = pvd_fields(volume, place, root);
    pvd_fields_fit(volume, place, root);
    root_ends_with_name(volume, place, root);
    tail_parts(fields);
    head_parts(fields);
    start_parts(fields);
    header_is_read(fields);
    text_is_read(volume.system_identifier, block, 8, 32);
    text_is_read(volume.volume_identifier, block, 40, 32);
    text_is_read(volume.volume_set_identifier, block, 190, 128);
    text_is_read(volume.publisher_identifier, block, 318, 128);
    text_is_read(volume.data_preparer_identifier, block, 446, 128);
    text_is_read(volume.application_identifier, block, 574, 128);
    text_is_read(volume.copyright_file_identifier, block, 702, 37);
    text_is_read(volume.abstract_file_identifier, block, 739, 37);
    text_is_read(volume.bibliographic_file_identifier, block, 776, 37);
    assert(volume_check(block, false) is Ok);
}

/// A primary descriptor that was written is read, and what is read of it gives the
/// same descriptor again. A text that ends in NULs is written with spaces in their
/// place.
#[verifier::rlimit(40)]
pub proof fn pvd_is_rebuilt(volume: VolumeModel, place: PlaceModel, root: EntryModel, block: Seq<u8>)
    requires
        pvd_block(volume, place, root) == Ok::<Seq<u8>, Failure>(block),
        place.pointers.len() == 4,
        place.volume_blocks > 0,
        volume.file_structure_version matches Some(version) ==> version <= 1,
        texts_end_plainly(volume),
    ensures
        parsed_volume(block, false) is Ok,
        pvd_block(read_back(block, volume), place, root) == Ok::<Seq<u8>, Failure>(block),
        application_field(volume, "primary-volume"@) == Ok::<Seq<u8>, Failure>(
            block.subrange(883, 1395),
        ),
{
    let label = "primary-volume"@;
    let fields = pvd_fields(volume, place, root);
    pvd_fields_fit(volume, place, root);
    root_ends_with_name(volume, place, root);
    tail_parts(fields);
    head_parts(fields);
    start_parts(fields);
    header_is_read(fields);
    text_is_rebuilt(volume.system_identifier, block, 8, 32);
    text_is_rebuilt(volume.volume_identifier, block, 40, 32);
    text_is_rebuilt(volume.volume_set_identifier, block, 190, 128);
    text_is_rebuilt(volume.publisher_identifier, block, 318, 128);
    text_is_rebuilt(volume.data_preparer_identifier, block, 446, 128);
    text_is_rebuilt(volume.application_identifier, block, 574, 128);
    text_is_rebuilt(volume.copyright_file_identifier, block, 702, 37);
    text_is_rebuilt(volume.abstract_file_identifier, block, 739, 37);
    text_is_rebuilt(volume.bibliographic_file_identifier, block, 776, 37);
    assert(volume_check(block, false) is Ok);
    volume_time_survives(block.subrange(813, 830));
    volume_time_survives(block.subrange(830, 847));
    volume_time_survives(block.subrange(847, 864));
    volume_time_survives(block.subrange(864, 881));
    let read = read_back(block, volume);
    application_is_rebuilt(block.subrange(883, 1395), read, label);
    reserved_is_rebuilt(block.subrange(1395, 2048), read, label);
    assert(read.root_directory_identifier == volume.root_directory_identifier);
    assert(read.u16_encoding == volume.u16_encoding);
    assert(read.escape_sequence == volume.escape_sequence);
    assert(pvd_root(read, place, root) == pvd_root(volume, place, root));
    assert(pvd_check(read, place, root) is Ok);
    let again = pvd_fields(read, place, root);
    pvd_fields_fit(read, place, root);
    assert(again == (DescriptorModel { reserved: again.reserved, ..fields })) by {
        assert(again.system_identifier == fields.system_identifier);
        assert(again.volume_identifier == fields.volume_identifier);
        assert(again.volume_set_identifier == fields.volume_set_identifier);
        assert(again.publisher_identifier == fields.publisher_identifier);
        assert(again.data_preparer_identifier == fields.data_preparer_identifier);
        assert(again.application_identifier == fields.application_identifier);
        assert(again.copyright_file_identifier == fields.copyright_file_identifier);
        assert(again.abstract_file_identifier == fields.abstract_file_identifier);
        assert(again.bibliographic_file_identifier == fields.bibliographic_file_identifier);
        assert(again.creation_time == fields.creation_time);
        assert(again.modification_time == fields.modification_time);
        assert(again.expiration_time == fields.expiration_time);
        assert(again.effective_time == fields.effective_time);
        assert(again.application_use == fields.application_use);
        assert(again.root_record == fields.root_record);
        assert(again.file_structure_version == fields.file_structure_version);
    }
    same_fields(again, fields);
}

} // verus!
