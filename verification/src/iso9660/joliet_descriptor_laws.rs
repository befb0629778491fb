//! A Joliet descriptor that was written is read as it was.
use vstd::prelude::*;

use crate::bytes::{all_are, be16, field};
use crate::error::Failure;
use crate::iso9660::description::JolietModel;
use crate::iso9660::descriptor::{parsed_volume, text_field, volume_check};
use crate::iso9660::descriptor_laws::{
    head_parts, header_is_read, start_parts, svd_fields_fit, tail_parts,
};
use crate::iso9660::descriptor_write::{
    joliet_text_field, odd_bytes, root_name, root_record, svd_block, svd_fields, PlaceModel,
};
use crate::iso9660::joliet::{is_ucs2, joliet_field, joliet_padding, ucs2_bytes, ucs2_reads_back};
use crate::iso9660::joliet_parse_laws::told_joliet_descriptor;
use crate::iso9660::joliet_walk::{
    all_spaces, padding_with, stored_text, string_padding, PaddingModel,
};
use crate::iso9660::time::recording_time_bytes;
use crate::text::{trimmed, trimmed_length};

verus! {

/// Nothing is cut off a text.
pub open spec fn is_trimmed(text: Seq<char>) -> bool {
    trimmed_length(text) == text.len()
}

/// Nothing is cut off any text of a Joliet descriptor, and none is given as bytes.
pub open spec fn has_plain_texts(volume: JolietModel) -> bool {
    let descriptor = volume.descriptor;
    &&& volume.volume_set_identifier_raw_hex is None
    &&& is_trimmed(descriptor.system_identifier)
    &&& is_trimmed(descriptor.volume_identifier)
    &&& is_trimmed(descriptor.volume_set_identifier)
    &&& is_trimmed(descriptor.publisher_identifier)
    &&& is_trimmed(descriptor.data_preparer_identifier)
    &&& is_trimmed(descriptor.application_identifier)
    &&& is_trimmed(descriptor.copyright_file_identifier)
    &&& is_trimmed(descriptor.abstract_file_identifier)
    &&& is_trimmed(descriptor.bibliographic_file_identifier)
}

/// A text that is filled up with one character.
spec fn filled_up(text: Seq<char>, count: nat, character: char) -> Seq<char> {
    text + Seq::new(count, |i: int| character)
}

proof fn trimmed_of_filled(text: Seq<char>, count: nat, character: char)
    requires
        character == ' ' || character == '\0',
    ensures
        trimmed_length(filled_up(text, count, character)) == trimmed_length(text),
    decreases count,
{
    let filled = filled_up(text, count, character);
    if count == 0 {
        assert(filled =~= text);
    } else {
        trimmed_of_filled(text, (count - 1) as nat, character);
        assert(filled.last() == character);
        assert(filled.drop_last() =~= filled_up(text, (count - 1) as nat, character));
    }
}

/// Whether a text of a Joliet descriptor is filled up with zeros.
pub open spec fn is_filled_with_zeros(volume: JolietModel, text: Seq<char>) -> bool {
    if text.len() == 0 {
        volume.zero_fill_empty_strings
    } else {
        volume.zero_pad_strings
    }
}

/// The bytes of a field are those of its text, filled up.
proof fn field_is_filled(volume: JolietModel, text: Seq<char>, length: int, odd_byte: Option<u8>)
    requires
        length >= 0,
        joliet_text_field(volume, text, length, odd_byte) is Ok,
    ensures
        ({
            let bytes = joliet_text_field(volume, text, length, odd_byte)->Ok_0;
            let zero = is_filled_with_zeros(volume, text);
            &&& is_ucs2(text)
            &&& 2 * text.len() <= length / 2 * 2
            &&& bytes.len() == length
            &&& stored_text(text) == Ok::<Seq<u8>, Failure>(ucs2_bytes(text))
            &&& bytes.take(length / 2 * 2) == ucs2_bytes(text) + joliet_padding(
                length / 2 * 2 - 2 * text.len(),
                zero,
            )
        }),
{
    reveal(joliet_field);
    let bytes = joliet_text_field(volume, text, length, odd_byte)->Ok_0;
    if text.len() == 0 {
        assert(ucs2_bytes(text) =~= Seq::empty());
    }
    assert(bytes.take(length / 2 * 2) =~= ucs2_bytes(text) + joliet_padding(
        length / 2 * 2 - 2 * text.len(),
        is_filled_with_zeros(volume, text),
    ));
}

/// A text that was written to a field of a Joliet descriptor is read from it.
proof fn joliet_text_is_read(
    volume: JolietModel,
    text: Seq<char>,
    block: Seq<u8>,
    offset: int,
    length: int,
    odd_byte: Option<u8>,
)
    requires
        0 <= offset,
        0 <= length,
        offset + length <= block.len(),
        is_trimmed(text),
        joliet_text_field(volume, text, length, odd_byte) is Ok,
        block.subrange(offset, offset + length) == joliet_text_field(
            volume,
            text,
            length,
            odd_byte,
        )->Ok_0,
    ensures
        text_field(block, offset, length, true) == Ok::<Seq<char>, Failure>(text),
{
    reveal(text_field);
    field_is_filled(volume, text, length, odd_byte);
    let zero = is_filled_with_zeros(volume, text);
    let character = if zero {
        '\0'
    } else {
        ' '
    };
    let even = length / 2 * 2;
    let count = (length / 2 - text.len()) as nat;
    let filled = filled_up(text, count, character);
    let stored = joliet_text_field(volume, text, length, odd_byte)->Ok_0;
    assert(' ' as u32 == 32 && '\0' as u32 == 0);
    assert forall|i: int| 0 <= i < filled.len() implies (#[trigger] filled[i] as u32) <= 0xffff by {
        if i < text.len() {
            assert(filled[i] == text[i]);
        } else {
            assert(filled[i] == character);
        }
    }
    let part = field(block, offset, even);
    assert(be16(32u16) =~= seq![0u8, 32u8]) by {
        be16_parts(32);
    }
    assert(be16(0u16) =~= seq![0u8, 0u8]) by {
        be16_parts(0);
    }
    assert forall|i: int| 0 <= i < even implies part[i] == ucs2_bytes(filled)[i] by {
        assert(part[i] == stored[i]);
        assert(stored[i] == stored.take(even)[i]);
        if i < 2 * text.len() {
            assert(filled[i / 2] == text[i / 2]);
        } else {
            assert(filled[i / 2] == character);
            assert((i - 2 * text.len()) % 2 == i % 2);
        }
    }
    assert(part =~= ucs2_bytes(filled));
    ucs2_reads_back(filled, 0);
    assert(filled.take(0) =~= Seq::empty());
    trimmed_of_filled(text, count, character);
    assert(trimmed(filled) =~= text);
}

/// The bytes of a small number.
proof fn be16_parts(value: u16)
    requires
        value < 256,
    ensures
        be16(value) == seq![0u8, value as u8],
{
    assert(be16(value) =~= seq![0u8, value as u8]);
}

/// What is known of the padding agrees with how it is written.
pub open spec fn knows_padding(volume: JolietModel, known: PaddingModel) -> bool {
    &&& known.empty matches Some(zero) ==> zero == volume.zero_fill_empty_strings
    &&& known.rest matches Some(zero) ==> zero == volume.zero_pad_strings
    &&& known.raw is None
}

/// The padding of a field is told as it was written.
proof fn padding_is_told(
    volume: JolietModel,
    text: Seq<char>,
    block: Seq<u8>,
    offset: int,
    length: int,
    known: PaddingModel,
)
    requires
        0 <= offset,
        0 <= length,
        length % 2 == 0,
        offset + length <= block.len(),
        joliet_text_field(volume, text, length, None) is Ok,
        block.subrange(offset, offset + length) == joliet_text_field(
            volume,
            text,
            length,
            None,
        )->Ok_0,
        knows_padding(volume, known),
    ensures
        padding_with(block, known, offset, length, text) is Ok,
        knows_padding(volume, padding_with(block, known, offset, length, text)->Ok_0),
{
    field_is_filled(volume, text, length, None);
    let stored = joliet_text_field(volume, text, length, None)->Ok_0;
    let size = 2 * text.len() as int;
    let zero = is_filled_with_zeros(volume, text);
    assert(length / 2 * 2 == length);
    assert(stored.take(length) =~= stored);
    if size < length {
        let padding = block.subrange(offset + size, offset + length);
        let written = joliet_padding(length - size, zero);
        assert forall|i: int| 0 <= i < padding.len() implies #[trigger] padding[i]
            == written[i] by {
            assert(padding[i] == stored[size + i]);
        }
        if zero {
            assert(all_are(padding, 0));
        } else {
            assert(padding[1] == written[1]);
            assert(!all_are(padding, 0));
            assert forall|k: int| 0 <= k < padding.len() / 2 implies #[trigger] padding[2 * k] == 0
                && padding[2 * k + 1] == 32 by {
                assert(padding[2 * k] == written[2 * k]);
                assert(padding[2 * k + 1] == written[2 * k + 1]);
                assert((2 * k) % 2 == 0 && (2 * k + 1) % 2 == 1);
            }
            assert(all_spaces(padding));
        }
    }
}

/// A Joliet descriptor that was written is read, its texts as they were written and
/// their padding as it was asked for. Left out are texts that end in spaces or NULs,
/// which are cut off, and one that is given as bytes.
#[verifier::rlimit(40)]
pub proof fn svd_is_read(volume: JolietModel, place: PlaceModel, block: Seq<u8>)
    requires
        svd_block(volume, place) == Ok::<Seq<u8>, Failure>(block),
        place.pointers.len() == 4,
        place.volume_blocks > 0,
        volume.descriptor.volume_space_size != Some(0u32),
        volume.descriptor.file_structure_version matches Some(version) ==> version <= 1,
        has_plain_texts(volume),
    ensures
        ({
            let descriptor = volume.descriptor;
            let read = parsed_volume(block, true)->Ok_0;
            &&& parsed_volume(block, true) is Ok
            &&& read.u16_encoding == descriptor.u16_encoding
            &&& read.system_identifier == descriptor.system_identifier
            &&& read.volume_identifier == descriptor.volume_identifier
            &&& read.volume_set_identifier == descriptor.volume_set_identifier
            &&& read.publisher_identifier == descriptor.publisher_identifier
            &&& read.data_preparer_identifier == descriptor.data_preparer_identifier
            &&& read.application_identifier == descriptor.application_identifier
            &&& read.copyright_file_identifier == descriptor.copyright_file_identifier
            &&& read.abstract_file_identifier == descriptor.abstract_file_identifier
            &&& read.bibliographic_file_identifier == descriptor.bibliographic_file_identifier
        }),
        ({
            let told = told_joliet_descriptor(volume, block);
            &&& string_padding(block, told) is Ok
            &&& knows_padding(volume, string_padding(block, told)->Ok_0)
        }),
{
    reveal(root_record);
    reveal(recording_time_bytes);
    let descriptor = volume.descriptor;
    let fields = svd_fields(volume, place);
    let odd = odd_bytes(volume)->Ok_0;
    svd_fields_fit(volume, place);
    tail_parts(fields);
    head_parts(fields);
    start_parts(fields);
    assert(fields.root_record[33] == root_name(descriptor.root_directory_identifier)[0]);
    header_is_read(fields);
    joliet_text_is_read(volume, descriptor.system_identifier, block, 8, 32, None);
    joliet_text_is_read(volume, descriptor.volume_identifier, block, 40, 32, None);
    joliet_text_is_read(volume, descriptor.volume_set_identifier, block, 190, 128, None);
    joliet_text_is_read(volume, descriptor.publisher_identifier, block, 318, 128, None);
    joliet_text_is_read(volume, descriptor.data_preparer_identifier, block, 446, 128, None);
    joliet_text_is_read(volume, descriptor.application_identifier, block, 574, 128, None);
    joliet_text_is_read(volume, descriptor.copyright_file_identifier, block, 702, 37, Some(odd[0]));
    joliet_text_is_read(volume, descriptor.abstract_file_identifier, block, 739, 37, Some(odd[1]));
    joliet_text_is_read(
        volume,
        descriptor.bibliographic_file_identifier,
        block,
        776,
        37,
        Some(odd[2]),
    );
    assert(volume_check(block, true) is Ok);
    let none = PaddingModel { empty: None, rest: None, raw: None };
    padding_is_told(volume, descriptor.system_identifier, block, 8, 32, none);
    let first = padding_with(block, none, 8, 32, descriptor.system_identifier)->Ok_0;
    padding_is_told(volume, descriptor.volume_identifier, block, 40, 32, first);
    let second = padding_with(block, first, 40, 32, descriptor.volume_identifier)->Ok_0;
    padding_is_told(volume, descriptor.volume_set_identifier, block, 190, 128, second);
    let third = padding_with(block, second, 190, 128, descriptor.volume_set_identifier)->Ok_0;
    padding_is_told(volume, descriptor.publisher_identifier, block, 318, 128, third);
    let fourth = padding_with(block, third, 318, 128, descriptor.publisher_identifier)->Ok_0;
    padding_is_told(volume, descriptor.data_preparer_identifier, block, 446, 128, fourth);
    let fifth = padding_with(block, fourth, 446, 128, descriptor.data_preparer_identifier)->Ok_0;
    padding_is_told(volume, descriptor.application_identifier, block, 574, 128, fifth);
}

} // verus!
