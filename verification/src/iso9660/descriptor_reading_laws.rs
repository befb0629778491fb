//! A primary descriptor that was read is written with what it said.
use vstd::prelude::*;

use crate::bytes::{be16, bytes_of_u16, field};
use crate::error::Failure;
use crate::iso9660::description::{EntryModel, VolumeModel};
use crate::iso9660::descriptor::{escape_field, header_encoding, parsed_volume, text_field};
use crate::iso9660::descriptor_laws::{
    application_is_rebuilt, head_parts, pvd_fields_fit, reserved_is_rebuilt, root_ends_with_name,
    start_parts, tail_parts,
};
use crate::iso9660::descriptor_write::{
    descriptor_block, descriptor_head, pvd_block, pvd_check, pvd_fields, pvd_root, root_record,
    DescriptorModel, PlaceModel,
};
use crate::iso9660::fields::{fixed_field, u16_encoding_of};
use crate::iso9660::time::recording_time_bytes;
use crate::iso9660::time_laws::volume_time_survives;
use crate::manifest::{JolietLevel, PvdU16Encoding};
use crate::text::{trimmed, trimmed_length, trimmed_length_bound, utf8};

verus! {

/// Bytes are those of ASCII characters.
pub open spec fn are_ascii(bytes: Seq<u8>) -> bool {
    forall|i: int| 0 <= i < bytes.len() ==> #[trigger] bytes[i] < 128
}

/// A text field is written as it was, but that spaces stand for NULs at its end.
pub open spec fn is_text_rewritten(before: Seq<u8>, after: Seq<u8>) -> bool {
    &&& after.len() == before.len()
    &&& forall|i: int|
        0 <= i < before.len() ==> #[trigger] after[i] == before[i] || (before[i] == 0 && after[i]
            == 32)
}

/// What is cut off a text is spaces and NULs.
proof fn cut_is_blank(text: Seq<char>, index: int)
    requires
        trimmed_length(text) <= index < text.len(),
    ensures
        text[index] == ' ' || text[index] == '\0',
    decreases text.len(),
{
    if index < text.len() - 1 {
        cut_is_blank(text.drop_last(), index);
    }
}

/// A text of ASCII characters is read from its field, and written as it was.
proof fn text_is_rewritten(block: Seq<u8>, offset: int, length: int)
    requires
        0 <= offset,
        0 <= length,
        offset + length <= block.len(),
        are_ascii(block.subrange(offset, offset + length)),
    ensures
        text_field(block, offset, length, false) is Ok,
        ({
            let again = fixed_field(text_field(block, offset, length, false)->Ok_0, length);
            again is Ok && is_text_rewritten(block.subrange(offset, offset + length), again->Ok_0)
        }),
{
    reveal(text_field);
    reveal(fixed_field);
    let part = block.subrange(offset, offset + length);
    assert(field(block, offset, length) == part);
    let text = Seq::new(length as nat, |i: int| part[i] as char);
    assert(vstd::utf8::is_ascii_chars(text)) by {
        assert forall|i: int| 0 <= i < text.len() implies '\0' <= #[trigger] text[i] <= '\u{7f}' by {
            assert(part[i] < 128);
        }
    }
    vstd::utf8::is_ascii_chars_encode_utf8(text);
    assert forall|i: int| 0 <= i < length implies part[i] == utf8(text)[i] by {
        assert(part[i] < 128);
        assert(text[i] as u8 == utf8(text)[i]);
    }
    assert(part =~= utf8(text));
    vstd::utf8::encode_utf8_valid_utf8(text);
    vstd::utf8::encode_utf8_decode_utf8(text);
    let read = trimmed(text);
    trimmed_length_bound(text);
    assert(text_field(block, offset, length, false) == Ok::<Seq<char>, Failure>(read));
    assert(vstd::utf8::is_ascii_chars(read)) by {
        assert forall|i: int| 0 <= i < read.len() implies '\0' <= #[trigger] read[i] <= '\u{7f}' by {
            assert(read[i] == text[i]);
        }
    }
    vstd::utf8::is_ascii_chars_encode_utf8(read);
    let again = fixed_field(read, length)->Ok_0;
    assert forall|i: int| 0 <= i < length implies #[trigger] again[i] == part[i] || (part[i] == 0
        && again[i] == 32) by {
        assert(part[i] < 128);
        if i < read.len() {
            assert(read[i] == text[i]);
            assert(read[i] as u8 == utf8(read)[i]);
        } else {
            cut_is_blank(text, i);
            assert(text[i] as u8 == part[i]);
            assert(' ' as u8 == 32 && '\0' as u8 == 0);
        }
    }
}

/// The texts of a descriptor are of ASCII characters.
pub open spec fn has_ascii_texts(block: Seq<u8>) -> bool {
    are_ascii(block.subrange(8, 72)) && are_ascii(block.subrange(190, 813))
}

/// The bytes of a field that lies in others are ASCII where those are.
proof fn part_is_ascii(block: Seq<u8>, from: int, to: int, offset: int, length: int)
    requires
        0 <= from <= offset,
        0 <= length,
        offset + length <= to <= block.len(),
        are_ascii(block.subrange(from, to)),
    ensures
        are_ascii(block.subrange(offset, offset + length)),
{
    let part = block.subrange(offset, offset + length);
    assert forall|i: int| 0 <= i < part.len() implies #[trigger] part[i] < 128 by {
        assert(part[i] == block.subrange(from, to)[offset - from + i]);
    }
}

/// All texts of a descriptor are written as they were.
proof fn texts_are_rewritten(block: Seq<u8>)
    requires
        block.len() == 2048,
        has_ascii_texts(block),
    ensures
        forall|offset: int, length: int|
            is_text_field(offset, length) ==> {
                let again = fixed_field(
                    (#[trigger] text_field(block, offset, length, false))->Ok_0,
                    length,
                );
                &&& text_field(block, offset, length, false) is Ok
                &&& again is Ok
                &&& is_text_rewritten(block.subrange(offset, offset + length), again->Ok_0)
            },
{
    assert forall|offset: int, length: int| is_text_field(offset, length) implies {
        let again = fixed_field(
            (#[trigger] text_field(block, offset, length, false))->Ok_0,
            length,
        );
        &&& text_field(block, offset, length, false) is Ok
        &&& again is Ok
        &&& is_text_rewritten(block.subrange(offset, offset + length), again->Ok_0)
    } by {
        if offset < 190 {
            part_is_ascii(block, 8, 72, offset, length);
        } else {
            part_is_ascii(block, 190, 813, offset, length);
        }
        text_is_rewritten(block, offset, length);
    }
}

/// Where the texts of a descriptor stand.
pub open spec fn is_text_field(offset: int, length: int) -> bool {
    ||| length == 32 && (offset == 8 || offset == 40)
    ||| length == 128 && (offset == 190 || offset == 318 || offset == 446 || offset == 574)
    ||| length == 37 && (offset == 702 || offset == 739 || offset == 776)
}

/// What is read of a descriptor can be written.
proof fn read_volume_is_written(
    block: Seq<u8>,
    volume: VolumeModel,
    place: PlaceModel,
    root: EntryModel,
)
    requires
        block.len() == 2048,
        parsed_volume(block, false) == Ok::<VolumeModel, Failure>(volume),
        has_ascii_texts(block),
        recording_time_bytes(root.recording_time) is Ok,
    ensures
        pvd_check(volume, place, root) is Ok,
{
    let label = "primary-volume"@;
    texts_are_rewritten(block);
    assert(is_text_field(8, 32) && is_text_field(40, 32) && is_text_field(190, 128)
        && is_text_field(318, 128) && is_text_field(446, 128) && is_text_field(574, 128)
        && is_text_field(702, 37) && is_text_field(739, 37) && is_text_field(776, 37));
    volume_time_survives(block.subrange(813, 830));
    volume_time_survives(block.subrange(830, 847));
    volume_time_survives(block.subrange(847, 864));
    volume_time_survives(block.subrange(864, 881));
    application_is_rebuilt(block.subrange(883, 1395), volume, label);
    reserved_is_rebuilt(block.subrange(1395, 2048), volume, label);
    assert(pvd_root(volume, place, root) is Ok) by {
        reveal(root_record);
        reveal(recording_time_bytes);
    }
}

/// The 16-bit fields of a descriptor are written as they were.
proof fn small_fields_are_rewritten(block: Seq<u8>, written: Seq<u8>, fields: DescriptorModel)
    requires
        block.len() == 2048,
        header_encoding(block) == Ok::<PvdU16Encoding, Failure>(fields.u16_encoding),
        fields.fits(),
        written == descriptor_block(fields),
    ensures
        written.subrange(120, 132) == block.subrange(120, 132),
{
    reveal(header_encoding);
    head_parts(fields);
    start_parts(fields);
    let head = descriptor_head(fields);
    assert(u16_encoding_of(block) == Ok::<PvdU16Encoding, Failure>(fields.u16_encoding));
    bytes_of_u16(field(block, 120, 2));
    bytes_of_u16(field(block, 124, 2));
    bytes_of_u16(field(block, 128, 2));
    bytes_of_u16(field(block, 122, 2));
    bytes_of_u16(field(block, 126, 2));
    bytes_of_u16(field(block, 130, 2));
    assert(be16(1) =~= seq![0u8, 1u8] && be16(2048) =~= seq![8u8, 0u8]);
    assert forall|i: int| 120 <= i < 132 implies written[i] == block[i] by {
        assert(written.subrange(0, 156)[i] == head.subrange(0, 156)[i]);
        if i < 122 {
            assert(head[i] == head.subrange(120, 122)[i - 120]);
            assert(block[i] == field(block, 120, 2)[i - 120]);
        } else if i < 124 {
            assert(block[i] == field(block, 122, 2)[i - 122]);
        } else if i < 126 {
            assert(head[i] == head.subrange(124, 126)[i - 124]);
            assert(block[i] == field(block, 124, 2)[i - 124]);
        } else if i < 128 {
            assert(block[i] == field(block, 126, 2)[i - 126]);
        } else if i < 130 {
            assert(head[i] == head.subrange(128, 130)[i - 128]);
            assert(block[i] == field(block, 128, 2)[i - 128]);
        } else {
            assert(block[i] == field(block, 130, 2)[i - 130]);
        }
    }
    assert(written.subrange(120, 132) =~= block.subrange(120, 132));
}

/// The escape sequence of a descriptor is written as it was.
proof fn escape_is_rewritten(block: Seq<u8>, written: Seq<u8>, fields: DescriptorModel)
    requires
        block.len() == 2048,
        escape_field(block, false) == Ok::<Option<JolietLevel>, Failure>(
            fields.escape_sequence,
        ),
        fields.fits(),
        written == descriptor_block(fields),
    ensures
        written.subrange(88, 120) == block.subrange(88, 120),
{
    head_parts(fields);
    start_parts(fields);
    let head = descriptor_head(fields);
    let before = block.subrange(88, 120);
    let after = written.subrange(88, 120);
    assert(after == head.subrange(88, 120));
    match fields.escape_sequence {
        None => {
            assert(after =~= before);
        },
        Some(level) => {
            assert forall|i: int| 0 <= i < 32 implies after[i] == before[i] by {
                if i < 3 {
                    assert(head.subrange(88, 91)[i] == after[i]);
                } else {
                    assert(head.subrange(91, 120)[i - 3] == after[i]);
                    assert(before.subrange(3, 32)[i - 3] == before[i]);
                }
            }
            assert(after =~= before);
        },
    }
}

/// A primary descriptor that was read is written with what it said: its escape sequence,
/// its 16-bit fields, its times, its version, its application-use and its reserved bytes
/// are what they were, and so are its texts but that spaces stand for NULs at their ends.
/// Left out are texts that are not of ASCII characters, which are not written.
pub proof fn read_descriptor_is_written(
    block: Seq<u8>,
    volume: VolumeModel,
    place: PlaceModel,
    root: EntryModel,
)
    requires
        block.len() == 2048,
        parsed_volume(block, false) == Ok::<VolumeModel, Failure>(volume),
        place.pointers.len() == 4,
        has_ascii_texts(block),
        recording_time_bytes(root.recording_time) is Ok,
    ensures
        ({
            let written = pvd_block(volume, place, root)->Ok_0;
            &&& pvd_block(volume, place, root) is Ok
            &&& written.len() == 2048
            &&& written.subrange(88, 120) == block.subrange(88, 120)
            &&& written.subrange(120, 132) == block.subrange(120, 132)
            &&& written.subrange(813, 881) == block.subrange(813, 881)
            &&& written[881] == block[881]
            &&& written.subrange(883, 1395) == block.subrange(883, 1395)
            &&& written.subrange(1395, 2048) == block.subrange(1395, 2048)
            &&& written[189] == block[189]
            &&& forall|offset: int, length: int| #[trigger]
                is_text_field(offset, length) ==> is_text_rewritten(
                    block.subrange(offset, offset + length),
                    written.subrange(offset, offset + length),
                )
        }),
{
    let label = "primary-volume"@;
    read_volume_is_written(block, volume, place, root);
    pvd_fields_fit(volume, place, root);
    let fields = pvd_fields(volume, place, root);
    let written = pvd_block(volume, place, root)->Ok_0;
    tail_parts(fields);
    head_parts(fields);
    start_parts(fields);
    small_fields_are_rewritten(block, written, fields);
    escape_is_rewritten(block, written, fields);
    volume_time_survives(block.subrange(813, 830));
    volume_time_survives(block.subrange(830, 847));
    volume_time_survives(block.subrange(847, 864));
    volume_time_survives(block.subrange(864, 881));
    assert(written.subrange(813, 881) =~= written.subrange(813, 830) + written.subrange(830, 847)
        + written.subrange(847, 864) + written.subrange(864, 881));
    assert(block.subrange(813, 881) =~= block.subrange(813, 830) + block.subrange(830, 847)
        + block.subrange(847, 864) + block.subrange(864, 881));
    application_is_rebuilt(block.subrange(883, 1395), volume, label);
    reserved_is_rebuilt(block.subrange(1395, 2048), volume, label);
    root_ends_with_name(volume, place, root);
    assert(block[881] <= 1 && block[189] <= 1) by {
        reveal(header_encoding);
    }
    texts_are_rewritten(block);
    assert forall|offset: int, length: int| #[trigger] is_text_field(offset, length) implies
        is_text_rewritten(
        block.subrange(offset, offset + length),
        written.subrange(offset, offset + length),
    ) by {
        assert(text_field(block, offset, length, false) is Ok);
    }
}

} // verus!
