//! What the structures of a filesystem are written as, byte by byte.
use vstd::prelude::*;

use crate::bytes::{be16, be32, be32_spells, le16, le32, le32_spells, u16_spells};
use crate::error::Failure;
use crate::iso9660::description::{EntryModel, EntryXaModel, JolietModel, VolumeModel};
use crate::iso9660::descriptor::application_use_bytes;
use crate::iso9660::descriptor_laws::{
    head_is_kept, head_parts, pvd_fields_fit, root_part, svd_fields_fit, tail_parts,
};
use crate::iso9660::descriptor_write::{
    descriptor_block, descriptor_head, joliet_text_field, odd_bytes, pvd_block, pvd_fields,
    record_flags, root_name, root_record, root_time, svd_block, svd_fields, DescriptorModel,
    PlaceModel,
};
use crate::iso9660::fields::{both32, fixed_field};
use crate::iso9660::joliet::joliet_field;
use crate::iso9660::record::{record_bytes, record_layout, xa_bytes, RecordModel};
use crate::iso9660::time::{recording_time_bytes, volume_time_bytes};
use crate::iso9660::description::RootDirectoryIdentifier;
use crate::manifest::{JolietLevel, PrimaryVolumeApplicationUse, PvdU16Encoding};
use crate::text::utf8;

verus! {

/// Four bytes from a place on spell an integer in base 256, the least significant one first.
pub open spec fn spells_up(bytes: Seq<u8>, at: int, value: u32) -> bool {
    bytes[at] + bytes[at + 1] * 256 + bytes[at + 2] * 65536 + bytes[at + 3] * 16777216 == value
}

/// Four bytes from a place on spell an integer in base 256, the most significant one first.
pub open spec fn spells_down(bytes: Seq<u8>, at: int, value: u32) -> bool {
    bytes[at] * 16777216 + bytes[at + 1] * 65536 + bytes[at + 2] * 256 + bytes[at + 3] == value
}

/// A directory record is written as its size, the extent and the length in both byte
/// orders, the time, the flags, two sizes, the number of the volume in both byte orders,
/// and then the identifier and the system-use data; an identifier of an even length is
/// followed by a zero byte, or the system-use data is. A record over 255 bytes is refused.
pub proof fn record_is_spelled(record: RecordModel)
    requires
        record.recording_time.len() == 7,
    ensures
        ({
            let name = record.name.len() as int;
            let use_length = record.system_use.len() as int;
            let size = 33 + name + (1 - name % 2) + use_length;
            &&& record_bytes(record) is Ok <==> size <= 255
            &&& record_bytes(record) matches Ok(bytes) ==> {
                &&& bytes.len() == size
                &&& bytes[0] == size
                &&& bytes[1] == 0
                &&& spells_up(bytes, 2, record.extent)
                &&& spells_down(bytes, 6, record.extent)
                &&& spells_up(bytes, 10, record.length)
                &&& spells_down(bytes, 14, record.length)
                &&& forall|i: int| 0 <= i < 7 ==> bytes[18 + i] == record.recording_time[i]
                &&& bytes[25] == record.flags
                &&& bytes[26] == record.file_unit_size
                &&& bytes[27] == record.interleave_gap_size
                &&& bytes[28] + bytes[29] * 256 == record.volume_sequence_number
                &&& bytes[30] * 256 + bytes[31] == record.volume_sequence_number
                &&& bytes[32] == name
                &&& forall|i: int| 0 <= i < name ==> bytes[33 + i] == record.name[i]
                &&& name % 2 == 1 ==> forall|i: int|
                    0 <= i < use_length ==> bytes[33 + name + i] == record.system_use[i]
                &&& name % 2 == 0 && !record.trailing_system_use_padding ==> bytes[33 + name] == 0
                    && forall|i: int|
                    0 <= i < use_length ==> bytes[34 + name + i] == record.system_use[i]
                &&& name % 2 == 0 && record.trailing_system_use_padding ==> bytes[33 + name
                    + use_length] == 0 && forall|i: int|
                    0 <= i < use_length ==> bytes[33 + name + i] == record.system_use[i]
            }
        }),
{
    if record_bytes(record) is Ok {
        let bytes = record_layout(record);
        le32_spells(record.extent);
        be32_spells(record.extent);
        le32_spells(record.length);
        be32_spells(record.length);
        u16_spells(record.volume_sequence_number);
        assert(bytes[2] == le32(record.extent)[0] && bytes[3] == le32(record.extent)[1] && bytes[4]
            == le32(record.extent)[2] && bytes[5] == le32(record.extent)[3]);
        assert(bytes[6] == be32(record.extent)[0] && bytes[7] == be32(record.extent)[1] && bytes[8]
            == be32(record.extent)[2] && bytes[9] == be32(record.extent)[3]);
        assert(bytes[10] == le32(record.length)[0] && bytes[11] == le32(record.length)[1]
            && bytes[12] == le32(record.length)[2] && bytes[13] == le32(record.length)[3]);
        assert(bytes[14] == be32(record.length)[0] && bytes[15] == be32(record.length)[1]
            && bytes[16] == be32(record.length)[2] && bytes[17] == be32(record.length)[3]);
        assert(bytes[28] == le16(record.volume_sequence_number)[0] && bytes[29] == le16(
            record.volume_sequence_number,
        )[1]);
        assert(bytes[30] == be16(record.volume_sequence_number)[0] && bytes[31] == be16(
            record.volume_sequence_number,
        )[1]);
    }
}

/// The flags of a record: 1 where it is hidden, 2 where it is a directory's, 4 where it is
/// an associated file's.
pub proof fn flags_are_added(directory: bool, hidden: bool, associated: bool)
    ensures
        record_flags(directory, hidden, associated) % 2 == 1 <==> hidden,
        record_flags(directory, hidden, associated) / 2 % 2 == 1 <==> directory,
        record_flags(directory, hidden, associated) / 4 == 1 <==> associated,
        record_flags(directory, hidden, associated) < 8,
{
}

/// The system-use data of an entry is fourteen bytes: the group, the user and the attributes
/// with the permissions, each the most significant byte first, the letters `XA`, the number
/// of the file, and five zero bytes.
pub proof fn system_use_is_spelled(path: Seq<char>, xa: Option<EntryXaModel>, directory: bool)
    ensures
        xa_bytes(path, xa, directory) matches Ok(bytes) ==> {
            &&& bytes.len() == 14
            &&& bytes[0] * 256 + bytes[1] == (match xa {
                Some(xa) => xa.group_id,
                None => 0,
            })
            &&& bytes[2] * 256 + bytes[3] == (match xa {
                Some(xa) => xa.user_id,
                None => 0,
            })
            &&& bytes[4] * 256 + bytes[5] == (match xa {
                Some(xa) => xa.permissions | (match xa.attributes {
                    Some(attributes) => attributes.0,
                    None => if directory {
                        0x8800
                    } else {
                        0x0800
                    },
                }),
                None => if directory {
                    0x8d55
                } else {
                    0x0d55
                },
            })
            &&& bytes[6] as char == 'X'
            &&& bytes[7] as char == 'A'
            &&& bytes[8] == (match xa {
                Some(xa) => xa.file_number,
                None => 0,
            })
            &&& forall|i: int| 9 <= i < 14 ==> bytes[i] == 0
        },
{
    if let Ok(bytes) = xa_bytes(path, xa, directory) {
        let (group_id, user_id) = match xa {
            Some(xa) => (xa.group_id, xa.user_id),
            None => (0u16, 0u16),
        };
        let fallback = if directory {
            0x8800u16
        } else {
            0x0800u16
        };
        assert(0x0555u16 | 0x8800u16 == 0x8d55u16 && 0x0555u16 | 0x0800u16 == 0x0d55u16)
            by (bit_vector);
        let both = match xa {
            Some(xa) => xa.permissions | (match xa.attributes {
                Some(attributes) => attributes.0,
                None => fallback,
            }),
            None => 0x0555u16 | fallback,
        };
        u16_spells(group_id);
        u16_spells(user_id);
        u16_spells(both);
        assert(bytes[0] == be16(group_id)[0] && bytes[1] == be16(group_id)[1]);
        assert(bytes[2] == be16(user_id)[0] && bytes[3] == be16(user_id)[1]);
        assert(bytes[4] == be16(both)[0] && bytes[5] == be16(both)[1]);
    }
}

/// A text is written to a fixed field as its characters and spaces behind them; it is
/// refused exactly when it is too long or has a character that is not ASCII.
pub proof fn fixed_text_is_spelled(text: Seq<char>, length: int)
    requires
        length >= 0,
    ensures
        fixed_field(text, length) is Ok <==> text.len() <= length && forall|i: int|
            0 <= i < text.len() ==> (#[trigger] text[i] as int) < 128,
        fixed_field(text, length) matches Ok(bytes) ==> bytes.len() == length && (forall|i: int|
            0 <= i < text.len() ==> #[trigger] bytes[i] as int == text[i] as int) && (forall|
            i: int,
        |
            text.len() <= i < length ==> #[trigger] bytes[i] == 32),
{
    reveal(fixed_field);
    if vstd::utf8::is_ascii_chars(text) {
        vstd::utf8::is_ascii_chars_encode_utf8(text);
        assert forall|i: int| 0 <= i < text.len() implies (#[trigger] text[i] as int) < 128
            && utf8(text)[i] as int == text[i] as int by {
            assert(text[i] as u8 == utf8(text)[i]);
            assert('\0' <= text[i] <= '\u{7f}');
        }
    } else {
        let i = choose|i: int|
            0 <= i < text.len() && !('\0' <= #[trigger] text[i] <= '\u{7f}');
        assert(!((text[i] as int) < 128)) by {
            let character = text[i];
            is_not_ascii(character);
        }
    }
}

proof fn is_not_ascii(character: char)
    ensures
        0 <= character as int,
        !('\0' <= character <= '\u{7f}') ==> !((character as int) < 128),
{
}

/// A text is written to a fixed Joliet field as its characters, two bytes each and the most
/// significant one first, and behind them characters that are spaces or zeros, and where
/// the field has an odd length one byte more. It is refused exactly when it is too long, or
/// one of its characters takes more than two bytes, or a byte is given for a field of an
/// even length.
pub proof fn joliet_text_is_spelled(
    text: Seq<char>,
    length: int,
    zero_fill_empty: bool,
    zero_pad: bool,
    odd_byte: Option<u8>,
)
    requires
        0 <= length <= 128,
    ensures
        ({
            let field = joliet_field(text, length, zero_fill_empty, zero_pad, odd_byte);
            let filler: int = if text.len() == 0 && zero_fill_empty || text.len() > 0 && zero_pad {
                0
            } else {
                32
            };
            &&& field is Ok <==> 2 * text.len() <= length && (forall|i: int|
                0 <= i < text.len() ==> (#[trigger] text[i] as int) < 65536) && (length % 2 == 1
                || odd_byte is None)
            &&& field matches Ok(bytes) ==> {
                &&& bytes.len() == length
                &&& forall|i: int|
                    0 <= i < text.len() ==> bytes[2 * i] * 256 + bytes[2 * i + 1] == (
                    #[trigger] text[i]) as int
                &&& forall|i: int|
                    text.len() <= i < length / 2 ==> #[trigger] bytes[2 * i] * 256 + bytes[2 * i
                        + 1] == filler
                &&& length % 2 == 1 ==> bytes[length - 1] == (match odd_byte {
                    Some(byte) => byte as int,
                    None => 0,
                })
            }
        }),
{
    reveal(joliet_field);
    assert forall|i: int| 0 <= i < text.len() implies 0 <= (#[trigger] text[i]) as int && text[i] as u32
        == text[i] as int by {
        is_not_ascii(text[i]);
        fits_word(text[i]);
    }
    let field = joliet_field(text, length, zero_fill_empty, zero_pad, odd_byte);
    if let Ok(bytes) = field {
        assert forall|i: int| 0 <= i < text.len() implies bytes[2 * i] * 256 + bytes[2 * i + 1] == (
        #[trigger] text[i]) as int by {
            let unit = (text[i] as u32) as u16;
            fits_word(text[i]);
            u16_spells(unit);
            assert((2 * i) / 2 == i && (2 * i) % 2 == 0);
            assert((2 * i + 1) / 2 == i && (2 * i + 1) % 2 == 1);
            assert(bytes[2 * i] == be16(unit)[0]);
            assert(bytes[2 * i + 1] == be16(unit)[1]);
        }
        assert forall|i: int| text.len() <= i < length / 2 implies #[trigger] bytes[2 * i] * 256
            + bytes[2 * i + 1] == (if text.len() == 0 && zero_fill_empty || text.len() > 0
            && zero_pad {
            0
        } else {
            32int
        }) by {
            let at = 2 * i - 2 * text.len();
            assert(at % 2 == 0 && (at + 1) % 2 == 1);
        }
    }
}

proof fn fits_word(character: char)
    ensures
        character as u32 == character as int,
        (character as int) < 65536 ==> (character as u32) as u16 == character as int,
{
}

/// The first bytes of a descriptor: its kind, the letters `CD001`, the version 1, its flags,
/// and up to the root record the size of the volume in both byte orders, the escape sequence
/// of a Joliet level, the numbers of the volume set and the volume and the size of a block,
/// the size of the path tables, and where they lie: two least significant byte first, two
/// most significant byte first.
pub proof fn head_is_spelled(fields: DescriptorModel)
    requires
        fields.fits(),
    ensures
        ({
            let block = descriptor_block(fields);
            &&& block.len() == 2048
            &&& block[0] == fields.kind
            &&& block[1] as char == 'C' && block[2] as char == 'D' && block[3] as char == '0'
                && block[4] as char == '0' && block[5] as char == '1'
            &&& block[6] == 1
            &&& block[7] == fields.flags
            &&& forall|i: int| 72 <= i < 80 ==> block[i] == 0
            &&& spells_up(block, 80, fields.volume_space_size)
            &&& spells_down(block, 84, fields.volume_space_size)
            &&& match fields.escape_sequence {
                None => block[88] == 0 && block[89] == 0 && block[90] == 0,
                Some(level) => block[88] as char == '%' && block[89] as char == '/'
                    && block[90] as char == (match level {
                    JolietLevel::Level1 => '@',
                    JolietLevel::Level2 => 'C',
                    JolietLevel::Level3 => 'E',
                }),
            }
            &&& forall|i: int| 91 <= i < 120 ==> block[i] == 0
            &&& block[120] == 1 && block[121] == 0 && block[124] == 1 && block[125] == 0
            &&& block[128] == 0 && block[129] == 8
            &&& if fields.u16_encoding == PvdU16Encoding::BothEndian {
                block[122] == 0 && block[123] == 1 && block[126] == 0 && block[127] == 1
                    && block[130] == 8 && block[131] == 0
            } else {
                block[122] == 0 && block[123] == 0 && block[126] == 0 && block[127] == 0
                    && block[130] == 0 && block[131] == 0
            }
            &&& spells_up(block, 132, fields.path_table_size)
            &&& spells_down(block, 136, fields.path_table_size)
            &&& spells_up(block, 140, fields.pointers[0])
            &&& spells_up(block, 144, fields.pointers[1])
            &&& spells_down(block, 148, fields.pointers[2])
            &&& spells_down(block, 152, fields.pointers[3])
        }),
{
    let block = descriptor_block(fields);
    let head = descriptor_head(fields);
    head_is_kept(fields);
    head_parts(fields);
    tail_parts(fields);
    head_pointers_are_spelled(fields);
    le32_spells(fields.volume_space_size);
    be32_spells(fields.volume_space_size);
    assert forall|i: int| 0 <= i < 8 implies head[80 + i] == both32(fields.volume_space_size)[i] by {
        assert(head.subrange(80, 88)[i] == head[80 + i]);
    }
    assert(head[80] == both32(fields.volume_space_size)[0] && head[81] == both32(
        fields.volume_space_size,
    )[1] && head[82] == both32(fields.volume_space_size)[2] && head[83] == both32(
        fields.volume_space_size,
    )[3] && head[84] == both32(fields.volume_space_size)[4] && head[85] == both32(
        fields.volume_space_size,
    )[5] && head[86] == both32(fields.volume_space_size)[6] && head[87] == both32(
        fields.volume_space_size,
    )[7]) by {
        assert(head.subrange(80, 88)[0] == head[80]);
        assert(head.subrange(80, 88)[1] == head[81]);
        assert(head.subrange(80, 88)[2] == head[82]);
        assert(head.subrange(80, 88)[3] == head[83]);
        assert(head.subrange(80, 88)[4] == head[84]);
        assert(head.subrange(80, 88)[5] == head[85]);
        assert(head.subrange(80, 88)[6] == head[86]);
        assert(head.subrange(80, 88)[7] == head[87]);
    }
    assert(head.subrange(120, 122)[0] == head[120] && head.subrange(120, 122)[1] == head[121]);
    assert(head.subrange(124, 126)[0] == head[124] && head.subrange(124, 126)[1] == head[125]);
    assert(head.subrange(128, 130)[0] == head[128] && head.subrange(128, 130)[1] == head[129]);
    match fields.escape_sequence {
        None => {
            assert(head.subrange(88, 120)[0] == head[88] && head.subrange(88, 120)[1] == head[89]
                && head.subrange(88, 120)[2] == head[90]);
            assert forall|i: int| 91 <= i < 120 implies head[i] == 0 by {
                assert(head.subrange(88, 120)[i - 88] == head[i]);
            }
        },
        Some(level) => {
            assert(head.subrange(88, 91)[0] == head[88] && head.subrange(88, 91)[1] == head[89]
                && head.subrange(88, 91)[2] == head[90]);
            assert forall|i: int| 91 <= i < 120 implies head[i] == 0 by {
                assert(head.subrange(91, 120)[i - 91] == head[i]);
            }
        },
    }
}

#[verifier::spinoff_prover]
proof fn head_pointers_are_spelled(fields: DescriptorModel)
    requires
        fields.fits(),
    ensures
        ({
            let head = descriptor_head(fields);
            &&& head[0] == fields.kind
            &&& head[1] == 67 && head[2] == 68 && head[3] == 48 && head[4] == 48 && head[5] == 49
            &&& head[6] == 1
            &&& head[7] == fields.flags
            &&& forall|i: int| 72 <= i < 80 ==> head[i] == 0
            &&& spells_up(head, 132, fields.path_table_size)
            &&& spells_down(head, 136, fields.path_table_size)
            &&& spells_up(head, 140, fields.pointers[0])
            &&& spells_up(head, 144, fields.pointers[1])
            &&& spells_down(head, 148, fields.pointers[2])
            &&& spells_down(head, 152, fields.pointers[3])
        }),
{
    le32_spells(fields.path_table_size);
    be32_spells(fields.path_table_size);
    le32_spells(fields.pointers[0]);
    le32_spells(fields.pointers[1]);
    be32_spells(fields.pointers[2]);
    be32_spells(fields.pointers[3]);
}

/// A text stands in a field: its characters from a place on, and spaces behind them.
pub open spec fn text_stands(block: Seq<u8>, at: int, length: int, text: Seq<char>) -> bool {
    &&& text.len() <= length
    &&& forall|i: int| 0 <= i < text.len() ==> block[at + i] as int == (#[trigger] text[i]) as int
    &&& forall|i: int| at + text.len() <= i < at + length ==> #[trigger] block[i] == 32
}

/// A text stands in a Joliet field: its characters from a place on, the most significant
/// byte of each first.
pub open spec fn wide_text_stands(block: Seq<u8>, at: int, length: int, text: Seq<char>) -> bool {
    &&& 2 * text.len() <= length
    &&& forall|i: int|
        0 <= i < text.len() ==> block[at + 2 * i] * 256 + block[at + 2 * i + 1] == (
        #[trigger] text[i]) as int
}

proof fn field_holds_text(block: Seq<u8>, at: int, length: int, text: Seq<char>)
    requires
        0 <= at,
        0 <= length,
        at + length <= block.len(),
        fixed_field(text, length) == Ok::<Seq<u8>, Failure>(block.subrange(at, at + length)),
    ensures
        text_stands(block, at, length, text),
{
    fixed_text_is_spelled(text, length);
    let part = block.subrange(at, at + length);
    assert forall|i: int| 0 <= i < text.len() implies block[at + i] as int == (
    #[trigger] text[i]) as int by {
        assert(part[i] as int == text[i] as int);
    }
    assert forall|i: int| at + text.len() <= i < at + length implies #[trigger] block[i] == 32 by {
        assert(part[i - at] == 32);
    }
}

proof fn field_holds_wide_text(
    volume: JolietModel,
    block: Seq<u8>,
    at: int,
    length: int,
    text: Seq<char>,
    odd_byte: Option<u8>,
)
    requires
        0 <= at,
        0 <= length <= 128,
        at + length <= block.len(),
        joliet_text_field(volume, text, length, odd_byte) == Ok::<Seq<u8>, Failure>(
            block.subrange(at, at + length),
        ),
    ensures
        wide_text_stands(block, at, length, text),
{
    let part = block.subrange(at, at + length);
    joliet_text_is_spelled(
        text,
        length,
        volume.zero_fill_empty_strings,
        volume.zero_pad_strings,
        odd_byte,
    );
    assert forall|i: int| 0 <= i < text.len() implies block[at + 2 * i] * 256 + block[at + 2 * i
        + 1] == (#[trigger] text[i]) as int by {
        assert(part[2 * i] * 256 + part[2 * i + 1] == text[i] as int);
        assert(part[2 * i] == block[at + 2 * i] && part[2 * i + 1] == block[at + 2 * i + 1]);
    }
}

/// The root record of a descriptor stands at byte 156: its extent and its length in both
/// byte orders, its flags, and a name of one byte that is 0, or 1 where the descriptor names
/// the root as a parent.
pub open spec fn root_stands(
    block: Seq<u8>,
    place: PlaceModel,
    volume: VolumeModel,
    hidden: bool,
    associated: bool,
) -> bool {
    &&& block[156] == (match volume.root_directory_record_length {
        Some(length) => length,
        None => 34,
    })
    &&& block[157] == 0
    &&& spells_up(block, 158, place.root_extent)
    &&& spells_down(block, 162, place.root_extent)
    &&& spells_up(block, 166, place.root_length)
    &&& spells_down(block, 170, place.root_length)
    &&& block[181] == 2 + (if hidden {
        1int
    } else {
        0
    }) + (if associated {
        4int
    } else {
        0
    })
    &&& block[182] == 0 && block[183] == 0
    &&& block[184] == 1 && block[185] == 0 && block[186] == 0 && block[187] == 1
    &&& block[188] == 1
    &&& block[189] == (match volume.root_directory_identifier {
        RootDirectoryIdentifier::Current => 0int,
        RootDirectoryIdentifier::Parent => 1,
    })
}

proof fn root_record_stands(
    fields: DescriptorModel,
    place: PlaceModel,
    volume: VolumeModel,
    time: Seq<char>,
    hidden: bool,
    associated: bool,
)
    requires
        fields.fits(),
        fields.root_record_length == volume.root_directory_record_length,
        root_record(
            place.root_extent,
            place.root_length,
            time,
            hidden,
            associated,
            volume.root_directory_identifier,
        ) == Ok::<Seq<u8>, Failure>(fields.root_record),
    ensures
        root_stands(descriptor_block(fields), place, volume, hidden, associated),
        recording_time_bytes(time) == Ok::<Seq<u8>, Failure>(
            descriptor_block(fields).subrange(174, 181),
        ),
{
    reveal(root_record);
    let stamp = recording_time_bytes(time)->Ok_0;
    assert(stamp.len() == 7) by {
        reveal(recording_time_bytes);
    }
    let record = RecordModel {
        extent: place.root_extent,
        length: place.root_length,
        recording_time: stamp,
        flags: record_flags(true, hidden, associated),
        file_unit_size: 0,
        interleave_gap_size: 0,
        volume_sequence_number: 1,
        name: root_name(volume.root_directory_identifier),
        system_use: Seq::empty(),
        trailing_system_use_padding: false,
    };
    record_is_spelled(record);
    root_part(fields);
    let block = descriptor_block(fields);
    let bytes = fields.root_record;
    tail_parts(fields);
    assert(bytes.len() == 34);
    assert forall|i: int| 1 <= i < 34 implies #[trigger] bytes[i] == block[156 + i] by {
        assert(block.subrange(157, 190)[i - 1] == bytes.subrange(1, 34)[i - 1]);
    }
    assert(bytes[1] == block[157] && bytes[2] == block[158] && bytes[3] == block[159] && bytes[4]
        == block[160] && bytes[5] == block[161] && bytes[6] == block[162] && bytes[7] == block[163]
        && bytes[8] == block[164] && bytes[9] == block[165] && bytes[10] == block[166] && bytes[11]
        == block[167] && bytes[12] == block[168] && bytes[13] == block[169] && bytes[14]
        == block[170] && bytes[15] == block[171] && bytes[16] == block[172] && bytes[17]
        == block[173] && bytes[25] == block[181] && bytes[26] == block[182] && bytes[27]
        == block[183] && bytes[28] == block[184] && bytes[29] == block[185] && bytes[30]
        == block[186] && bytes[31] == block[187] && bytes[32] == block[188] && bytes[33]
        == block[189]);
    assert(bytes[33] == record.name[0]);
    assert(bytes[28] == 1 && bytes[29] == 0 && bytes[30] == 0 && bytes[31] == 1);
    assert(block.subrange(174, 181) =~= stamp) by {
        assert forall|i: int| 0 <= i < 7 implies block.subrange(174, 181)[i] == stamp[i] by {
            assert(bytes[18 + i] == block[156 + (18 + i)]);
            assert(bytes[18 + i] == record.recording_time[i]);
        }
    }
}

/// A primary descriptor, byte by byte: where the texts of the volume stand, where its times
/// do, what it says of the image around it, and its root record.
pub proof fn primary_descriptor_is_spelled(
    volume: VolumeModel,
    place: PlaceModel,
    root: EntryModel,
    block: Seq<u8>,
)
    requires
        pvd_block(volume, place, root) == Ok::<Seq<u8>, Failure>(block),
        place.pointers.len() == 4,
    ensures
        block.len() == 2048,
        block[0] == 1 && block[7] == 0,
        spells_up(block, 80, place.volume_blocks),
        spells_down(block, 84, place.volume_blocks),
        spells_up(block, 132, place.path_table_size),
        spells_down(block, 136, place.path_table_size),
        spells_up(block, 140, place.pointers[0]),
        spells_up(block, 144, place.pointers[1]),
        spells_down(block, 148, place.pointers[2]),
        spells_down(block, 152, place.pointers[3]),
        root_stands(block, place, volume, root.hidden, root.associated),
        recording_time_bytes(
            match volume.root_directory_recording_time {
                Some(time) => time,
                None => root.recording_time,
            },
        ) == Ok::<Seq<u8>, Failure>(block.subrange(174, 181)),
        text_stands(block, 8, 32, volume.system_identifier),
        text_stands(block, 40, 32, volume.volume_identifier),
        text_stands(block, 190, 128, volume.volume_set_identifier),
        text_stands(block, 318, 128, volume.publisher_identifier),
        text_stands(block, 446, 128, volume.data_preparer_identifier),
        text_stands(block, 574, 128, volume.application_identifier),
        text_stands(block, 702, 37, volume.copyright_file_identifier),
        text_stands(block, 739, 37, volume.abstract_file_identifier),
        text_stands(block, 776, 37, volume.bibliographic_file_identifier),
        volume_time_bytes(volume.creation_time) == Ok::<Seq<u8>, Failure>(
            block.subrange(813, 830),
        ),
        volume_time_bytes(volume.modification_time) == Ok::<Seq<u8>, Failure>(
            block.subrange(830, 847),
        ),
        volume_time_bytes(volume.expiration_time) == Ok::<Seq<u8>, Failure>(
            block.subrange(847, 864),
        ),
        volume_time_bytes(volume.effective_time) == Ok::<Seq<u8>, Failure>(
            block.subrange(864, 881),
        ),
        block[881] == (match volume.file_structure_version {
            Some(version) => version,
            None => 1,
        }),
{
    let fields = pvd_fields(volume, place, root);
    pvd_fields_fit(volume, place, root);
    head_is_spelled(fields);
    tail_parts(fields);
    head_parts(fields);
    head_is_kept(fields);
    let head = descriptor_head(fields);
    assert(block.subrange(8, 40) =~= head.subrange(8, 40));
    assert(block.subrange(40, 72) =~= head.subrange(40, 72));
    root_record_stands(
        fields,
        place,
        volume,
        root_time(volume, root.recording_time),
        root.hidden,
        root.associated,
    );
    field_holds_text(block, 8, 32, volume.system_identifier);
    field_holds_text(block, 40, 32, volume.volume_identifier);
    field_holds_text(block, 190, 128, volume.volume_set_identifier);
    field_holds_text(block, 318, 128, volume.publisher_identifier);
    field_holds_text(block, 446, 128, volume.data_preparer_identifier);
    field_holds_text(block, 574, 128, volume.application_identifier);
    field_holds_text(block, 702, 37, volume.copyright_file_identifier);
    field_holds_text(block, 739, 37, volume.abstract_file_identifier);
    field_holds_text(block, 776, 37, volume.bibliographic_file_identifier);
}

/// A Joliet descriptor, byte by byte: where the texts of the volume stand, where its times
/// do, what it says of the image around it, and its root record.
pub proof fn joliet_descriptor_is_spelled(
    volume: JolietModel,
    place: PlaceModel,
    block: Seq<u8>,
)
    requires
        svd_block(volume, place) == Ok::<Seq<u8>, Failure>(block),
        place.pointers.len() == 4,
    ensures
        block.len() == 2048,
        block[0] == 2 && block[7] == volume.flags,
        block[90] as char == (match volume.level {
            JolietLevel::Level1 => '@',
            JolietLevel::Level2 => 'C',
            JolietLevel::Level3 => 'E',
        }),
        ({
            let size = match volume.descriptor.volume_space_size {
                Some(size) => size,
                None => place.volume_blocks,
            };
            spells_up(block, 80, size) && spells_down(block, 84, size)
        }),
        spells_up(block, 132, place.path_table_size),
        spells_down(block, 136, place.path_table_size),
        spells_up(block, 140, place.pointers[0]),
        spells_up(block, 144, place.pointers[1]),
        spells_down(block, 148, place.pointers[2]),
        spells_down(block, 152, place.pointers[3]),
        root_stands(
            block,
            place,
            volume.descriptor,
            volume.entries[0].hidden,
            volume.entries[0].associated,
        ),
        recording_time_bytes(
            match volume.descriptor.root_directory_recording_time {
                Some(time) => time,
                None => volume.entries[0].recording_time,
            },
        ) == Ok::<Seq<u8>, Failure>(block.subrange(174, 181)),
        wide_text_stands(block, 8, 32, volume.descriptor.system_identifier),
        wide_text_stands(block, 40, 32, volume.descriptor.volume_identifier),
        volume.volume_set_identifier_raw_hex is None ==> wide_text_stands(
            block,
            190,
            128,
            volume.descriptor.volume_set_identifier,
        ),
        wide_text_stands(block, 318, 128, volume.descriptor.publisher_identifier),
        wide_text_stands(block, 446, 128, volume.descriptor.data_preparer_identifier),
        wide_text_stands(block, 574, 128, volume.descriptor.application_identifier),
        wide_text_stands(block, 702, 37, volume.descriptor.copyright_file_identifier),
        wide_text_stands(block, 739, 37, volume.descriptor.abstract_file_identifier),
        wide_text_stands(block, 776, 37, volume.descriptor.bibliographic_file_identifier),
        volume_time_bytes(volume.descriptor.creation_time) == Ok::<Seq<u8>, Failure>(
            block.subrange(813, 830),
        ),
        volume_time_bytes(volume.descriptor.modification_time) == Ok::<Seq<u8>, Failure>(
            block.subrange(830, 847),
        ),
        volume_time_bytes(volume.descriptor.expiration_time) == Ok::<Seq<u8>, Failure>(
            block.subrange(847, 864),
        ),
        volume_time_bytes(volume.descriptor.effective_time) == Ok::<Seq<u8>, Failure>(
            block.subrange(864, 881),
        ),
{
    let descriptor = volume.descriptor;
    let fields = svd_fields(volume, place);
    svd_fields_fit(volume, place);
    head_is_spelled(fields);
    tail_parts(fields);
    head_parts(fields);
    head_is_kept(fields);
    let head = descriptor_head(fields);
    let odd = odd_bytes(volume)->Ok_0;
    assert(block.subrange(8, 40) =~= head.subrange(8, 40));
    assert(block.subrange(40, 72) =~= head.subrange(40, 72));
    root_record_stands(
        fields,
        place,
        descriptor,
        root_time(descriptor, volume.entries[0].recording_time),
        volume.entries[0].hidden,
        volume.entries[0].associated,
    );
    field_holds_wide_text(volume, block, 8, 32, descriptor.system_identifier, None);
    field_holds_wide_text(volume, block, 40, 32, descriptor.volume_identifier, None);
    if volume.volume_set_identifier_raw_hex is None {
        field_holds_wide_text(volume, block, 190, 128, descriptor.volume_set_identifier, None);
    }
    field_holds_wide_text(volume, block, 318, 128, descriptor.publisher_identifier, None);
    field_holds_wide_text(volume, block, 446, 128, descriptor.data_preparer_identifier, None);
    field_holds_wide_text(volume, block, 574, 128, descriptor.application_identifier, None);
    field_holds_wide_text(
        volume,
        block,
        702,
        37,
        descriptor.copyright_file_identifier,
        Some(odd[0]),
    );
    field_holds_wide_text(
        volume,
        block,
        739,
        37,
        descriptor.abstract_file_identifier,
        Some(odd[1]),
    );
    field_holds_wide_text(
        volume,
        block,
        776,
        37,
        descriptor.bibliographic_file_identifier,
        Some(odd[2]),
    );
}

/// The application-use field that a volume has unless it gives another: 512 bytes with the
/// letters `CD-XA001` from byte 141 on and zeros elsewhere, but for a mark that some have.
pub proof fn application_use_is_spelled(kind: PrimaryVolumeApplicationUse)
    ensures
        ({
            let bytes = application_use_bytes(kind);
            &&& bytes.len() == 512
            &&& kind == PrimaryVolumeApplicationUse::CdXa001 ==> forall|i: int|
                0 <= i < 512 && !(141 <= i < 149) ==> #[trigger] bytes[i] == 0
            &&& kind == PrimaryVolumeApplicationUse::CdXa001_1_1 ==> forall|i: int|
                0 <= i < 512 && !(141 <= i < 159) ==> #[trigger] bytes[i] == 0
            &&& kind == PrimaryVolumeApplicationUse::CdXa001Xcd3221Revision13 ==> forall|i: int|
                0 <= i < 500 && !(141 <= i < 149) ==> #[trigger] bytes[i] == 0
            &&& kind == PrimaryVolumeApplicationUse::CdRep20131 ==> forall|i: int|
                14 <= i < 512 ==> #[trigger] bytes[i] == 0
            &&& kind != PrimaryVolumeApplicationUse::CdRep20131 ==> bytes[141] as char == 'C'
                && bytes[142] as char == 'D' && bytes[143] as char == '-' && bytes[144] as char
                == 'X' && bytes[145] as char == 'A' && bytes[146] as char == '0' && bytes[147] as char
                == '0' && bytes[148] as char == '1'
        }),
{
}

} // verus!
