//! What follows the data of files in their last blocks is written again as it is read.
use vstd::prelude::*;

use crate::bytes::{put, used_length, used_length_is_last};
use crate::error::Failure;
use crate::hexcode::{hex_bytes, hex_round_trip, hex_text, is_hex};
use crate::iso9660::description::EntryModel;
use crate::iso9660::directory::FileModel;
use crate::iso9660::layout::{with_padding, with_paddings_from};
use crate::iso9660::subheaders::file_of;

verus! {

/// The padding of an entry's file can be written, and stands so in an image.
pub open spec fn has_padding(image: Seq<u8>, entry: EntryModel, files: Seq<FileModel>) -> bool {
    entry.allocation_padding_hex is Some ==> {
        &&& with_padding(image, entry, files) is Ok
        &&& forall|offset: int|
            #[trigger] in_padding(entry, files, offset) && 0 <= offset < image.len()
                ==> image[offset] == padding_byte(entry, files, offset)
    }
}

/// Where the padding of an entry's file begins.
pub open spec fn padding_start(entry: EntryModel, files: Seq<FileModel>) -> int {
    let file = file_of(entry, files)->Some_0;
    (file.extent + file.blocks - 1) * 2048 + file.length % 2048
}

/// The padding of an entry's file.
pub open spec fn padding_of(entry: EntryModel) -> Seq<u8> {
    hex_bytes(entry.allocation_padding_hex->Some_0)
}

/// An offset lies in the padding of an entry's file.
pub open spec fn in_padding(entry: EntryModel, files: Seq<FileModel>, offset: int) -> bool {
    entry.allocation_padding_hex is Some && padding_start(entry, files) <= offset < padding_start(
        entry,
        files,
    ) + padding_of(entry).len()
}

/// The byte of the padding at an offset.
pub open spec fn padding_byte(entry: EntryModel, files: Seq<FileModel>, offset: int) -> u8 {
    padding_of(entry)[offset - padding_start(entry, files)]
}

/// An image in which all padding stands is what writing it gives, where nothing else
/// differs.
pub proof fn paddings_lead_to(
    target: Seq<u8>,
    image: Seq<u8>,
    entries: Seq<EntryModel>,
    files: Seq<FileModel>,
    index: int,
)
    requires
        0 <= index <= entries.len(),
        image.len() == target.len(),
        forall|i: int| index <= i < entries.len() ==> has_padding(
            target,
            #[trigger] entries[i],
            files,
        ),
        forall|offset: int|
            0 <= offset < image.len() && #[trigger] image[offset] != target[offset] ==> exists|i: int|
                index <= i < entries.len() && in_padding(#[trigger] entries[i], files, offset),
    ensures
        with_paddings_from(image, entries, files, index) == Ok::<Seq<u8>, Failure>(target),
    decreases entries.len() - index,
{
    if index == entries.len() {
        assert(image =~= target);
    } else {
        let entry = entries[index];
        assert(has_padding(target, entry, files));
        let next = if entry.allocation_padding_hex is Some {
            put(image, padding_start(entry, files), padding_of(entry))
        } else {
            image
        };
        assert(with_padding(image, entry, files) == Ok::<Seq<u8>, Failure>(next));
        assert forall|offset: int|
            0 <= offset < next.len() && #[trigger] next[offset]
                != target[offset] implies exists|i: int|
            index + 1 <= i < entries.len() && in_padding(#[trigger] entries[i], files, offset) by {
            if in_padding(entry, files, offset) {
                assert(target[offset] == padding_byte(entry, files, offset));
                assert(false);
            }
            assert(next[offset] == image[offset]);
            let i = choose|i: int|
                index <= i < entries.len() && in_padding(#[trigger] entries[i], files, offset);
            assert(i != index);
        }
        paddings_lead_to(target, next, entries, files, index + 1);
    }
}

/// Where writing the padding of files changes an image, there is padding.
pub proof fn paddings_change(
    image: Seq<u8>,
    entries: Seq<EntryModel>,
    files: Seq<FileModel>,
    index: int,
    offset: int,
)
    requires
        0 <= index <= entries.len(),
        with_paddings_from(image, entries, files, index) is Ok,
        0 <= offset < image.len(),
        with_paddings_from(image, entries, files, index)->Ok_0[offset] != image[offset],
    ensures
        exists|i: int|
            index <= i < entries.len() && in_padding(#[trigger] entries[i], files, offset)
                && is_padding_sound(entries[i], files),
    decreases entries.len() - index,
{
    if index < entries.len() {
        let entry = entries[index];
        let next = with_padding(image, entry, files)->Ok_0;
        if next[offset] != image[offset] {
            assert(in_padding(entries[index], files, offset));
            assert(is_padding_sound(entries[index], files));
        } else {
            assert(next.len() == image.len());
            paddings_change(next, entries, files, index + 1, offset);
        }
    }
}

/// The padding of an entry's file lies in the file's last block.
pub open spec fn is_padding_sound(entry: EntryModel, files: Seq<FileModel>) -> bool {
    file_of(entry, files) matches Some(file) && file.blocks > 0 && file.length % 2048 > 0
        && padding_of(entry).len() <= 2048 - file.length % 2048
}

/// What stands behind the data of a file in its last block.
pub open spec fn tail_of(image: Seq<u8>, file: FileModel) -> Seq<u8> {
    image.subrange(
        (file.extent + file.blocks - 1) * 2048 + file.length % 2048,
        (file.extent + file.blocks) * 2048,
    )
}

/// What stands behind the data of a file is the padding that is read of it.
pub proof fn tail_is_padding(
    image: Seq<u8>,
    entry: EntryModel,
    files: Seq<FileModel>,
    file: FileModel,
)
    requires
        file_of(entry, files) == Some(file),
        file.blocks > 0,
        (file.extent + file.blocks) * 2048 <= image.len(),
        entry.allocation_padding_hex is Some ==> file.length % 2048 != 0 && used_length(
            tail_of(image, file),
            0,
        ) > 0 && entry.allocation_padding_hex == Some(
            hex_text(tail_of(image, file).take(used_length(tail_of(image, file), 0) as int)),
        ),
    ensures
        has_padding(image, entry, files),
{
    if entry.allocation_padding_hex is Some {
        let rest = tail_of(image, file);
        let used = used_length(rest, 0) as int;
        let data = rest.take(used);
        let text = hex_text(data);
        tail_has_length(image, file);
        assert(is_hex(text) && hex_bytes(text) == data) by {
            hex_round_trip(data);
        }
        assert(0 < used <= rest.len() && data.last() != 0) by {
            used_length_is_last(rest, 0);
            assert(data.last() == rest[used - 1]);
        }
        assert(entry.allocation_padding_hex == Some(text));
        assert(padding_of(entry) == data);
        bytes_are_padding(image, entry, files, file, data);
    }
}

proof fn tail_has_length(image: Seq<u8>, file: FileModel)
    requires
        file.blocks > 0,
        (file.extent + file.blocks) * 2048 <= image.len(),
    ensures
        tail_of(image, file).len() == 2048 - file.length % 2048,
{
}

proof fn bytes_are_padding(
    image: Seq<u8>,
    entry: EntryModel,
    files: Seq<FileModel>,
    file: FileModel,
    data: Seq<u8>,
)
    requires
        file_of(entry, files) == Some(file),
        file.blocks > 0,
        file.length % 2048 != 0,
        (file.extent + file.blocks) * 2048 <= image.len(),
        entry.allocation_padding_hex is Some,
        is_hex(entry.allocation_padding_hex->Some_0),
        padding_of(entry) == data,
        0 < data.len() <= 2048 - file.length % 2048,
        data.last() != 0,
        data == tail_of(image, file).take(data.len() as int),
        tail_of(image, file).len() == 2048 - file.length % 2048,
    ensures
        has_padding(image, entry, files),
{
    let start = padding_start(entry, files);
    assert(with_padding(image, entry, files) is Ok);
    assert forall|offset: int| #[trigger] in_padding(entry, files, offset) && 0 <= offset
        < image.len() implies image[offset] == padding_byte(entry, files, offset) by {
        assert(data[offset - start] == tail_of(image, file)[offset - start]);
    }
}

} // verus!
