//! What the sectors of an image that is read are, byte by byte.
use vstd::prelude::*;

use crate::bytes::{all_are, le32, le32_spells};
use crate::error::Failure;
use crate::raw_cd::ecc::ecc_holds;
use crate::raw_cd::image::{
    first_used, parsed_image, sector_at, sector_class, sectors_from, track_of, SectorModel, Track,
};
use crate::raw_cd::msf::msf_of;
use crate::raw_cd::sector::{cd_rom_edc, sync, Kind};
use crate::raw_cd::sector_bytes_laws::{
    begins, bits_of_submode, code_stands, frame_is_timed, subheader_stands, time_counts_frames,
};

verus! {

/// The sectors that are read are the pieces of the image, and each is of a class that its
/// place in the track allows.
proof fn sectors_are_read_in_turn(
    image: Seq<u8>,
    track: Track,
    index: int,
    read: Seq<SectorModel>,
)
    requires
        0 <= index <= image.len() / 2352,
        read.len() == index,
        sectors_from(image, track, index, read) is Ok,
    ensures
        ({
            let sectors = sectors_from(image, track, index, read)->Ok_0;
            &&& sectors.len() == image.len() / 2352
            &&& sectors.take(index) == read
            &&& forall|i: int|
                index <= i < sectors.len() ==> (#[trigger] sectors[i]).bytes == sector_at(image, i)
                    && sector_class(sectors[i].bytes, i, track) is Ok && sector_class(
                    sectors[i].bytes,
                    i,
                    track,
                )->Ok_0 == sectors[i].class
        }),
    decreases image.len() / 2352 - index,
{
    let sectors = sectors_from(image, track, index, read)->Ok_0;
    if index < image.len() / 2352 {
        let bytes = sector_at(image, index);
        let class = sector_class(bytes, index, track)->Ok_0;
        let more = read.push(SectorModel { bytes, class });
        sectors_are_read_in_turn(image, track, index + 1, more);
        assert(sectors.take(index + 1)[index] == more[index]);
        assert(sectors[index] == more[index]);
        assert(sectors.take(index) =~= sectors.take(index + 1).take(index));
        assert(more.take(index) =~= read);
    } else {
        assert(sectors.take(index) =~= read);
    }
}

/// An image that is read is cut into sectors of 2352 bytes. Each is all zeros, or begins
/// with the sync pattern, the time of its frame, counted from the first on, and its mode.
pub proof fn image_is_cut_into_sectors(
    image: Seq<u8>,
    start_frame: u32,
    sectors: Seq<SectorModel>,
)
    requires
        parsed_image(image) == Ok::<(u32, Seq<SectorModel>), Failure>((start_frame, sectors)),
    ensures
        image.len() == 2352 * sectors.len(),
        sectors.len() > 0,
        forall|i: int, j: int|
            0 <= i < sectors.len() && 0 <= j < 2352 ==> #[trigger] sectors[i].bytes[j]
                == image[2352 * i + j],
        forall|i: int| 0 <= i < sectors.len() ==> (#[trigger] sectors[i]).bytes.len() == 2352,
        forall|i: int|
            0 <= i < sectors.len() ==> ((#[trigger] sectors[i]).class.kind == Kind::RawZero <==> (
            forall|j: int| 0 <= j < 2352 ==> sectors[i].bytes[j] == 0)),
        forall|i: int|
            0 <= i < sectors.len() && (#[trigger] sectors[i]).class.kind != Kind::RawZero
                ==> start_frame + i < 450000 && begins(
                sectors[i].bytes,
                (start_frame + i) as u32,
                if sectors[i].class.kind == Kind::Mode1 || sectors[i].class.kind == Kind::Mode1Gap {
                    1
                } else {
                    2
                },
            ),
{
    let track = track_of(image)->Ok_0;
    sectors_are_read_in_turn(image, track, 0, Seq::empty());
    assert(image.len() == image.len() / 2352 * 2352 + image.len() % 2352);
    assert forall|i: int| 0 <= i < sectors.len() implies sector_at(image, i).len() == 2352 by {
        assert(i * 2352 + 2352 <= image.len());
    }
    assert forall|i: int| 0 <= i < sectors.len() implies (#[trigger] sectors[i]).bytes.len()
        == 2352 by {
        assert(sectors[i].bytes == sector_at(image, i));
        assert(i * 2352 + 2352 <= image.len());
    }
    assert forall|i: int, j: int| 0 <= i < sectors.len() && 0 <= j < 2352 implies #[trigger] sectors[
        i
    ].bytes[j] == image[2352 * i + j] by {
        assert(sectors[i].bytes == sector_at(image, i));
        assert(i * 2352 + 2352 <= image.len());
    }
    assert forall|i: int| 0 <= i < sectors.len() implies sector_begins(
        #[trigger] sectors[i],
        i,
        start_frame,
    ) by {
        sector_is_begun(sectors[i], i, track);
    }
    assert forall|i: int| 0 <= i < sectors.len() implies ((#[trigger] sectors[i]).class.kind
        == Kind::RawZero <==> (forall|j: int|
        0 <= j < 2352 ==> sectors[i].bytes[j] == 0)) by {
        assert(sector_begins(sectors[i], i, start_frame));
    }
    assert forall|i: int|
        0 <= i < sectors.len() && (#[trigger] sectors[i]).class.kind
            != Kind::RawZero implies start_frame + i < 450000 && begins(
        sectors[i].bytes,
        (start_frame + i) as u32,
        if sectors[i].class.kind == Kind::Mode1 || sectors[i].class.kind == Kind::Mode1Gap {
            1
        } else {
            2
        },
    ) by {
        assert(sector_begins(sectors[i], i, start_frame));
    }
}

/// A sector of an image is zeros, or begins as a sector of its frame does.
spec fn sector_begins(sector: SectorModel, index: int, start_frame: u32) -> bool {
    &&& sector.class.kind == Kind::RawZero <==> (forall|j: int|
        0 <= j < 2352 ==> sector.bytes[j] == 0)
    &&& sector.class.kind != Kind::RawZero ==> start_frame + index < 450000 && begins(
        sector.bytes,
        (start_frame + index) as u32,
        if sector.class.kind == Kind::Mode1 || sector.class.kind == Kind::Mode1Gap {
            1
        } else {
            2
        },
    )
}

proof fn sector_is_begun(sector: SectorModel, index: int, track: Track)
    requires
        sector.bytes.len() == 2352,
        index >= 0,
        track.mode == 1 || track.mode == 2,
        sector_class(sector.bytes, index, track) is Ok,
        sector_class(sector.bytes, index, track)->Ok_0 == sector.class,
    ensures
        sector_begins(sector, index, track.start_frame),
{
    let bytes = sector.bytes;
    if !all_are(bytes, 0) {
        let start = bytes.subrange(0, 12);
        let pattern = sync();
        assert(start == pattern);
        assert(start[0] == bytes[0] && start[11] == bytes[11]);
        assert forall|i: int| 1 <= i < 11 implies bytes[i] == 255 by {
            assert(start[i] == bytes[i]);
            assert(pattern[i] == 255);
        }
        let frame = (track.start_frame + index) as u32;
        let msf = msf_of(frame)->Ok_0;
        frame_is_timed(frame);
        assert(bytes.subrange(12, 15) == msf);
        assert(bytes.subrange(12, 15)[0] == bytes[12] && bytes.subrange(12, 15)[1] == bytes[13]
            && bytes.subrange(12, 15)[2] == bytes[14]);
        let j = choose|j: int| 0 <= j < bytes.len() && bytes[j] != 0;
        assert(bytes[j] != 0);
    }
}

/// A sector of an image is what its bytes say. Mode 1 sectors have the right error detection
/// code and correction, and are gaps where their data are zeros. Of the Mode 2 sectors those
/// are of the second form whose subheader says so, and those of the first form have the right
/// codes. Both subheaders are those that stand in the sector.
pub proof fn sectors_are_what_they_say(
    image: Seq<u8>,
    start_frame: u32,
    sectors: Seq<SectorModel>,
    index: int,
)
    requires
        parsed_image(image) == Ok::<(u32, Seq<SectorModel>), Failure>((start_frame, sectors)),
        0 <= index < sectors.len(),
    ensures
        ({
            let bytes = sectors[index].bytes;
            let class = sectors[index].class;
            &&& class.kind == Kind::Mode1 || class.kind == Kind::Mode1Gap ==> {
                &&& code_stands(bytes, 2064, cd_rom_edc(bytes.subrange(0, 2064)))
                &&& ecc_holds(bytes, bytes.subrange(12, 16))
                &&& class.kind == Kind::Mode1Gap <==> forall|j: int|
                    16 <= j < 2064 ==> bytes[j] == 0
            }
            &&& class.kind == Kind::Form1 || class.kind == Kind::Form2 || class.kind == Kind::XaGap
                ==> {
                &&& subheader_stands(bytes, 16, class.subheader)
                &&& subheader_stands(bytes, 20, class.subheader_copy)
                &&& class.kind == Kind::Form2 <==> bytes[18] / 32 % 2 == 1
                &&& class.form2_edc_valid <==> class.kind == Kind::Form2 && code_stands(
                    bytes,
                    2348,
                    cd_rom_edc(bytes.subrange(16, 2348)),
                )
            }
            &&& class.kind == Kind::Form1 ==> code_stands(
                bytes,
                2072,
                cd_rom_edc(bytes.subrange(16, 2072)),
            ) && ecc_holds(bytes, seq![0u8, 0u8, 0u8, 0u8])
            &&& class.kind == Kind::XaGap && !class.noncompliant_ecc ==> (forall|j: int|
                24 <= j < 2352 ==> bytes[j] == 0) && bytes[16] == bytes[20] && bytes[17] == bytes[21]
                && bytes[18] == bytes[22] && bytes[19] == bytes[23]
            &&& class.noncompliant_ecc ==> class.kind == Kind::XaGap && (forall|j: int|
                16 <= j < 2076 ==> bytes[j] == 0) && ecc_holds(bytes, bytes.subrange(12, 16))
        }),
{
    let track = track_of(image)->Ok_0;
    sectors_are_read_in_turn(image, track, 0, Seq::empty());
    assert(image.len() == image.len() / 2352 * 2352 + image.len() % 2352);
    assert(index * 2352 + 2352 <= image.len());
    sector_is_what_it_says(sectors[index], index, track);
}

/// Four bytes are a code exactly when they spell it.
proof fn code_is_spelled(bytes: Seq<u8>, at: int, code: u32)
    requires
        0 <= at,
        at + 4 <= bytes.len(),
    ensures
        bytes.subrange(at, at + 4) == le32(code) <==> code_stands(bytes, at, code),
{
    let part = bytes.subrange(at, at + 4);
    le32_spells(code);
    assert(part[0] == bytes[at] && part[1] == bytes[at + 1] && part[2] == bytes[at + 2] && part[3]
        == bytes[at + 3]);
    if code_stands(bytes, at, code) {
        let other = le32(code);
        assert(part[0] + part[1] * 256 + part[2] * 65536 + part[3] * 16777216 == other[3] * 16777216
            + other[2] * 65536 + other[1] * 256 + other[0]);
        assert(part[3] == other[3]);
        assert(part[2] == other[2]);
        assert(part[1] == other[1]);
        assert(part[0] == other[0]);
        assert(part =~= other);
    }
}

#[verifier::rlimit(50)]
proof fn sector_is_what_it_says(sector: SectorModel, index: int, track: Track)
    requires
        sector.bytes.len() == 2352,
        sector_class(sector.bytes, index, track) is Ok,
        sector_class(sector.bytes, index, track)->Ok_0 == sector.class,
    ensures
        ({
            let bytes = sector.bytes;
            let class = sector.class;
            &&& class.kind == Kind::Mode1 || class.kind == Kind::Mode1Gap ==> {
                &&& code_stands(bytes, 2064, cd_rom_edc(bytes.subrange(0, 2064)))
                &&& ecc_holds(bytes, bytes.subrange(12, 16))
                &&& class.kind == Kind::Mode1Gap <==> forall|j: int|
                    16 <= j < 2064 ==> bytes[j] == 0
            }
            &&& class.kind == Kind::Form1 || class.kind == Kind::Form2 || class.kind == Kind::XaGap
                ==> {
                &&& subheader_stands(bytes, 16, class.subheader)
                &&& subheader_stands(bytes, 20, class.subheader_copy)
                &&& class.kind == Kind::Form2 <==> bytes[18] / 32 % 2 == 1
                &&& class.form2_edc_valid <==> class.kind == Kind::Form2 && code_stands(
                    bytes,
                    2348,
                    cd_rom_edc(bytes.subrange(16, 2348)),
                )
            }
            &&& class.kind == Kind::Form1 ==> code_stands(
                bytes,
                2072,
                cd_rom_edc(bytes.subrange(16, 2072)),
            ) && ecc_holds(bytes, seq![0u8, 0u8, 0u8, 0u8])
            &&& class.kind == Kind::XaGap && !class.noncompliant_ecc ==> (forall|j: int|
                24 <= j < 2352 ==> bytes[j] == 0) && bytes[16] == bytes[20] && bytes[17] == bytes[21]
                && bytes[18] == bytes[22] && bytes[19] == bytes[23]
            &&& class.noncompliant_ecc ==> class.kind == Kind::XaGap && (forall|j: int|
                16 <= j < 2076 ==> bytes[j] == 0) && ecc_holds(bytes, bytes.subrange(12, 16))
        }),
{
    let bytes = sector.bytes;
    let class = sector.class;
    code_is_spelled(bytes, 2064, cd_rom_edc(bytes.subrange(0, 2064)));
    code_is_spelled(bytes, 2072, cd_rom_edc(bytes.subrange(16, 2072)));
    code_is_spelled(bytes, 2348, cd_rom_edc(bytes.subrange(16, 2348)));
    if class.kind == Kind::Mode1 || class.kind == Kind::Mode1Gap {
        let data = bytes.subrange(16, 2064);
        assert(all_are(data, 0) <==> forall|j: int| 16 <= j < 2064 ==> bytes[j] == 0) by {
            if all_are(data, 0) {
                assert forall|j: int| 16 <= j < 2064 implies bytes[j] == 0 by {
                    assert(data[j - 16] == 0);
                }
            }
            if forall|j: int| 16 <= j < 2064 ==> bytes[j] == 0 {
                assert forall|j: int| 0 <= j < data.len() implies data[j] == 0 by {
                    assert(data[j] == bytes[16 + j]);
                }
            }
        }
    } else if class.kind != Kind::RawZero {
        let first = bytes.subrange(16, 20);
        let second = bytes.subrange(20, 24);
        assert(first[0] == bytes[16] && first[1] == bytes[17] && first[2] == bytes[18] && first[3]
            == bytes[19]);
        assert(second[0] == bytes[20] && second[1] == bytes[21] && second[2] == bytes[22]
            && second[3] == bytes[23]);
        bits_of_submode(class.subheader.submode);
        assert(crate::bytes::fill(4, 0) =~= seq![0u8, 0u8, 0u8, 0u8]);
        if class.noncompliant_ecc {
            let rest = bytes.subrange(16, 2076);
            assert forall|j: int| 16 <= j < 2076 implies bytes[j] == 0 by {
                assert(rest[j - 16] == 0);
            }
        } else if class.kind == Kind::XaGap {
            let all = bytes.subrange(16, 2352);
            let rest = bytes.subrange(24, 2352);
            if all_are(all, 0) {
                assert forall|j: int| 16 <= j < 2352 implies bytes[j] == 0 by {
                    assert(all[j - 16] == 0);
                }
            } else {
                assert forall|j: int| 24 <= j < 2352 implies bytes[j] == 0 by {
                    assert(rest[j - 24] == 0);
                }
            }
        }
    }
}

/// The track of an image begins where its first sector that is not all zeros says: so many
/// frames before that as there are sectors before it.
pub proof fn track_is_timed_by_its_first_sector(image: Seq<u8>, track: Track, at: int)
    requires
        track_of(image) == Ok::<Track, Failure>(track),
        0 <= at,
        at * 2352 + 2352 <= image.len(),
        forall|j: int| 0 <= j < at * 2352 ==> #[trigger] image[j] == 0,
        exists|j: int| at * 2352 <= j < at * 2352 + 2352 && #[trigger] image[j] != 0,
    ensures
        track.mode == image[at * 2352 + 15],
        track.mode == 1 || track.mode == 2,
        track.start_frame + at == ((image[at * 2352 + 12] / 16 * 10 + image[at * 2352 + 12] % 16) * 60
            + (image[at * 2352 + 13] / 16 * 10 + image[at * 2352 + 13] % 16)) * 75 + (image[at * 2352
            + 14] / 16 * 10 + image[at * 2352 + 14] % 16),
{
    first_is_found(image, at, 0);
    let head = sector_at(image, at);
    time_counts_frames(head.subrange(12, 15));
    assert(head.subrange(12, 15)[0] == image[at * 2352 + 12] && head.subrange(12, 15)[1] == image[at
        * 2352 + 13] && head.subrange(12, 15)[2] == image[at * 2352 + 14]);
}

proof fn first_is_found(image: Seq<u8>, at: int, index: int)
    requires
        0 <= index <= at,
        at * 2352 + 2352 <= image.len(),
        forall|j: int| 0 <= j < at * 2352 ==> #[trigger] image[j] == 0,
        exists|j: int| at * 2352 <= j < at * 2352 + 2352 && #[trigger] image[j] != 0,
    ensures
        first_used(image, index) == at,
    decreases at - index,
{
    let sector = sector_at(image, index);
    assert(index < image.len() / 2352);
    if index < at {
        assert(all_are(sector, 0)) by {
            assert forall|j: int| 0 <= j < sector.len() implies sector[j] == 0 by {
                assert(sector[j] == image[index * 2352 + j]);
            }
        }
        first_is_found(image, at, index + 1);
    } else {
        let j = choose|j: int| at * 2352 <= j < at * 2352 + 2352 && #[trigger] image[j] != 0;
        assert(sector[j - at * 2352] == image[j]);
    }
}

} // verus!
