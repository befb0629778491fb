//! Sectors that were read are written again byte for byte.
use vstd::prelude::*;

use crate::bytes::{all_are, fill, put};
use crate::error::Failure;
use crate::raw_cd::ecc::{ecc_holds, sector_p, with_ecc};
use crate::raw_cd::image::{
    is_plain_gap, parsed_image, payload_of, sector_at, sector_class, sectors_from, track_of,
    SectorClassification, SectorModel, Track,
};
use crate::raw_cd::msf::msf_of;
use crate::raw_cd::sector::{
    bare_sector, edc_bytes, form1_plain, form1_sector, form2_plain, form2_sector, gap_sector,
    header_of, is_form2, mode1_plain, mode2_plain, mode2_protected, no_address, protected, sync,
    then_protected, Kind, SectorProtection,
};
use crate::xa::{subheader_of, subheader_round_trip};

verus! {

/// A Mode 1 sector whose reserved bytes are given.
pub open spec fn mode1_with_reserved(frame: u32, data: Seq<u8>, reserved: Seq<u8>) -> Result<
    Seq<u8>,
    Failure,
> {
    match mode1_plain(frame, data) {
        Err(failure) => Err(failure),
        Ok(plain) => protected(put(plain, 2068, reserved), SectorProtection::Mode1),
    }
}

/// The sector that is written for one that was read, from what was read of it: what
/// it is, its subheaders and its payload, and the reserved bytes of a Mode 1 sector.
pub open spec fn rebuilt(
    frame: u32,
    class: SectorClassification,
    payload: Seq<u8>,
    reserved: Seq<u8>,
) -> Result<Seq<u8>, Failure> {
    match class.kind {
        Kind::RawZero => Ok(fill(2352, 0)),
        Kind::Mode1 => mode1_with_reserved(frame, payload, reserved),
        Kind::Mode1Gap => mode1_with_reserved(frame, payload, reserved),
        Kind::Form1 => form1_sector(frame, class.subheader, class.subheader_copy, payload),
        Kind::Form2 => form2_sector(
            frame,
            class.subheader,
            class.subheader_copy,
            payload,
            class.form2_edc_valid,
        ),
        Kind::XaGap => if class.noncompliant_ecc {
            then_protected(gap_sector(frame, class.subheader), SectorProtection::RecordedHeaderEcc)
        } else {
            gap_sector(frame, class.subheader)
        },
    }
}

/// A sector of the second form has the error detection code of its data, or none.
pub open spec fn has_known_edc(bytes: Seq<u8>, class: SectorClassification) -> bool {
    class.kind == Kind::Form2 && !class.form2_edc_valid ==> all_are(bytes.subrange(2348, 2352), 0)
}

/// Error correction that holds is what would be made.
pub proof fn right_ecc_is_made(sector: Seq<u8>, draft: Seq<u8>, address: Seq<u8>)
    requires
        sector.len() == 2352,
        draft.len() == 2352,
        draft.take(2076) == sector.take(2076),
        ecc_holds(sector, address),
    ensures
        with_ecc(draft, address) == sector,
{
    assert(draft.subrange(16, 2076) =~= draft.take(2076).subrange(16, 2076));
    assert(sector.subrange(16, 2076) =~= sector.take(2076).subrange(16, 2076));
    let first = put(draft, 2076, sector_p(draft, address));
    assert forall|i: int| 0 <= i < 2248 implies first[i] == sector[i] by {
        if i < 2076 {
            assert(draft[i] == draft.take(2076)[i]);
            assert(sector[i] == sector.take(2076)[i]);
        } else {
            assert(sector[i] == sector.subrange(2076, 2248)[i - 2076]);
        }
    }
    assert(first.subrange(16, 2248) =~= sector.subrange(16, 2248));
    let whole = with_ecc(draft, address);
    assert forall|i: int| 0 <= i < 2352 implies whole[i] == sector[i] by {
        if i < 2248 {
            assert(whole[i] == first[i]);
        } else {
            assert(sector[i] == sector.subrange(2248, 2352)[i - 2248]);
        }
    }
    assert(whole =~= sector);
}

/// What a sector of a track with a header begins with.
proof fn head_is_header(sector: Seq<u8>, frame: u32, mode: u8)
    requires
        sector.len() == 2352,
        sector.subrange(0, 12) == sync(),
        sector[15] == mode,
        msf_of(frame) == Ok::<Seq<u8>, Failure>(sector.subrange(12, 15)),
    ensures
        header_of(frame, mode) == Ok::<Seq<u8>, Failure>(sector.subrange(12, 16)),
        bare_sector(sector.subrange(12, 16)).take(16) == sector.take(16),
{
    assert(header_of(frame, mode)->Ok_0 =~= sector.subrange(12, 16));
    let bare = bare_sector(sector.subrange(12, 16));
    assert forall|i: int| 0 <= i < 16 implies bare[i] == sector[i] by {
        if i < 12 {
            assert(sector[i] == sector.subrange(0, 12)[i]);
        }
    }
    assert(bare.take(16) =~= sector.take(16));
}

proof fn mode1_is_rebuilt(sector: Seq<u8>, frame: u32)
    requires
        sector.len() == 2352,
        sector.subrange(0, 12) == sync(),
        sector[15] == 1,
        msf_of(frame) == Ok::<Seq<u8>, Failure>(sector.subrange(12, 15)),
        sector.subrange(2064, 2068) == edc_bytes(sector.subrange(0, 2064)),
        ecc_holds(sector, sector.subrange(12, 16)),
    ensures
        mode1_with_reserved(frame, sector.subrange(16, 2064), sector.subrange(2068, 2076)) == Ok::<
            Seq<u8>,
            Failure,
        >(sector),
{
    head_is_header(sector, frame, 1);
    let bare = bare_sector(sector.subrange(12, 16));
    let plain = put(
        put(bare, 16, sector.subrange(16, 2064)),
        2068,
        sector.subrange(2068, 2076),
    );
    assert forall|i: int| 0 <= i < 2064 implies plain[i] == sector[i] by {
        if i < 16 {
            assert(bare[i] == bare.take(16)[i]);
            assert(sector[i] == sector.take(16)[i]);
        }
    }
    assert(plain.subrange(0, 2064) =~= sector.subrange(0, 2064));
    let edc = put(plain, 2064, edc_bytes(plain.subrange(0, 2064)));
    assert forall|i: int| 0 <= i < 2076 implies edc[i] == sector[i] by {
        if 2064 <= i < 2068 {
            assert(sector[i] == sector.subrange(2064, 2068)[i - 2064]);
        }
    }
    assert(edc.take(2076) =~= sector.take(2076));
    assert(edc.subrange(12, 16) =~= sector.subrange(12, 16));
    right_ecc_is_made(sector, edc, sector.subrange(12, 16));
}

/// What a Mode 2 sector holds is what its draft holds.
proof fn mode2_draft(sector: Seq<u8>, frame: u32, data: Seq<u8>)
    requires
        sector.len() == 2352,
        sector.subrange(0, 12) == sync(),
        sector[15] == 2,
        msf_of(frame) == Ok::<Seq<u8>, Failure>(sector.subrange(12, 15)),
        data.len() <= 2324,
        data == sector.subrange(24, 24 + data.len() as int),
    ensures
        header_of(frame, 2) == Ok::<Seq<u8>, Failure>(sector.subrange(12, 16)),
        ({
            let plain = mode2_plain(
                sector.subrange(12, 16),
                subheader_of(sector.subrange(16, 20)),
                subheader_of(sector.subrange(20, 24)),
                data,
            );
            &&& plain.len() == 2352
            &&& forall|i: int| 0 <= i < 24 + data.len() ==> plain[i] == sector[i]
            &&& forall|i: int| 24 + data.len() <= i < 2352 ==> plain[i] == 0
        }),
{
    head_is_header(sector, frame, 2);
    let primary = subheader_of(sector.subrange(16, 20));
    let copy = subheader_of(sector.subrange(20, 24));
    subheader_round_trip(primary, sector.subrange(16, 20));
    subheader_round_trip(copy, sector.subrange(20, 24));
    let bare = bare_sector(sector.subrange(12, 16));
    let plain = mode2_plain(sector.subrange(12, 16), primary, copy, data);
    assert forall|i: int| 0 <= i < 24 + data.len() implies plain[i] == sector[i] by {
        if i < 16 {
            assert(bare[i] == bare.take(16)[i]);
            assert(sector[i] == sector.take(16)[i]);
        } else if i < 20 {
            assert(sector[i] == sector.subrange(16, 20)[i - 16]);
        } else if i < 24 {
            assert(sector[i] == sector.subrange(20, 24)[i - 20]);
        } else {
            assert(sector[i] == data[i - 24]);
        }
    }
}

proof fn form1_is_rebuilt(sector: Seq<u8>, frame: u32)
    requires
        sector.len() == 2352,
        sector.subrange(0, 12) == sync(),
        sector[15] == 2,
        msf_of(frame) == Ok::<Seq<u8>, Failure>(sector.subrange(12, 15)),
        !is_form2(sector),
        sector.subrange(2072, 2076) == edc_bytes(sector.subrange(16, 2072)),
        ecc_holds(sector, no_address()),
    ensures
        form1_sector(
            frame,
            subheader_of(sector.subrange(16, 20)),
            subheader_of(sector.subrange(20, 24)),
            sector.subrange(24, 2072),
        ) == Ok::<Seq<u8>, Failure>(sector),
{
    let data = sector.subrange(24, 2072);
    mode2_draft(sector, frame, data);
    let primary = subheader_of(sector.subrange(16, 20));
    let copy = subheader_of(sector.subrange(20, 24));
    let plain = mode2_plain(sector.subrange(12, 16), primary, copy, data);
    assert(plain.subrange(16, 2072) =~= sector.subrange(16, 2072));
    assert(plain.subrange(16, 20) =~= sector.subrange(16, 20));
    let edc = put(plain, 2072, edc_bytes(plain.subrange(16, 2072)));
    assert forall|i: int| 0 <= i < 2076 implies edc[i] == sector[i] by {
        if i >= 2072 {
            assert(sector[i] == sector.subrange(2072, 2076)[i - 2072]);
        }
    }
    assert(edc.take(2076) =~= sector.take(2076));
    right_ecc_is_made(sector, edc, no_address());
    assert(form1_plain(frame, primary, copy, data) == Ok::<Seq<u8>, Failure>(plain));
    assert(plain[15] == 2);
    assert(mode2_protected(plain, true, false) == Ok::<(Seq<u8>, Kind), Failure>(
        (sector, Kind::Form1),
    ));
}

proof fn form2_is_rebuilt(sector: Seq<u8>, frame: u32, computed: bool)
    requires
        sector.len() == 2352,
        sector.subrange(0, 12) == sync(),
        sector[15] == 2,
        msf_of(frame) == Ok::<Seq<u8>, Failure>(sector.subrange(12, 15)),
        is_form2(sector),
        computed ==> sector.subrange(2348, 2352) == edc_bytes(sector.subrange(16, 2348)),
        !computed ==> all_are(sector.subrange(2348, 2352), 0),
    ensures
        form2_sector(
            frame,
            subheader_of(sector.subrange(16, 20)),
            subheader_of(sector.subrange(20, 24)),
            sector.subrange(24, 2348),
            computed,
        ) == Ok::<Seq<u8>, Failure>(sector),
{
    let data = sector.subrange(24, 2348);
    mode2_draft(sector, frame, data);
    let primary = subheader_of(sector.subrange(16, 20));
    let copy = subheader_of(sector.subrange(20, 24));
    let plain = mode2_plain(sector.subrange(12, 16), primary, copy, data);
    assert(plain.subrange(16, 2348) =~= sector.subrange(16, 2348));
    assert(plain.subrange(16, 20) =~= sector.subrange(16, 20));
    let stored = if computed {
        edc_bytes(plain.subrange(16, 2348))
    } else {
        fill(4, 0)
    };
    let whole = put(plain, 2348, stored);
    assert forall|i: int| 0 <= i < 2352 implies whole[i] == sector[i] by {
        if i >= 2348 {
            assert(sector[i] == sector.subrange(2348, 2352)[i - 2348]);
        }
    }
    assert(whole =~= sector);
    assert(form2_plain(frame, primary, copy, data) == Ok::<Seq<u8>, Failure>(plain));
    assert(plain[15] == 2);
}

proof fn gap_is_rebuilt(sector: Seq<u8>, frame: u32)
    requires
        sector.len() == 2352,
        sector.subrange(0, 12) == sync(),
        sector[15] == 2,
        msf_of(frame) == Ok::<Seq<u8>, Failure>(sector.subrange(12, 15)),
        is_plain_gap(sector),
    ensures
        gap_sector(frame, subheader_of(sector.subrange(16, 20))) == Ok::<Seq<u8>, Failure>(sector),
{
    let none = Seq::<u8>::empty();
    assert(none =~= sector.subrange(24, 24));
    mode2_draft(sector, frame, none);
    assert(sector.subrange(16, 20) =~= sector.subrange(20, 24)) by {
        if all_are(sector.subrange(16, 2352), 0) {
            assert forall|i: int| 16 <= i < 24 implies sector[i] == 0 by {
                assert(sector[i] == sector.subrange(16, 2352)[i - 16]);
            }
        }
    }
    let primary = subheader_of(sector.subrange(16, 20));
    let plain = mode2_plain(sector.subrange(12, 16), primary, primary, none);
    assert forall|i: int| 24 <= i < 2352 implies sector[i] == 0 by {
        if all_are(sector.subrange(16, 2352), 0) {
            assert(sector[i] == sector.subrange(16, 2352)[i - 16]);
        } else {
            assert(sector[i] == sector.subrange(24, 2352)[i - 24]);
        }
    }
    assert(plain =~= sector);
}

proof fn recorded_gap_is_rebuilt(sector: Seq<u8>, frame: u32)
    requires
        sector.len() == 2352,
        sector.subrange(0, 12) == sync(),
        sector[15] == 2,
        msf_of(frame) == Ok::<Seq<u8>, Failure>(sector.subrange(12, 15)),
        !is_form2(sector),
        all_are(sector.subrange(16, 2076), 0),
        ecc_holds(sector, sector.subrange(12, 16)),
    ensures
        then_protected(
            gap_sector(frame, subheader_of(sector.subrange(16, 20))),
            SectorProtection::RecordedHeaderEcc,
        ) == Ok::<Seq<u8>, Failure>(sector),
{
    let none = Seq::<u8>::empty();
    assert(none =~= sector.subrange(24, 24));
    mode2_draft(sector, frame, none);
    assert forall|i: int| 16 <= i < 2076 implies sector[i] == 0 by {
        assert(sector[i] == sector.subrange(16, 2076)[i - 16]);
    }
    assert(sector.subrange(16, 20) =~= sector.subrange(20, 24));
    let primary = subheader_of(sector.subrange(16, 20));
    let plain = mode2_plain(sector.subrange(12, 16), primary, primary, none);
    let draft = put(plain, 2072, fill(4, 0));
    assert(draft.take(2076) =~= sector.take(2076));
    assert(plain.subrange(12, 16) =~= sector.subrange(12, 16));
    assert(plain.subrange(16, 20) =~= sector.subrange(16, 20));
    right_ecc_is_made(sector, draft, sector.subrange(12, 16));
    assert(plain[15] == 2);
}

/// A sector that was read is written again byte for byte from what was read of it.
/// Where a sector of the second form has neither its error detection code nor
/// zeros in its place, its last four bytes are not among that.
pub proof fn sector_is_rebuilt(sector: Seq<u8>, class: SectorClassification, index: int, track: Track)
    requires
        sector.len() == 2352,
        index >= 0,
        track.mode == 1 || track.mode == 2,
        sector_class(sector, index, track) == Ok::<SectorClassification, Failure>(class),
        has_known_edc(sector, class),
    ensures
        rebuilt(
            (track.start_frame + index) as u32,
            class,
            payload_of(sector, class.kind),
            sector.subrange(2068, 2076),
        ) == Ok::<Seq<u8>, Failure>(sector),
{
    if all_are(sector, 0) {
        assert(sector =~= fill(2352, 0));
    } else {
        let frame = (track.start_frame + index) as u32;
        if sector[15] == 1 {
            mode1_is_rebuilt(sector, frame);
        } else if is_form2(sector) {
            form2_is_rebuilt(sector, frame, class.form2_edc_valid);
        } else if is_plain_gap(sector) {
            gap_is_rebuilt(sector, frame);
        } else if class.kind == Kind::Form1 {
            form1_is_rebuilt(sector, frame);
        } else {
            recorded_gap_is_rebuilt(sector, frame);
        }
    }
}

/// The sectors that are read of an image are its pieces, each with its class.
proof fn sectors_are_pieces(image: Seq<u8>, track: Track, index: int, read: Seq<SectorModel>)
    requires
        0 <= index <= image.len() / 2352,
        read.len() == index,
        forall|i: int|
            0 <= i < index ==> (#[trigger] read[i]).bytes == sector_at(image, i) && sector_class(
                sector_at(image, i),
                i,
                track,
            ) == Ok::<SectorClassification, Failure>(read[i].class),
        sectors_from(image, track, index, read) is Ok,
    ensures
        ({
            let sectors = sectors_from(image, track, index, read)->Ok_0;
            &&& sectors.len() == image.len() / 2352
            &&& forall|i: int|
                0 <= i < sectors.len() ==> (#[trigger] sectors[i]).bytes == sector_at(image, i)
                    && sector_class(sector_at(image, i), i, track) == Ok::<
                    SectorClassification,
                    Failure,
                >(sectors[i].class)
        }),
    decreases image.len() / 2352 - index,
{
    if index < image.len() / 2352 {
        let bytes = sector_at(image, index);
        let class = sector_class(bytes, index, track)->Ok_0;
        sectors_are_pieces(image, track, index + 1, read.push(SectorModel { bytes, class }));
    }
}

/// An image that was read is written again byte for byte, sector by sector, from
/// what was read of its sectors.
pub proof fn image_is_rebuilt(image: Seq<u8>, start_frame: u32, sectors: Seq<SectorModel>)
    requires
        parsed_image(image) == Ok::<(u32, Seq<SectorModel>), Failure>((start_frame, sectors)),
        forall|i: int|
            0 <= i < sectors.len() ==> has_known_edc(
                (#[trigger] sectors[i]).bytes,
                sectors[i].class,
            ),
    ensures
        image.len() == sectors.len() * 2352,
        forall|i: int|
            0 <= i < sectors.len() ==> rebuilt(
                (start_frame + i) as u32,
                (#[trigger] sectors[i]).class,
                payload_of(sectors[i].bytes, sectors[i].class.kind),
                sectors[i].bytes.subrange(2068, 2076),
            ) == Ok::<Seq<u8>, Failure>(image.subrange(i * 2352, i * 2352 + 2352)),
{
    let track = track_of(image)->Ok_0;
    sectors_are_pieces(image, track, 0, Seq::empty());
    assert forall|i: int| 0 <= i < sectors.len() implies rebuilt(
        (start_frame + i) as u32,
        (#[trigger] sectors[i]).class,
        payload_of(sectors[i].bytes, sectors[i].class.kind),
        sectors[i].bytes.subrange(2068, 2076),
    ) == Ok::<Seq<u8>, Failure>(image.subrange(i * 2352, i * 2352 + 2352)) by {
        sector_is_rebuilt(sectors[i].bytes, sectors[i].class, i, track);
    }
}

} // verus!
