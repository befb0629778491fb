//! What is written into sectors is read back.
use vstd::prelude::*;

use crate::bytes::{all_are, fill, put};
use crate::error::Failure;
use crate::raw_cd::ecc::{
    covered, layout_p, parity, sector_p, sector_q, weighed, with_ecc, written_ecc_holds,
};
use crate::raw_cd::image::{
    classified, first_used, is_plain_gap, last_used, parsed_image, payload_of, sector_at,
    sector_class, sectors_from, track_of, SectorClassification, SectorModel, Track,
};
use crate::raw_cd::msf::{frame_survives, msf_of};
use crate::raw_cd::sector::{
    bare_sector, edc_bytes, form1_sector, form2_sector, gap_sector, header_of, is_form2,
    mode1_sector, mode2_plain, mode2_protected, no_address, sync, Kind,
};
use crate::xa::{subheader_bytes, subheader_of, subheader_round_trip, XaSubheader, XaSubmodeFlag};

verus! {

/// What a Mode 2 sector holds before its codes are made.
proof fn plain_parts(header: Seq<u8>, subheader: XaSubheader, subheader_copy: XaSubheader, data: Seq<u8>)
    requires
        header.len() == 4,
        data.len() <= 2324,
    ensures
        ({
            let sector = mode2_plain(header, subheader, subheader_copy, data);
            &&& sector.len() == 2352
            &&& sector.subrange(0, 12) == sync()
            &&& sector.subrange(12, 16) == header
            &&& sector.subrange(16, 20) == subheader_bytes(subheader)
            &&& sector.subrange(20, 24) == subheader_bytes(subheader_copy)
            &&& sector.subrange(24, (24 + data.len()) as int) == data
            &&& all_are(sector.subrange((24 + data.len()) as int, 2352), 0)
        }),
{
    let sector = mode2_plain(header, subheader, subheader_copy, data);
    assert(sector.subrange(0, 12) =~= sync());
    assert(sector.subrange(12, 16) =~= header);
    assert(sector.subrange(16, 20) =~= subheader_bytes(subheader));
    assert(sector.subrange(20, 24) =~= subheader_bytes(subheader_copy));
    assert(sector.subrange(24, (24 + data.len()) as int) =~= data);
}

/// A sector with a sync pattern is not all zero, and its header gives its time and
/// mode.
proof fn header_parts(sector: Seq<u8>, header: Seq<u8>, frame: u32, mode: u8)
    requires
        sector.len() == 2352,
        sector.subrange(0, 12) == sync(),
        sector.subrange(12, 16) == header,
        header_of(frame, mode) == Ok::<Seq<u8>, Failure>(header),
    ensures
        !all_are(sector, 0),
        sector[15] == mode,
        msf_of(frame) == Ok::<Seq<u8>, Failure>(sector.subrange(12, 15)),
{
    assert(sector[1] == sector.subrange(0, 12)[1]);
    assert(sync()[1] == 255);
    assert(sector[15] == sector.subrange(12, 16)[3]);
    assert(sector.subrange(12, 15) =~= header.subrange(0, 3));
    assert(header.subrange(0, 3) =~= msf_of(frame)->Ok_0);
}

/// Data that is written to a Mode 1 sector is read back from it. In a Mode 2 track
/// that holds of gaps.
pub proof fn mode1_survives(frame: u32, data: Seq<u8>, sector: Seq<u8>, index: int, track: Track)
    requires
        mode1_sector(frame, data) == Ok::<Seq<u8>, Failure>(sector),
        track.start_frame + index == frame,
        index >= 0,
        track.mode == 1 || (track.mode == 2 && all_are(data, 0)),
    ensures
        ({
            let kind = if all_are(data, 0) {
                Kind::Mode1Gap
            } else {
                Kind::Mode1
            };
            &&& sector_class(sector, index, track) == Ok::<SectorClassification, Failure>(
                classified(kind),
            )
            &&& payload_of(sector, kind) == data
        }),
        sector.len() == 2352,
        !all_are(sector, 0),
        sector[15] == 1,
        msf_of(frame) == Ok::<Seq<u8>, Failure>(sector.subrange(12, 15)),
{
    let header = header_of(frame, 1)->Ok_0;
    let plain = put(bare_sector(header), 16, data);
    let edc = put(plain, 2064, edc_bytes(plain.subrange(0, 2064)));
    assert(plain.subrange(12, 16) =~= header);
    assert(plain[15] == header[3]) by {
        assert(plain[15] == plain.subrange(12, 16)[3]);
    }
    assert(edc.len() == 2352);
    written_ecc_holds(edc, edc.subrange(12, 16));
    assert(sector == with_ecc(edc, edc.subrange(12, 16)));
    let kept = edc.take(2076);
    assert(sector.take(2076) == kept);
    assert(sector.subrange(0, 2064) =~= kept.subrange(0, 2064));
    assert(plain.subrange(0, 2064) =~= kept.subrange(0, 2064));
    assert(sector.subrange(2064, 2068) =~= kept.subrange(2064, 2068));
    assert(kept.subrange(2064, 2068) =~= edc_bytes(plain.subrange(0, 2064)));
    assert(sector.subrange(12, 16) =~= kept.subrange(12, 16));
    assert(edc.subrange(12, 16) =~= kept.subrange(12, 16));
    assert(edc.subrange(12, 16) =~= header);
    assert(sector.subrange(0, 12) =~= kept.subrange(0, 12));
    assert(kept.subrange(0, 12) =~= sync());
    assert(sector.subrange(16, 2064) =~= kept.subrange(16, 2064));
    assert(kept.subrange(16, 2064) =~= data);
    header_parts(sector, header, frame, 1);
}

/// What a Mode 2 sector keeps when its codes are made.
proof fn mode2_parts(
    frame: u32,
    subheader: XaSubheader,
    subheader_copy: XaSubheader,
    data: Seq<u8>,
    sector: Seq<u8>,
    kept: int,
)
    requires
        header_of(frame, 2) is Ok,
        data.len() <= 2324,
        24 + data.len() <= kept,
        sector.len() == 2352,
        kept <= 2352,
        sector.take(kept) == mode2_plain(
            header_of(frame, 2)->Ok_0,
            subheader,
            subheader_copy,
            data,
        ).take(kept),
    ensures
        sector.subrange(0, 12) == sync(),
        !all_are(sector, 0),
        sector[15] == 2,
        msf_of(frame) == Ok::<Seq<u8>, Failure>(sector.subrange(12, 15)),
        subheader_of(sector.subrange(16, 20)) == subheader,
        subheader_of(sector.subrange(20, 24)) == subheader_copy,
        sector.subrange(16, 20) == subheader_bytes(subheader),
        sector.subrange(20, 24) == subheader_bytes(subheader_copy),
        sector.subrange(24, (24 + data.len()) as int) == data,
{
    let header = header_of(frame, 2)->Ok_0;
    let plain = mode2_plain(header, subheader, subheader_copy, data);
    plain_parts(header, subheader, subheader_copy, data);
    let same = sector.take(kept);
    assert(sector.subrange(0, 12) =~= same.subrange(0, 12));
    assert(plain.subrange(0, 12) =~= same.subrange(0, 12));
    assert(sector.subrange(12, 16) =~= same.subrange(12, 16));
    assert(plain.subrange(12, 16) =~= same.subrange(12, 16));
    assert(sector.subrange(16, 20) =~= same.subrange(16, 20));
    assert(plain.subrange(16, 20) =~= same.subrange(16, 20));
    assert(sector.subrange(20, 24) =~= same.subrange(20, 24));
    assert(plain.subrange(20, 24) =~= same.subrange(20, 24));
    assert(sector.subrange(24, (24 + data.len()) as int) =~= same.subrange(24, (24 + data.len()) as int));
    assert(plain.subrange(24, (24 + data.len()) as int) =~= same.subrange(24, (24 + data.len()) as int));
    header_parts(sector, header, frame, 2);
    subheader_round_trip(subheader, subheader_bytes(subheader));
    subheader_round_trip(subheader_copy, subheader_bytes(subheader_copy));
}

/// The elements of a column of the first code stand one row below the other.
proof fn column_stands(codeword: int, step: int)
    requires
        0 <= codeword < 86,
        0 <= step < 24,
    ensures
        layout_p().at(codeword, step) == codeword + 86 * step,
{
    let layout = layout_p();
    assert(layout.size() == 2064) by {
        let codewords = layout.codewords as int;
        let length = layout.length as int;
        assert(codewords * length == 2064) by (nonlinear_arith)
            requires
                codewords == 86,
                length == 24,
        ;
    }
    let half = codeword / 2;
    let major = layout.major as int;
    let minor = layout.minor as int;
    assert(half * major == 2 * half) by (nonlinear_arith)
        requires
            major == 2,
    ;
    assert(step * minor == 86 * step) by (nonlinear_arith)
        requires
            minor == 86,
    ;
    assert(2 * half + codeword % 2 == codeword);
    assert((codeword + 86 * step) % 2064 == codeword + 86 * step);
}

/// A column of the first code that holds nothing but its first element sums up to it.
proof fn column_sums_up(data: Seq<u8>, codeword: int, count: int)
    requires
        4 <= codeword < 86,
        0 < count <= 24,
        forall|step: int|
            1 <= step < 24 ==> #[trigger] covered(
                no_address(),
                data,
                layout_p().at(codeword, step),
            ) == 0,
    ensures
        weighed(no_address(), data, layout_p(), codeword, count).1 == data[codeword - 4],
    decreases count,
{
    reveal_with_fuel(weighed, 2);
    column_stands(codeword, 0);
    let value = data[codeword - 4];
    assert(0u8 ^ value == value && value ^ 0u8 == value) by (bit_vector);
    if count > 1 {
        column_sums_up(data, codeword, count - 1);
        assert(covered(no_address(), data, layout_p().at(codeword, count - 1)) == 0);
    }
}

/// A subheader byte is zero where all data and the whole first code are.
proof fn lone_byte_is_zero(sector: Seq<u8>, codeword: int)
    requires
        sector.len() == 2352,
        4 <= codeword < 12,
        all_are(sector.subrange(24, 2352), 0),
        sector.subrange(2076, 2248) == sector_p(sector, no_address()),
    ensures
        sector[12 + codeword] == 0,
{
    let data = sector.subrange(16, 2076);
    let rest = sector.subrange(24, 2352);
    assert forall|step: int| 1 <= step < 24 implies #[trigger] covered(
        no_address(),
        data,
        layout_p().at(codeword, step),
    ) == 0 by {
        column_stands(codeword, step);
        assert(data[codeword + 86 * step - 4] == rest[codeword + 86 * step - 12]);
    }
    column_sums_up(data, codeword, 24);
    let code = sector_p(sector, no_address());
    let (first, second) = parity(no_address(), data, layout_p(), codeword);
    assert(code[codeword] == first && code[86 + codeword] == second);
    assert(code[codeword] == sector.subrange(2076, 2248)[codeword]);
    assert(code[86 + codeword] == sector.subrange(2076, 2248)[86 + codeword]);
    assert(rest[2052 + codeword] == 0 && rest[2138 + codeword] == 0);
    let sum = data[codeword - 4];
    assert(first == 0u8 && first ^ sum == 0u8 ==> sum == 0u8) by (bit_vector);
}

/// A sector of the first form that is told as a gap holds nothing.
proof fn gap_holds_nothing(
    subheader: XaSubheader,
    subheader_copy: XaSubheader,
    data: Seq<u8>,
    sector: Seq<u8>,
)
    requires
        sector.len() == 2352,
        is_plain_gap(sector),
        data.len() <= 2324,
        sector.subrange(16, 20) == subheader_bytes(subheader),
        sector.subrange(20, 24) == subheader_bytes(subheader_copy),
        sector.subrange(24, (24 + data.len()) as int) == data,
        sector.subrange(2076, 2248) == sector_p(sector, no_address()),
    ensures
        all_are(data, 0),
        all_are(subheader_bytes(subheader), 0),
        all_are(subheader_bytes(subheader_copy), 0),
{
    if all_are(sector.subrange(16, 2352), 0) {
        let whole = sector.subrange(16, 2352);
        assert(sector.subrange(24, 2352) =~= whole.subrange(8, 2336));
    }
    let rest = sector.subrange(24, 2352);
    assert(all_are(rest, 0));
    assert forall|i: int| 0 <= i < data.len() implies data[i] == 0 by {
        assert(data[i] == sector.subrange(24, (24 + data.len()) as int)[i]);
        assert(data[i] == rest[i]);
    }
    assert forall|i: int| 0 <= i < 4 implies subheader_bytes(subheader)[i] == 0
        && subheader_bytes(subheader_copy)[i] == 0 by {
        lone_byte_is_zero(sector, 4 + i);
        lone_byte_is_zero(sector, 8 + i);
        assert(sector.subrange(16, 20)[i] == sector[16 + i]);
        assert(sector.subrange(20, 24)[i] == sector[20 + i]);
    }
}

/// Data and subheaders that are written to a sector of the first form are read back
/// from it. A sector that holds nothing, its subheaders and its data being zero, is not
/// told from a gap.
pub proof fn form1_survives(
    frame: u32,
    subheader: XaSubheader,
    subheader_copy: XaSubheader,
    data: Seq<u8>,
    sector: Seq<u8>,
    index: int,
    track: Track,
)
    requires
        form1_sector(frame, subheader, subheader_copy, data) == Ok::<Seq<u8>, Failure>(sector),
        !(all_are(subheader_bytes(subheader), 0) && all_are(subheader_bytes(subheader_copy), 0)
            && all_are(data, 0)),
        track.mode == 2,
        track.start_frame + index == frame,
        index >= 0,
    ensures
        sector_class(sector, index, track) == Ok::<SectorClassification, Failure>(
            SectorClassification {
                kind: Kind::Form1,
                subheader,
                subheader_copy,
                form2_edc_valid: false,
                noncompliant_ecc: false,
            },
        ),
        payload_of(sector, Kind::Form1) == data,
{
    let header = header_of(frame, 2)->Ok_0;
    let plain = mode2_plain(header, subheader, subheader_copy, data);
    plain_parts(header, subheader, subheader_copy, data);
    let edc = put(plain, 2072, edc_bytes(plain.subrange(16, 2072)));
    assert(!is_form2(plain));
    assert(sector == with_ecc(edc, no_address()));
    written_ecc_holds(edc, no_address());
    let kept = edc.take(2076);
    assert(sector.take(2076) == kept);
    assert(sector.take(2072) =~= kept.take(2072));
    assert(plain.take(2072) =~= kept.take(2072));
    assert(sector.subrange(16, 2072) =~= kept.subrange(16, 2072));
    assert(plain.subrange(16, 2072) =~= kept.subrange(16, 2072));
    assert(sector.subrange(2072, 2076) =~= kept.subrange(2072, 2076));
    assert(kept.subrange(2072, 2076) =~= edc_bytes(plain.subrange(16, 2072)));
    mode2_parts(frame, subheader, subheader_copy, data, sector, 2072);
    assert(sector.subrange(16, 20) == plain.subrange(16, 20));
    assert(!is_form2(sector));
    if is_plain_gap(sector) {
        gap_holds_nothing(subheader, subheader_copy, data, sector);
    }
}

/// Data and subheaders that are written to a sector of the second form are read
/// back from it.
pub proof fn form2_survives(
    frame: u32,
    subheader: XaSubheader,
    subheader_copy: XaSubheader,
    data: Seq<u8>,
    computed_edc: bool,
    sector: Seq<u8>,
    index: int,
    track: Track,
)
    requires
        form2_sector(frame, subheader, subheader_copy, data, computed_edc) == Ok::<
            Seq<u8>,
            Failure,
        >(sector),
        track.mode == 2,
        track.start_frame + index == frame,
        index >= 0,
    ensures
        sector_class(sector, index, track) == Ok::<SectorClassification, Failure>(
            SectorClassification {
                kind: Kind::Form2,
                subheader,
                subheader_copy,
                form2_edc_valid: computed_edc || edc_bytes(sector.subrange(16, 2348)) == fill(4, 0),
                noncompliant_ecc: false,
            },
        ),
        payload_of(sector, Kind::Form2) == data,
{
    let header = header_of(frame, 2)->Ok_0;
    let plain = mode2_plain(header, subheader, subheader_copy, data);
    plain_parts(header, subheader, subheader_copy, data);
    assert(is_form2(plain));
    assert(sector.take(2348) =~= plain.take(2348));
    assert(sector.subrange(16, 2348) =~= plain.subrange(16, 2348));
    if computed_edc {
        assert(sector.subrange(2348, 2352) =~= edc_bytes(plain.subrange(16, 2348)));
    } else {
        assert(sector.subrange(2348, 2352) =~= fill(4, 0));
    }
    mode2_parts(frame, subheader, subheader_copy, data, sector, 2348);
    assert(sector.subrange(16, 20) == plain.subrange(16, 20));
    assert(is_form2(sector));
}

/// The sector of an XA gap is read as one.
pub proof fn gap_survives(frame: u32, subheader: XaSubheader, sector: Seq<u8>, index: int, track: Track)
    requires
        gap_sector(frame, subheader) == Ok::<Seq<u8>, Failure>(sector),
        !subheader.submode.has(XaSubmodeFlag::Form2),
        track.mode == 2,
        track.start_frame + index == frame,
        index >= 0,
    ensures
        sector_class(sector, index, track) == Ok::<SectorClassification, Failure>(
            SectorClassification {
                kind: Kind::XaGap,
                subheader,
                subheader_copy: subheader,
                form2_edc_valid: false,
                noncompliant_ecc: false,
            },
        ),
{
    let header = header_of(frame, 2)->Ok_0;
    let none = Seq::<u8>::empty();
    plain_parts(header, subheader, subheader, none);
    assert(sector.take(2352) =~= sector);
    mode2_parts(frame, subheader, subheader, none, sector, 2352);
}

/// Making the codes of a sector of the first form again changes nothing.
pub proof fn form1_protection_is_stable(sector: Seq<u8>, bytes: Seq<u8>)
    requires
        mode2_protected(sector, true, false) == Ok::<(Seq<u8>, Kind), Failure>(
            (bytes, Kind::Form1),
        ),
    ensures
        mode2_protected(bytes, true, false) == Ok::<(Seq<u8>, Kind), Failure>((bytes, Kind::Form1)),
{
    let edc = put(sector, 2072, edc_bytes(sector.subrange(16, 2072)));
    written_ecc_holds(edc, no_address());
    let kept = edc.take(2076);
    assert(bytes.take(2076) == kept);
    assert(bytes.subrange(16, 2072) =~= kept.subrange(16, 2072));
    assert(sector.subrange(16, 2072) =~= kept.subrange(16, 2072));
    assert(bytes.subrange(16, 20) =~= kept.subrange(16, 20));
    assert(sector.subrange(16, 20) =~= kept.subrange(16, 20));
    assert(bytes[15] == kept[15]);
    assert(sector[15] == kept[15]);
    let again = put(bytes, 2072, edc_bytes(bytes.subrange(16, 2072)));
    assert(again =~= bytes) by {
        assert(bytes.subrange(2072, 2076) =~= kept.subrange(2072, 2076));
        assert(kept.subrange(2072, 2076) =~= edc_bytes(sector.subrange(16, 2072)));
        assert forall|i: int| 0 <= i < 2352 implies again[i] == bytes[i] by {
            if 2072 <= i < 2076 {
                assert(bytes[i] == bytes.subrange(2072, 2076)[i - 2072]);
            }
        }
    }
    let first = put(bytes, 2076, sector_p(bytes, no_address()));
    assert(first =~= bytes) by {
        assert forall|i: int| 0 <= i < 2352 implies first[i] == bytes[i] by {
            if 2076 <= i < 2248 {
                assert(bytes[i] == bytes.subrange(2076, 2248)[i - 2076]);
            }
        }
    }
    let second = put(bytes, 2248, sector_q(bytes, no_address()));
    assert(second =~= bytes) by {
        assert forall|i: int| 0 <= i < 2352 implies second[i] == bytes[i] by {
            if 2248 <= i < 2352 {
                assert(bytes[i] == bytes.subrange(2248, 2352)[i - 2248]);
            }
        }
    }
}

/// The track of an image that neither begins nor ends with sectors that are all zero.
pub open spec fn whole_track(mode: u8, start_frame: u32, count: int) -> Track {
    Track { mode, start_frame, first: 0, last: (count - 1) as usize }
}

/// `classes` are what the sectors of an image are.
pub open spec fn reads_as(image: Seq<u8>, track: Track, classes: Seq<SectorClassification>) -> bool {
    forall|i: int|
        0 <= i < classes.len() ==> sector_class(#[trigger] sector_at(image, i), i, track) == Ok::<
            SectorClassification,
            Failure,
        >(classes[i])
}

/// The sectors of an image, given what they are.
pub open spec fn models_of(image: Seq<u8>, classes: Seq<SectorClassification>) -> Seq<SectorModel> {
    Seq::new(
        classes.len(),
        |i: int| SectorModel { bytes: sector_at(image, i), class: classes[i] },
    )
}

proof fn sectors_read(image: Seq<u8>, track: Track, classes: Seq<SectorClassification>, index: int)
    requires
        image.len() == classes.len() * 2352,
        reads_as(image, track, classes),
        0 <= index <= classes.len(),
    ensures
        sectors_from(image, track, index, models_of(image, classes).take(index)) == Ok::<
            Seq<SectorModel>,
            Failure,
        >(models_of(image, classes)),
    decreases classes.len() - index,
{
    let models = models_of(image, classes);
    if index < classes.len() {
        sectors_read(image, track, classes, index + 1);
        assert(sector_class(sector_at(image, index), index, track) is Ok);
        assert(models.take(index).push(models[index]) =~= models.take(index + 1));
    } else {
        assert(models.take(index) =~= models);
    }
}

/// An image is read sector by sector: what each of its sectors is read as, it holds.
pub proof fn image_survives(
    image: Seq<u8>,
    mode: u8,
    start_frame: u32,
    classes: Seq<SectorClassification>,
)
    requires
        0 < classes.len() <= usize::MAX,
        image.len() == classes.len() * 2352,
        mode == 1 || mode == 2,
        sector_at(image, 0)[15] == mode,
        msf_of(start_frame) == Ok::<Seq<u8>, Failure>(sector_at(image, 0).subrange(12, 15)),
        !all_are(sector_at(image, 0), 0),
        !all_are(sector_at(image, classes.len() - 1), 0),
        reads_as(image, whole_track(mode, start_frame, classes.len() as int), classes),
    ensures
        parsed_image(image) == Ok::<(u32, Seq<SectorModel>), Failure>(
            (start_frame, models_of(image, classes)),
        ),
{
    let track = whole_track(mode, start_frame, classes.len() as int);
    frame_survives(start_frame, sector_at(image, 0).subrange(12, 15));
    assert(image.len() / 2352 == classes.len());
    assert(first_used(image, 0) == 0);
    assert(last_used(image, classes.len() as int) == classes.len() - 1);
    assert(track_of(image) == Ok::<Track, Failure>(track));
    sectors_read(image, track, classes, 0);
    assert(models_of(image, classes).take(0) =~= Seq::empty());
}

/// A track of Mode 1 sectors gives back every block that was written to it.
pub proof fn mode1_image_survives(image: Seq<u8>, start_frame: u32, blocks: Seq<Seq<u8>>)
    requires
        0 < blocks.len() <= usize::MAX,
        start_frame + blocks.len() <= u32::MAX,
        image.len() == blocks.len() * 2352,
        forall|i: int|
            0 <= i < blocks.len() ==> mode1_sector((start_frame + i) as u32, #[trigger] blocks[i])
                == Ok::<Seq<u8>, Failure>(sector_at(image, i)),
    ensures
        parsed_image(image) is Ok,
        parsed_image(image)->Ok_0.0 == start_frame,
        parsed_image(image)->Ok_0.1.len() == blocks.len(),
        forall|i: int|
            0 <= i < blocks.len() ==> {
                let sector = #[trigger] parsed_image(image)->Ok_0.1[i];
                payload_of(sector.bytes, sector.class.kind) == blocks[i]
            },
{
    let track = whole_track(1, start_frame, blocks.len() as int);
    let classes = Seq::new(
        blocks.len(),
        |i: int|
            classified(
                if all_are(blocks[i], 0) {
                    Kind::Mode1Gap
                } else {
                    Kind::Mode1
                },
            ),
    );
    assert forall|i: int| 0 <= i < classes.len() implies sector_class(
        #[trigger] sector_at(image, i),
        i,
        track,
    ) == Ok::<SectorClassification, Failure>(classes[i]) by {
        mode1_survives((start_frame + i) as u32, blocks[i], sector_at(image, i), i, track);
    }
    mode1_survives(start_frame, blocks[0], sector_at(image, 0), 0, track);
    mode1_survives(
        (start_frame + blocks.len() - 1) as u32,
        blocks[blocks.len() - 1],
        sector_at(image, blocks.len() - 1),
        blocks.len() - 1,
        track,
    );
    image_survives(image, 1, start_frame, classes);
    assert forall|i: int| 0 <= i < blocks.len() implies {
        let sector = #[trigger] parsed_image(image)->Ok_0.1[i];
        payload_of(sector.bytes, sector.class.kind) == blocks[i]
    } by {
        mode1_survives((start_frame + i) as u32, blocks[i], sector_at(image, i), i, track);
    }
}

} // verus!
