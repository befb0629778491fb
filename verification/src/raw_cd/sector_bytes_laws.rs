//! What the sectors of a track are written as, byte by byte.
use vstd::prelude::*;

use crate::bytes::{fill, le32, le32_spells, put};
use crate::raw_cd::ecc::{
    codeword_checks, covered, double, ecc_holds, layout_p, layout_q, sector_p, sector_q, weighed,
    with_ecc,
};
use crate::raw_cd::image::{block_of, payload_of};
use crate::raw_cd::msf::{frame_of, msf_of};
use crate::raw_cd::sector::{
    cd_rom_edc, form1_plain, form1_sector, form2_plain, form2_sector, gap_sector, mode1_plain,
    mode1_sector, Kind,
};
use crate::xa::{XaSubheader, XaSubmode, XaSubmodeFlag};

verus! {

/// A time names a frame: its three bytes are decimal digits of minutes, of less than sixty
/// seconds and of less than seventy-five frames, and so many frames they are.
pub proof fn time_counts_frames(msf: Seq<u8>)
    ensures
        ({
            let minutes = msf[0] / 16 * 10 + msf[0] % 16;
            let seconds = msf[1] / 16 * 10 + msf[1] % 16;
            let frames = msf[2] / 16 * 10 + msf[2] % 16;
            &&& frame_of(msf) is Ok <==> msf[0] / 16 < 10 && msf[0] % 16 < 10 && msf[1] / 16 < 6
                && msf[1] % 16 < 10 && msf[2] / 16 < 10 && msf[2] % 16 < 10 && frames < 75
            &&& frame_of(msf) matches Ok(frame) ==> frame == (minutes * 60 + seconds) * 75 + frames
        }),
{
}

/// A frame has a time exactly when it lies before the hundredth minute, and its time counts
/// it.
pub proof fn frame_is_timed(frame: u32)
    ensures
        msf_of(frame) is Ok <==> frame < 450000,
        msf_of(frame) matches Ok(msf) ==> {
            &&& msf.len() == 3
            &&& frame == ((msf[0] / 16 * 10 + msf[0] % 16) * 60 + (msf[1] / 16 * 10 + msf[1] % 16))
                * 75 + (msf[2] / 16 * 10 + msf[2] % 16)
            &&& msf[0] % 16 < 10 && msf[1] % 16 < 10 && msf[2] % 16 < 10
            &&& msf[0] / 16 < 10 && msf[1] / 16 < 6 && msf[2] / 16 < 8
            &&& msf[2] / 16 * 10 + msf[2] % 16 < 75
        },
{
}

/// A sector begins with the sync pattern, a zero byte, ten bytes of ones and a zero byte,
/// the time of its frame, and its mode.
pub open spec fn begins(sector: Seq<u8>, frame: u32, mode: u8) -> bool {
    &&& sector[0] == 0
    &&& forall|i: int| 1 <= i < 11 ==> sector[i] == 255
    &&& sector[11] == 0
    &&& frame == ((sector[12] / 16 * 10 + sector[12] % 16) * 60 + (sector[13] / 16 * 10 + sector[13]
        % 16)) * 75 + (sector[14] / 16 * 10 + sector[14] % 16)
    &&& sector[12] % 16 < 10 && sector[13] % 16 < 10 && sector[14] % 16 < 10
    &&& sector[12] / 16 < 10 && sector[13] / 16 < 6 && sector[14] / 16 < 8
    &&& sector[14] / 16 * 10 + sector[14] % 16 < 75
    &&& sector[15] == mode
}

/// A subheader stands in four bytes: the number of the file, the channel, the submode and
/// how the sector is coded.
pub open spec fn subheader_stands(sector: Seq<u8>, at: int, subheader: XaSubheader) -> bool {
    &&& sector[at] == subheader.file_number
    &&& sector[at + 1] == subheader.channel
    &&& sector[at + 2] == subheader.submode.0
    &&& sector[at + 3] == subheader.coding_info
}

/// Data stand in a sector from a place on.
pub open spec fn data_stand(sector: Seq<u8>, at: int, data: Seq<u8>) -> bool {
    forall|i: int| 0 <= i < data.len() ==> sector[at + i] == #[trigger] data[i]
}

/// Four bytes of a sector are an error detection code, the least significant byte first.
pub open spec fn code_stands(sector: Seq<u8>, at: int, code: u32) -> bool {
    sector[at] + sector[at + 1] * 256 + sector[at + 2] * 65536 + sector[at + 3] * 16777216 == code
}

/// A Mode 1 sector: its beginning, 2048 bytes of data from byte 16 on, and from byte 2064 on
/// the error detection code of all that, eight zero bytes, and the error correction, which
/// covers its header.
pub proof fn mode1_is_spelled(frame: u32, data: Seq<u8>)
    ensures
        mode1_sector(frame, data) is Ok <==> data.len() == 2048 && frame < 450000,
        mode1_sector(frame, data) matches Ok(sector) ==> {
            &&& sector.len() == 2352
            &&& begins(sector, frame, 1)
            &&& data_stand(sector, 16, data)
            &&& code_stands(sector, 2064, cd_rom_edc(sector.subrange(0, 2064)))
            &&& forall|i: int| 2068 <= i < 2076 ==> sector[i] == 0
            &&& ecc_holds(sector, sector.subrange(12, 16))
        },
{
    frame_is_timed(frame);
    if let Ok(plain) = mode1_plain(frame, data) {
        let code = cd_rom_edc(plain.subrange(0, 2064));
        le32_spells(code);
        let coded = put(plain, 2064, le32(code));
        let address = coded.subrange(12, 16);
        let sector = with_ecc(coded, address);
        correction_is_written(coded, address);
        assert(sector.subrange(0, 2064) =~= plain.subrange(0, 2064));
        assert(sector.subrange(12, 16) =~= address);
        assert(sector[2064] == le32(code)[0] && sector[2065] == le32(code)[1] && sector[2066]
            == le32(code)[2] && sector[2067] == le32(code)[3]);
    }
}

/// What is written before the error correction of a sector stays, and the error correction
/// is right.
proof fn correction_is_written(sector: Seq<u8>, address: Seq<u8>)
    requires
        sector.len() == 2352,
    ensures
        with_ecc(sector, address).len() == 2352,
        forall|i: int| 0 <= i < 2076 ==> with_ecc(sector, address)[i] == sector[i],
        ecc_holds(with_ecc(sector, address), address),
{
    let first = put(sector, 2076, sector_p(sector, address));
    let whole = with_ecc(sector, address);
    assert(whole.subrange(16, 2076) =~= sector.subrange(16, 2076));
    assert(whole.subrange(16, 2248) =~= first.subrange(16, 2248));
    assert(whole.subrange(2076, 2248) =~= sector_p(sector, address));
    assert(whole.subrange(2248, 2352) =~= sector_q(first, address));
}

/// A Mode 2 sector of the first form: its beginning, its subheader twice, 2048 bytes of data
/// from byte 24 on, and from byte 2072 on the error detection code of the subheaders and the
/// data, and the error correction, which takes the header for zeros. It is refused where
/// its subheader says that it has the second form.
pub proof fn form1_is_spelled(
    frame: u32,
    subheader: XaSubheader,
    subheader_copy: XaSubheader,
    data: Seq<u8>,
)
    ensures
        form1_sector(frame, subheader, subheader_copy, data) is Ok <==> data.len() == 2048 && frame
            < 450000 && subheader.submode.0 / 32 % 2 == 0,
        form1_sector(frame, subheader, subheader_copy, data) matches Ok(sector) ==> {
            &&& sector.len() == 2352
            &&& begins(sector, frame, 2)
            &&& subheader_stands(sector, 16, subheader)
            &&& subheader_stands(sector, 20, subheader_copy)
            &&& data_stand(sector, 24, data)
            &&& code_stands(sector, 2072, cd_rom_edc(sector.subrange(16, 2072)))
            &&& ecc_holds(sector, seq![0u8, 0u8, 0u8, 0u8])
        },
{
    frame_is_timed(frame);
    bits_of_submode(subheader.submode);
    if let Ok(plain) = form1_plain(frame, subheader, subheader_copy, data) {
        assert(plain.subrange(16, 20) =~= seq![
            subheader.file_number,
            subheader.channel,
            subheader.submode.0,
            subheader.coding_info,
        ]);
        let code = cd_rom_edc(plain.subrange(16, 2072));
        le32_spells(code);
        let coded = put(plain, 2072, le32(code));
        let address = seq![0u8, 0u8, 0u8, 0u8];
        assert(fill(4, 0) =~= address);
        let sector = with_ecc(coded, address);
        correction_is_written(coded, address);
        assert(sector.subrange(16, 2072) =~= plain.subrange(16, 2072));
        assert(sector[2072] == le32(code)[0] && sector[2073] == le32(code)[1] && sector[2074]
            == le32(code)[2] && sector[2075] == le32(code)[3]);
    }
}

/// A Mode 2 sector of the second form: its beginning, its subheader twice, 2324 bytes of data
/// from byte 24 on, and the error detection code of the subheaders and the data, or zeros.
/// It is refused where its subheader says that it has the first form.
pub proof fn form2_is_spelled(
    frame: u32,
    subheader: XaSubheader,
    subheader_copy: XaSubheader,
    data: Seq<u8>,
    computed_edc: bool,
)
    ensures
        form2_sector(frame, subheader, subheader_copy, data, computed_edc) is Ok <==> data.len()
            == 2324 && frame < 450000 && subheader.submode.0 / 32 % 2 == 1,
        form2_sector(frame, subheader, subheader_copy, data, computed_edc) matches Ok(sector) ==> {
            &&& sector.len() == 2352
            &&& begins(sector, frame, 2)
            &&& subheader_stands(sector, 16, subheader)
            &&& subheader_stands(sector, 20, subheader_copy)
            &&& data_stand(sector, 24, data)
            &&& code_stands(
                sector,
                2348,
                if computed_edc {
                    cd_rom_edc(sector.subrange(16, 2348))
                } else {
                    0
                },
            )
        },
{
    frame_is_timed(frame);
    bits_of_submode(subheader.submode);
    if let Ok(plain) = form2_plain(frame, subheader, subheader_copy, data) {
        assert(plain.subrange(16, 20) =~= seq![
            subheader.file_number,
            subheader.channel,
            subheader.submode.0,
            subheader.coding_info,
        ]);
        let code = cd_rom_edc(plain.subrange(16, 2348));
        le32_spells(code);
        let stored = if computed_edc {
            le32(code)
        } else {
            fill(4, 0)
        };
        let sector = put(plain, 2348, stored);
        assert(sector.subrange(16, 2348) =~= plain.subrange(16, 2348));
        assert(sector[2348] == stored[0] && sector[2349] == stored[1] && sector[2350] == stored[2]
            && sector[2351] == stored[3]);
    }
}

/// A sector of an XA gap: its beginning, its subheader twice, and zeros.
pub proof fn gap_is_spelled(frame: u32, subheader: XaSubheader)
    ensures
        gap_sector(frame, subheader) is Ok <==> frame < 450000,
        gap_sector(frame, subheader) matches Ok(sector) ==> {
            &&& sector.len() == 2352
            &&& begins(sector, frame, 2)
            &&& subheader_stands(sector, 16, subheader)
            &&& subheader_stands(sector, 20, subheader)
            &&& forall|i: int| 24 <= i < 2352 ==> sector[i] == 0
        },
{
    frame_is_timed(frame);
}

/// The bits of a submode, from the lowest on: the end of a record, video, audio, data, a
/// trigger, the second form, real time, and the end of a file.
pub proof fn bits_of_submode(submode: XaSubmode)
    ensures
        submode.has(XaSubmodeFlag::EndOfRecord) <==> submode.0 % 2 == 1,
        submode.has(XaSubmodeFlag::Video) <==> submode.0 / 2 % 2 == 1,
        submode.has(XaSubmodeFlag::Audio) <==> submode.0 / 4 % 2 == 1,
        submode.has(XaSubmodeFlag::Data) <==> submode.0 / 8 % 2 == 1,
        submode.has(XaSubmodeFlag::Trigger) <==> submode.0 / 16 % 2 == 1,
        submode.has(XaSubmodeFlag::Form2) <==> submode.0 / 32 % 2 == 1,
        submode.has(XaSubmodeFlag::Realtime) <==> submode.0 / 64 % 2 == 1,
        submode.has(XaSubmodeFlag::EndOfFile) <==> submode.0 / 128 % 2 == 1,
{
    let bits = submode.0;
    assert((bits & 1 != 0 <==> bits % 2 == 1) && (bits & 2 != 0 <==> bits / 2 % 2 == 1) && (bits & 4
        != 0 <==> bits / 4 % 2 == 1) && (bits & 8 != 0 <==> bits / 8 % 2 == 1) && (bits & 16 != 0
        <==> bits / 16 % 2 == 1) && (bits & 32 != 0 <==> bits / 32 % 2 == 1) && (bits & 64 != 0
        <==> bits / 64 % 2 == 1) && (bits & 128 != 0 <==> bits / 128 % 2 == 1)) by (bit_vector);
}

/// The byte that error correction takes at a position, counted from the header on: one of
/// the address that stands for the header, or one of the sector.
pub open spec fn corrected(sector: Seq<u8>, address: Seq<u8>, position: int) -> u8 {
    if position < 4 {
        address[position]
    } else {
        sector[12 + position]
    }
}

/// Twice an element of the field of 256 elements whose polynomial is 285.
pub open spec fn twice(value: u8) -> u8 {
    if value < 128 {
        (2 * value) as u8
    } else {
        ((2 * value - 256) as u8) ^ 29u8
    }
}

/// The sum of the first elements of a column: every eighty-sixth byte.
pub open spec fn column_sum(sector: Seq<u8>, address: Seq<u8>, column: int, count: int) -> u8
    decreases count,
{
    if count <= 0 {
        0
    } else {
        column_sum(sector, address, column, count - 1) ^ corrected(
            sector,
            address,
            column + 86 * (count - 1),
        )
    }
}

/// The sum of the first elements of a column, where each weighs twice the next.
pub open spec fn column_weight(sector: Seq<u8>, address: Seq<u8>, column: int, count: int) -> u8
    decreases count,
{
    if count <= 0 {
        0
    } else {
        twice(
            column_weight(sector, address, column, count - 1) ^ corrected(
                sector,
                address,
                column + 86 * (count - 1),
            ),
        )
    }
}

/// The sum of the first elements of a diagonal: every eighty-eighth byte, round the 2236
/// bytes that it covers.
pub open spec fn diagonal_sum(sector: Seq<u8>, address: Seq<u8>, diagonal: int, count: int) -> u8
    decreases count,
{
    if count <= 0 {
        0
    } else {
        diagonal_sum(sector, address, diagonal, count - 1) ^ corrected(
            sector,
            address,
            (diagonal / 2 * 86 + diagonal % 2 + 88 * (count - 1)) % 2236,
        )
    }
}

/// The sum of the first elements of a diagonal, where each weighs twice the next.
pub open spec fn diagonal_weight(
    sector: Seq<u8>,
    address: Seq<u8>,
    diagonal: int,
    count: int,
) -> u8
    decreases count,
{
    if count <= 0 {
        0
    } else {
        twice(
            diagonal_weight(sector, address, diagonal, count - 1) ^ corrected(
                sector,
                address,
                (diagonal / 2 * 86 + diagonal % 2 + 88 * (count - 1)) % 2236,
            ),
        )
    }
}

proof fn twice_is_double(value: u8)
    ensures
        double(value) == twice(value),
{
    assert((value & 0x80u8 != 0 <==> value >= 128) && (value < 128 ==> (value & 0x7fu8) << 1u8
        == 2 * value) && (value >= 128 ==> (value & 0x7fu8) << 1u8 == 2 * value - 256)) by (bit_vector);
}

proof fn column_is_weighed(sector: Seq<u8>, address: Seq<u8>, column: int, count: int)
    requires
        sector.len() == 2352,
        address.len() == 4,
        0 <= column < 86,
        0 <= count <= 24,
    ensures
        weighed(address, sector.subrange(16, 2076), layout_p(), column, count) == (
            column_weight(sector, address, column, count),
            column_sum(sector, address, column, count),
        ),
    decreases count,
{
    if count > 0 {
        column_is_weighed(sector, address, column, count - 1);
        let data = sector.subrange(16, 2076);
        let at = layout_p().at(column, count - 1);
        assert(at == column + 86 * (count - 1)) by {
            assert(column / 2 * 2 + column % 2 == column);
            assert(layout_p().size() == 2064);
            assert((count - 1) * 86 == 86 * (count - 1));
            assert(0 <= column + 86 * (count - 1) < 2064);
            vstd::arithmetic::div_mod::lemma_small_mod((column + 86 * (count - 1)) as nat, 2064);
        }
        assert(covered(address, data, at) == corrected(sector, address, at));
        twice_is_double(
            column_weight(sector, address, column, count - 1) ^ corrected(sector, address, at),
        );
    }
}

proof fn diagonal_is_weighed(sector: Seq<u8>, address: Seq<u8>, diagonal: int, count: int)
    requires
        sector.len() == 2352,
        address.len() == 4,
        0 <= diagonal < 52,
        0 <= count <= 43,
    ensures
        weighed(address, sector.subrange(16, 2248), layout_q(), diagonal, count) == (
            diagonal_weight(sector, address, diagonal, count),
            diagonal_sum(sector, address, diagonal, count),
        ),
    decreases count,
{
    if count > 0 {
        diagonal_is_weighed(sector, address, diagonal, count - 1);
        let data = sector.subrange(16, 2248);
        let at = layout_q().at(diagonal, count - 1);
        assert(at == (diagonal / 2 * 86 + diagonal % 2 + 88 * (count - 1)) % 2236) by {
            assert(layout_q().size() == 2236);
            assert((count - 1) * 88 == 88 * (count - 1));
        }
        assert(0 <= at < 2236);
        assert(covered(address, data, at) == corrected(sector, address, at));
        twice_is_double(
            diagonal_weight(sector, address, diagonal, count - 1) ^ corrected(sector, address, at),
        );
    }
}

/// The error correction of a sector is right where every column and every diagonal of its
/// bytes sums up to nothing with its two parity bytes, both plainly and with each byte
/// weighing twice the next. The parity of the columns stands at bytes 2076 and 2162, that of
/// the diagonals, which cover the columns' too, at bytes 2248 and 2300.
pub proof fn right_correction_cancels_out(sector: Seq<u8>, address: Seq<u8>)
    requires
        sector.len() == 2352,
        address.len() == 4,
        ecc_holds(sector, address),
    ensures
        forall|n: int|
            0 <= n < 86 ==> #[trigger] column_sum(sector, address, n, 24) ^ sector[2076 + n]
                ^ sector[2162 + n] == 0,
        forall|n: int|
            0 <= n < 86 ==> twice(
                #[trigger] column_weight(sector, address, n, 24) ^ sector[2076 + n],
            ) ^ sector[2162 + n] == 0,
        forall|n: int|
            0 <= n < 52 ==> #[trigger] diagonal_sum(sector, address, n, 43) ^ sector[2248 + n]
                ^ sector[2300 + n] == 0,
        forall|n: int|
            0 <= n < 52 ==> twice(
                #[trigger] diagonal_weight(sector, address, n, 43) ^ sector[2248 + n],
            ) ^ sector[2300 + n] == 0,
{
    assert forall|n: int| 0 <= n < 86 implies #[trigger] column_sum(sector, address, n, 24)
        ^ sector[2076 + n] ^ sector[2162 + n] == 0 && twice(
        column_weight(sector, address, n, 24) ^ sector[2076 + n],
    ) ^ sector[2162 + n] == 0 by {
        let data = sector.subrange(16, 2076);
        column_is_weighed(sector, address, n, 24);
        codeword_checks(address, data, layout_p(), n);
        let parity = sector_p(sector, address);
        assert(sector[2076 + n] == sector.subrange(2076, 2248)[n]);
        assert(sector[2162 + n] == sector.subrange(2076, 2248)[86 + n]);
        twice_is_double(column_weight(sector, address, n, 24) ^ sector[2076 + n]);
    }
    assert forall|n: int| 0 <= n < 86 implies twice(
        #[trigger] column_weight(sector, address, n, 24) ^ sector[2076 + n],
    ) ^ sector[2162 + n] == 0 by {
        assert(column_sum(sector, address, n, 24) ^ sector[2076 + n] ^ sector[2162 + n] == 0);
    }
    assert forall|n: int| 0 <= n < 52 implies #[trigger] diagonal_sum(sector, address, n, 43)
        ^ sector[2248 + n] ^ sector[2300 + n] == 0 && twice(
        diagonal_weight(sector, address, n, 43) ^ sector[2248 + n],
    ) ^ sector[2300 + n] == 0 by {
        let data = sector.subrange(16, 2248);
        diagonal_is_weighed(sector, address, n, 43);
        codeword_checks(address, data, layout_q(), n);
        let parity = sector_q(sector, address);
        assert(sector[2248 + n] == sector.subrange(2248, 2352)[n]);
        assert(sector[2300 + n] == sector.subrange(2248, 2352)[52 + n]);
        twice_is_double(diagonal_weight(sector, address, n, 43) ^ sector[2248 + n]);
    }
    assert forall|n: int| 0 <= n < 52 implies twice(
        #[trigger] diagonal_weight(sector, address, n, 43) ^ sector[2248 + n],
    ) ^ sector[2300 + n] == 0 by {
        assert(diagonal_sum(sector, address, n, 43) ^ sector[2248 + n] ^ sector[2300 + n] == 0);
    }
}

/// Where the contents of a sector stand: a logical block of 2048 bytes from byte 16 on in
/// Mode 1 and from byte 24 on in Mode 2, and a payload of 2324 bytes from byte 24 on in the
/// second form.
pub proof fn contents_stand(bytes: Seq<u8>, kind: Kind, index: int)
    requires
        bytes.len() == 2352,
    ensures
        block_of(bytes, kind).len() == 2048,
        payload_of(bytes, kind).len() == (if kind == Kind::Form2 {
            2324int
        } else {
            2048
        }),
        0 <= index < 2048 && (kind == Kind::Mode1 || kind == Kind::Mode1Gap) ==> block_of(
            bytes,
            kind,
        )[index] == bytes[16 + index] && payload_of(bytes, kind)[index] == bytes[16 + index],
        0 <= index < 2048 && kind != Kind::Mode1 && kind != Kind::Mode1Gap ==> block_of(
            bytes,
            kind,
        )[index] == bytes[24 + index],
        0 <= index < payload_of(bytes, kind).len() && kind != Kind::Mode1 && kind != Kind::Mode1Gap
            ==> payload_of(bytes, kind)[index] == bytes[24 + index],
{
}

} // verus!
