//! Reading and writing raw sectors.
use gcdgold::raw_cd::ecc::{make_ecc_tables, write_ecc};
use gcdgold::raw_cd::image::{classify_mode1, classify_mode2, parse_image};
use gcdgold::raw_cd::msf::{frame_to_msf, msf_to_frame, to_bcd};
use gcdgold::raw_cd::sector::{
    frame_header, generate_edc, is_stored_edc, regenerate_mode2_protection, write_form1_codes,
    write_form2_code, write_mode1_codes, Kind, SectorWriter,
};
use gcdgold::raw_cd::{LOGICAL_BLOCK_SIZE, RAW_SECTOR_SIZE};
use gcdgold::xa::{XaSubheader, XaSubmode, XaSubmodeFlag};
use sha1::{Digest, Sha1};

#[test]
fn all_xa_submode_bitmasks_round_trip_through_named_flags() {
    for bits in 0..=u8::MAX {
        let flags = XaSubmode::from_bits(bits).flags();
        let parsed = XaSubmode::from_flags(&flags).unwrap();
        assert_eq!(parsed.bits(), bits);
    }
}

#[test]
fn xa_submode_serializes_flags_in_bit_order() {
    let names = |submode: XaSubmode| {
        submode
            .flags()
            .into_iter()
            .map(|flag| flag.name())
            .collect::<Vec<_>>()
    };
    assert_eq!(
        names(XaSubmode::from_bits(u8::MAX)),
        [
            "end_of_record",
            "video",
            "audio",
            "data",
            "trigger",
            "form2",
            "realtime",
            "end_of_file",
        ]
    );

    let reordered = XaSubmode::from_flags(&[
        XaSubmodeFlag::EndOfFile,
        XaSubmodeFlag::Data,
        XaSubmodeFlag::EndOfRecord,
    ])
    .unwrap();
    assert_eq!(names(reordered), ["end_of_record", "data", "end_of_file"]);
}

#[test]
fn xa_submode_rejects_duplicates() {
    let duplicate =
        XaSubmode::from_flags(&[XaSubmodeFlag::Data, XaSubmodeFlag::Data]).unwrap_err();
    assert_eq!(duplicate.message(), "duplicate XA submode flag data");
}

#[test]
fn xa_subheader_maps_named_fields_to_exact_bytes() {
    let subheader = XaSubheader::from([7, 8, 0x89, 10]);
    assert_eq!(subheader.file_number, 7);
    assert_eq!(subheader.channel, 8);
    assert_eq!(subheader.submode.bits(), 0x89);
    assert_eq!(subheader.coding_info, 10);
    assert_eq!(subheader.to_bytes(), [7, 8, 0x89, 10]);
}

#[test]
fn msf_crosses_frame_and_second_boundaries() {
    assert_eq!(frame_to_msf(150).unwrap(), [0x00, 0x02, 0x00]);
    assert_eq!(frame_to_msf(224).unwrap(), [0x00, 0x02, 0x74]);
    assert_eq!(frame_to_msf(225).unwrap(), [0x00, 0x03, 0x00]);
    assert_eq!(msf_to_frame([0x01, 0x00, 0x00]).unwrap(), 4500);
}

#[test]
fn generated_form2_zero_payload_has_nonzero_edc() {
    let mut writer = SectorWriter::new();
    let sector = writer
        .form2(162, [0, 0, 0x20, 0].into(), &[0; 2324], true)
        .unwrap();
    assert_eq!(&sector[2348..2352], &[0x3f, 0x13, 0xb0, 0xbe]);
    let (_, parsed) = parse_image(&sector).unwrap();
    assert!(parsed[0].form2_edc_valid);
}

#[test]
fn canonical_mode1_sector_exposes_its_logical_block() {
    let payload = [0x5a; LOGICAL_BLOCK_SIZE];
    let raw = SectorWriter::new().mode1(150, &payload).unwrap();

    let (start_frame, parsed) = parse_image(&raw).unwrap();

    assert_eq!(start_frame, 150);
    assert_eq!(parsed.len(), 1);
    assert_eq!(parsed[0].kind, Kind::Mode1);
    assert_eq!(parsed[0].logical_block(), payload);
    assert_eq!(parsed[0].payload(), payload);
}

#[test]
fn canonical_zero_payload_mode1_sector_is_a_mode1_gap() {
    let raw = SectorWriter::new()
        .mode1(150, &[0; LOGICAL_BLOCK_SIZE])
        .unwrap();

    let (_, parsed) = parse_image(&raw).unwrap();

    assert_eq!(parsed[0].kind, Kind::Mode1Gap);
    assert!(parsed[0].payload().iter().all(|byte| *byte == 0));
}

#[test]
fn terminal_all_zero_raw_sector_is_bounded() {
    let mut raw = SectorWriter::new()
        .form2(150, [0, 0, 0x20, 0].into(), &[0; 2324], true)
        .unwrap();
    raw.extend_from_slice(&[0; RAW_SECTOR_SIZE]);

    let (start_frame, parsed) = parse_image(&raw).unwrap();

    assert_eq!(start_frame, 150);
    assert_eq!(parsed.len(), 2);
    assert_eq!(parsed[1].bytes, [0; RAW_SECTOR_SIZE]);
}

#[test]
fn leading_all_zero_raw_run_backtracks_the_framed_start_msf() {
    let mut raw = vec![0; 2 * RAW_SECTOR_SIZE];
    raw.extend(
        SectorWriter::new()
            .form1(152, XaSubheader::with_submode(XaSubmode::single(XaSubmodeFlag::Data)), &[7; 2048])
            .unwrap(),
    );

    let (start_frame, parsed) = parse_image(&raw).unwrap();

    assert_eq!(start_frame, 150);
    assert_eq!(parsed[0].kind, Kind::RawZero);
    assert_eq!(parsed[1].kind, Kind::RawZero);
    assert_eq!(parsed[2].kind, Kind::Form1);
}

#[test]
fn parallel_parse_preserves_order_and_reports_the_first_error() {
    let mut writer = SectorWriter::new();
    let mut raw = Vec::new();
    for index in 0..8_u32 {
        raw.extend_from_slice(
            &writer
                .mode1(150 + index, &[index as u8; LOGICAL_BLOCK_SIZE])
                .unwrap(),
        );
    }
    let (_, parsed) = parse_image(&raw).unwrap();
    assert_eq!(
        parsed
            .iter()
            .map(|sector| sector.payload()[0])
            .collect::<Vec<_>>(),
        (0..8).collect::<Vec<_>>()
    );

    raw[2 * RAW_SECTOR_SIZE + 2076] ^= 1;
    raw[6 * RAW_SECTOR_SIZE + 2064] ^= 1;
    assert_eq!(
        parse_image(&raw).unwrap_err().message(),
        "invalid Mode 1 ECC at sector 2"
    );
}

#[test]
fn parallel_parse_rejects_the_first_nonterminal_raw_zero_sector() {
    let mut writer = SectorWriter::new();
    let mut raw = writer
        .form2(150, [0, 0, 0x20, 0].into(), &[0; 2324], true)
        .unwrap();
    raw.extend_from_slice(&[0; RAW_SECTOR_SIZE]);
    raw.extend_from_slice(
        &writer
            .form2(152, [0, 0, 0x20, 0].into(), &[0; 2324], true)
            .unwrap(),
    );
    assert_eq!(
        parse_image(&raw).unwrap_err().message(),
        "all-zero raw sectors are supported only as boundary runs"
    );
}

#[test]
fn completely_zeroed_mode2_tail_is_an_xa_gap() {
    let mut writer = SectorWriter::new();
    let raw = writer.xa_gap(150, XaSubheader::default()).unwrap();
    let (_, parsed) = parse_image(&raw).unwrap();
    assert_eq!(parsed[0].kind, Kind::XaGap);
    assert!(!parsed[0].noncompliant_ecc);
}

#[test]
fn zero_edc_form2_is_classified_from_the_form_bit() {
    let mut writer = SectorWriter::new();
    let raw = writer
        .form2(150, [0, 0, 0x20, 0].into(), &[0; 2324], false)
        .unwrap();
    let (_, parsed) = parse_image(&raw).unwrap();
    assert_eq!(parsed[0].kind, Kind::Form2);
    assert!(!parsed[0].form2_edc_valid);
}

#[test]
fn zero_edc_nonzero_form2_payload_is_classified_from_the_form_bit() {
    let raw = SectorWriter::new()
        .form2(1_114, [1, 2, 0x24, 3].into(), &[0x5a; 2324], false)
        .unwrap();

    let (_, sectors) = parse_image(&raw).unwrap();
    assert_eq!(sectors[0].kind, Kind::Form2);
    assert!(!sectors[0].form2_edc_valid);
    assert_eq!(&sectors[0].bytes[2348..2352], &[0; 4]);
    assert!(sectors[0].payload().iter().any(|byte| *byte != 0));
}

#[test]
fn primary_subheader_classifies_sectors_when_the_duplicate_differs() {
    let mut writer = SectorWriter::new();
    let form2 = writer
        .form2_with_subheaders(
            13_486,
            [0x01, 0x03, 0xe2, 0x18].into(),
            [0x01, 0x19, 0xb2, 0xad].into(),
            &[0x5a; 2324],
            false,
        )
        .unwrap();
    let (_, sectors) = parse_image(&form2).unwrap();
    assert_eq!(sectors[0].kind, Kind::Form2);
    assert_eq!(sectors[0].subheader, [0x01, 0x03, 0xe2, 0x18].into());
    assert_eq!(sectors[0].subheader_copy, [0x01, 0x19, 0xb2, 0xad].into());
    assert!(!sectors[0].form2_edc_valid);

    let form1 = writer
        .form1_with_subheaders(
            13_487,
            [0x01, 0x0f, 0xd3, 0xeb].into(),
            [0x01, 0x0d, 0x9d, 0x23].into(),
            &[0xa5; LOGICAL_BLOCK_SIZE],
        )
        .unwrap();
    let (_, sectors) = parse_image(&form1).unwrap();
    assert_eq!(sectors[0].kind, Kind::Form1);
    assert_eq!(sectors[0].subheader, [0x01, 0x0f, 0xd3, 0xeb].into());
    assert_eq!(sectors[0].subheader_copy, [0x01, 0x0d, 0x9d, 0x23].into());
}

#[test]
fn duplicate_subheader_overlay_precedes_form1_protection_generation() {
    let source = SectorWriter::new()
        .form1_with_subheaders(
            13_487,
            [0x01, 0x0f, 0xd3, 0xeb].into(),
            [0x01, 0x0d, 0x9d, 0x23].into(),
            &[0xa5; LOGICAL_BLOCK_SIZE],
        )
        .unwrap();
    let mut canonical = source.clone();
    canonical[20..24].copy_from_slice(&source[16..20]);
    regenerate_mode2_protection(&mut canonical, false, false).unwrap();
    assert_ne!(canonical, source);
    assert_eq!(canonical[16..20], canonical[20..24]);

    canonical[20..24].copy_from_slice(&source[20..24]);
    regenerate_mode2_protection(&mut canonical, false, false).unwrap();
    assert_eq!(canonical, source);
}

#[test]
fn duplicate_subheader_overlay_precedes_zero_form2_edc_generation() {
    let source = SectorWriter::new()
        .form2_with_subheaders(
            13_486,
            [0x01, 0x03, 0xe2, 0x18].into(),
            [0x01, 0x19, 0xb2, 0xad].into(),
            &[0x5a; 2324],
            false,
        )
        .unwrap();
    let mut canonical = source.clone();
    canonical[20..24].copy_from_slice(&source[16..20]);
    regenerate_mode2_protection(&mut canonical, false, false).unwrap();
    assert_ne!(canonical, source);
    assert_eq!(&canonical[2348..2352], &[0; 4]);

    canonical[20..24].copy_from_slice(&source[20..24]);
    regenerate_mode2_protection(&mut canonical, false, false).unwrap();
    assert_eq!(canonical, source);
}

#[test]
fn sector_writer_preserves_distinct_subheader_copies_before_protection() {
    let mut writer = SectorWriter::new();
    let primary: XaSubheader = [1, 2, 0x08, 4].into();
    let duplicate: XaSubheader = [5, 6, 0x28, 8].into();
    let form1 = writer
        .form1_with_subheaders(150, primary, duplicate, &[0x11; LOGICAL_BLOCK_SIZE])
        .unwrap();
    assert_eq!(&form1[16..20], &[1, 2, 0x08, 4]);
    assert_eq!(&form1[20..24], &[5, 6, 0x28, 8]);
    let (_, parsed) = parse_image(&form1).unwrap();
    assert_eq!(parsed[0].kind, Kind::Form1);
    assert_eq!(parsed[0].subheader_copy, duplicate);

    let primary: XaSubheader = [9, 10, 0x20, 12].into();
    let duplicate: XaSubheader = [13, 14, 0, 16].into();
    let form2 = writer
        .form2_with_subheaders(151, primary, duplicate, &[0x22; 2324], false)
        .unwrap();
    assert_eq!(&form2[16..20], &[9, 10, 0x20, 12]);
    assert_eq!(&form2[20..24], &[13, 14, 0, 16]);
    let (_, parsed) = parse_image(&form2).unwrap();
    assert_eq!(parsed[0].kind, Kind::Form2);
    assert_eq!(parsed[0].subheader_copy, duplicate);
}

#[test]
fn final_xa_gap_accepts_ecc_calculated_with_the_recorded_header() {
    let frame = 81_860;
    let raw = SectorWriter::new()
        .xa_gap_with_recorded_header_ecc(frame, XaSubheader::default())
        .unwrap();

    let (parsed_frame, sectors) = parse_image(&raw).unwrap();
    assert_eq!(parsed_frame, frame);
    assert_eq!(sectors[0].kind, Kind::XaGap);
    assert!(sectors[0].noncompliant_ecc);

    let generated = SectorWriter::new()
        .xa_gap_with_recorded_header_ecc(frame, XaSubheader::default())
        .unwrap();
    assert_eq!(generated, raw);
}

#[test]
fn native_sector_writer_matches_ecmlib_golden_vectors() {
    let mut writer = SectorWriter::new();
    let sectors = [
        (
            "mode1",
            writer.mode1(150, &[0x5a; LOGICAL_BLOCK_SIZE]).unwrap(),
        ),
        (
            "form1_distinct",
            writer
                .form1_with_subheaders(
                    151,
                    [1, 2, 0x08, 4].into(),
                    [5, 6, 0x08, 8].into(),
                    &[0x11; LOGICAL_BLOCK_SIZE],
                )
                .unwrap(),
        ),
        (
            "form2_computed",
            writer
                .form2(152, [9, 10, 0x20, 12].into(), &[0x22; 2324], true)
                .unwrap(),
        ),
        (
            "form2_zero",
            writer
                .form2(153, [9, 10, 0x20, 12].into(), &[0x22; 2324], false)
                .unwrap(),
        ),
        (
            "xa_gap",
            writer.xa_gap(154, XaSubheader::default()).unwrap(),
        ),
        (
            "recorded_header_gap",
            writer
                .xa_gap_with_recorded_header_ecc(81_860, XaSubheader::default())
                .unwrap(),
        ),
    ];
    let expected = [
        ("mode1", "0be5c2cdaef917dca3cb3c57cb612bf79abed8f6"),
        ("form1_distinct", "756938d5cd9f0a05700b8df3df13c8fbf59eb98a"),
        ("form2_computed", "2d379f2dc36c6f84bc31166b101245324e833523"),
        ("form2_zero", "6ee8e62a7d381f6ce955def30b83485a7ab6b130"),
        ("xa_gap", "f8f5ec8053c249225aa0d0a60471ae7af556cb34"),
        (
            "recorded_header_gap",
            "cc8062656b0c811d50169317518353adea92c7bd",
        ),
    ];
    for ((name, sector), (expected_name, expected_sha1)) in sectors.into_iter().zip(expected) {
        assert_eq!(name, expected_name);
        assert_eq!(hex::encode(Sha1::digest(sector)), expected_sha1, "{name}");
    }
}

#[test]
fn edc_matches_the_cd_rom_catalog_check_value() {
    assert_eq!(generate_edc(b"123456789"), 0x6ec2_edc4);
}

#[test]
fn ecc_tables_have_the_expected_inverse_relationship() {
    let tables = make_ecc_tables();
    for index in 0..256 {
        let next = usize::from(tables.forward[index]);
        assert_eq!(usize::from(tables.backward[index ^ next]), index);
    }
}

#[test]
fn mode1_reserved_bytes_are_preserved_while_protection_errors_are_rejected() {
    let mode1 = SectorWriter::new()
        .mode1(150, &[0x5a; LOGICAL_BLOCK_SIZE])
        .unwrap();
    let mut invalid_edc = mode1.clone();
    invalid_edc[2064] ^= 1;
    assert!(
        parse_image(&invalid_edc)
            .unwrap_err()
            .message()
            .contains("invalid Mode 1 EDC at sector 0")
    );
    let mut invalid_ecc = mode1.clone();
    invalid_ecc[2076] ^= 1;
    assert!(
        parse_image(&invalid_ecc)
            .unwrap_err()
            .message()
            .contains("invalid Mode 1 ECC at sector 0")
    );
    let mut reserved = mode1;
    reserved[2068] = 1;
    write_ecc(&mut reserved, frame_header(150, 1).unwrap());
    let parsed = parse_image(&reserved).unwrap().1;
    assert_eq!(parsed[0].bytes[2068..2076], [1, 0, 0, 0, 0, 0, 0, 0]);

    let form1 = SectorWriter::new()
        .form1(150, [0, 0, 0x08, 0].into(), &[0x5a; LOGICAL_BLOCK_SIZE])
        .unwrap();
    let mut invalid_edc = form1.clone();
    invalid_edc[2072] ^= 1;
    assert!(
        parse_image(&invalid_edc)
            .unwrap_err()
            .message()
            .contains("unsupported or invalid Mode 2 sector at sector 0")
    );
    let mut invalid_ecc = form1;
    invalid_ecc[2076] ^= 1;
    assert!(
        parse_image(&invalid_ecc)
            .unwrap_err()
            .message()
            .contains("unsupported or invalid Mode 2 sector at sector 0")
    );
}

#[test]
fn mode2_track_can_contain_a_protected_zero_mode1_gap() {
    let mut writer = SectorWriter::new();
    let raw = [
        writer
            .form1(150, [0, 0, 0x08, 0].into(), &[1; LOGICAL_BLOCK_SIZE])
            .unwrap(),
        writer.mode1(151, &[0; LOGICAL_BLOCK_SIZE]).unwrap(),
        writer.xa_gap(152, XaSubheader::default()).unwrap(),
    ]
    .concat();
    let parsed = parse_image(&raw).unwrap().1;
    assert_eq!(parsed[1].kind, Kind::Mode1Gap);
}

#[test]
fn codes_are_written_and_told_for_any_error_detection_code() {
    let mut writer = SectorWriter::new();
    let sector = writer.mode1(150, &[7; LOGICAL_BLOCK_SIZE]).unwrap();
    let edc = generate_edc(&sector[..2064]);
    assert!(is_stored_edc(edc, &sector[2064..2068]));
    assert!(!is_stored_edc(edc ^ 1, &sector[2064..2068]));
    assert!(!is_stored_edc(edc, &sector[2064..2067]));
    assert!(is_stored_edc(0x0102_0304, &[4, 3, 2, 1]));

    let mut again = sector.clone();
    again[2064..].fill(0);
    write_mode1_codes(&mut again, edc);
    assert_eq!(again, sector);
    assert_eq!(classify_mode1(&sector, 0, 1, edc).unwrap().kind, Kind::Mode1);
    assert!(classify_mode1(&sector, 0, 1, edc ^ 1).is_err());
    assert!(classify_mode1(&sector, 0, 2, edc).is_err());

    let subheader = XaSubheader::with_submode(XaSubmode::single(XaSubmodeFlag::Data));
    let form1 = writer.form1(150, subheader, &[9; LOGICAL_BLOCK_SIZE]).unwrap();
    let form1_edc = generate_edc(&form1[16..2072]);
    let mut again = form1.clone();
    again[2072..].fill(0);
    write_form1_codes(&mut again, form1_edc);
    assert_eq!(again, form1);
    let told = classify_mode2(&form1, 0, form1_edc, 0).unwrap();
    assert_eq!((told.kind, told.subheader), (Kind::Form1, subheader));
    assert!(classify_mode2(&form1, 0, form1_edc ^ 1, 0).is_err());

    let subheader = XaSubheader::with_submode(XaSubmode::single(XaSubmodeFlag::Form2));
    let form2 = writer.form2(150, subheader, &[5; 2324], false).unwrap();
    let mut coded = form2.clone();
    write_form2_code(&mut coded, Some(0x0102_0304));
    assert_eq!(coded[2348..], [4, 3, 2, 1]);
    assert!(classify_mode2(&coded, 0, 0, 0x0102_0304).unwrap().form2_edc_valid);
    assert!(!classify_mode2(&coded, 0, 0, 0).unwrap().form2_edc_valid);
    write_form2_code(&mut coded, None);
    assert_eq!(coded, form2);
}

#[test]
fn numbers_are_written_as_digits() {
    assert_eq!(to_bcd(0), 0);
    assert_eq!(to_bcd(42), 0x42);
    assert_eq!(to_bcd(99), 0x99);
    assert_eq!(to_bcd(123), 0xc3);
    assert_eq!(to_bcd(169), 0x09);
}
