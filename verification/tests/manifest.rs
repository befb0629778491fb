//! Project descriptions.
use gcdgold::manifest::layout::{FileLayoutItem, XaAssetSubheader};
use gcdgold::manifest::track::{
    decode_sector_patch, format_sector_patch_hex, Form1Sectors, SectorPatch, TrackMode,
};
use gcdgold::manifest::volume::EntryXa;
use gcdgold::manifest::{MetadataVolume, XaAttributeFlag, XaAttributes, XaLengthEncoding};
use gcdgold::xa::XaSubheader;

#[test]
fn patch_hex_ignores_ascii_whitespace_but_requires_one_complete_sector() {
    let bytes = [0x5a; 2352];
    let compact = hex::encode(bytes);
    let spaced = compact
        .as_bytes()
        .chunks(64)
        .map(|chunk| std::str::from_utf8(chunk).unwrap())
        .collect::<Vec<_>>()
        .join(" \n\t");
    let patch = SectorPatch {
        lba: -150,
        hex: spaced,
    };
    assert_eq!(decode_sector_patch(&patch).unwrap(), bytes);

    for invalid in ["", "00", &"00".repeat(2353)] {
        let patch = SectorPatch {
            lba: 0,
            hex: invalid.to_owned(),
        };
        assert!(decode_sector_patch(&patch).is_err());
    }
}

#[test]
fn form1_sector_count_supports_auto_and_explicit_layouts() {
    assert_eq!(
        Form1Sectors::Auto("auto".to_owned()).resolve(2049).unwrap(),
        2
    );
    assert_eq!(Form1Sectors::Count(12).resolve(1).unwrap(), 12);
    assert!(Form1Sectors::Count(12).resolve(24_577).is_err());
    assert!(
        Form1Sectors::Auto("auto".to_owned())
            .resolve(32_769)
            .is_err()
    );
}

#[test]
fn form1_sector_counts_refuse_what_they_cannot_hold() {
    assert_eq!(
        Form1Sectors::Auto("other".to_owned())
            .resolve(0)
            .unwrap_err()
            .message(),
        "unknown form1_sectors value \"other\""
    );
    assert_eq!(
        Form1Sectors::Count(17).resolve(0).unwrap_err().message(),
        "system content exceeds system area"
    );
    assert_eq!(
        Form1Sectors::Count(1).resolve(2049).unwrap_err().message(),
        "system content exceeds configured Form 1 sectors"
    );
    assert_eq!(
        Form1Sectors::Auto("auto".to_owned())
            .resolve(32_769)
            .unwrap_err()
            .message(),
        "system content exceeds system area"
    );
    assert_eq!(Form1Sectors::Auto("auto".to_owned()).resolve(0).unwrap(), 0);
}

#[test]
fn patches_are_written_in_lines_and_read_back() {
    let text = format_sector_patch_hex(&[0xa5; 2352]);
    assert!(text.lines().all(|line| line.len() <= 64));
    assert_eq!(text.lines().next(), Some("a5".repeat(32).as_str()));
    let patch = SectorPatch {
        lba: 123,
        hex: text,
    };
    assert_eq!(decode_sector_patch(&patch).unwrap(), [0xa5; 2352]);

    let odd = SectorPatch {
        lba: -3,
        hex: "0".to_owned(),
    };
    assert_eq!(
        decode_sector_patch(&odd).unwrap_err().message(),
        "decoding patch at LBA -3"
    );
    let short = SectorPatch {
        lba: 9,
        hex: "00".to_owned(),
    };
    assert_eq!(
        decode_sector_patch(&short).unwrap_err().message(),
        "patch at LBA 9 decodes to 1 bytes, expected 2352"
    );
}

#[test]
fn all_xa_attribute_combinations_round_trip_as_named_flags() {
    for mask in 0_u16..32 {
        let expected = XaAttributes::from_bits(mask << 11);
        let parsed = XaAttributes::from_flags(&expected.flags()).unwrap();
        assert_eq!(parsed, expected);
    }

    let attributes = XaAttributes::from_bits(
        XaAttributes::single(XaAttributeFlag::Mode2Form1).bits()
            | XaAttributes::single(XaAttributeFlag::Interleaved).bits()
            | XaAttributes::single(XaAttributeFlag::Directory).bits(),
    );
    assert_eq!(
        attributes
            .flags()
            .into_iter()
            .map(|flag| flag.name())
            .collect::<Vec<_>>(),
        ["mode2_form1", "interleaved", "directory"]
    );
}

#[test]
fn xa_attributes_reject_duplicates() {
    assert_eq!(
        XaAttributes::from_flags(&[XaAttributeFlag::Interleaved, XaAttributeFlag::Interleaved])
            .unwrap_err()
            .message(),
        "duplicate XA attribute flag interleaved"
    );
}

#[test]
fn track_modes_have_three_names() {
    for (number, mode) in [(1, TrackMode::Mode1), (2, TrackMode::Mode2)] {
        assert_eq!(TrackMode::from_number(number).unwrap(), mode);
        assert_eq!(TrackMode::from_name(mode.name()).unwrap(), mode);
    }
    assert_eq!(TrackMode::from_name("2xa").unwrap(), TrackMode::Mode2Xa);
    assert_eq!(TrackMode::Mode2Xa.name(), "2xa");
    assert_eq!(
        TrackMode::from_number(3).unwrap_err().message(),
        "track mode must be 1, 2, or 2xa"
    );
    assert!(TrackMode::from_name("3").is_err());
}

#[test]
fn length_encodings_are_numeric_units() {
    assert_eq!(
        XaLengthEncoding::from_number(2336).unwrap(),
        XaLengthEncoding::Mode2_2336
    );
    assert_eq!(
        XaLengthEncoding::from_number(2048).unwrap(),
        XaLengthEncoding::Logical2048
    );
    assert_eq!(XaLengthEncoding::Mode2_2336.number(), 2336);
    assert_eq!(
        XaLengthEncoding::from_number(2352).unwrap_err().message(),
        "XA length encoding must be 2048 or 2336, not 2352"
    );
    let contradicting = EntryXa {
        logical_length: Some(1),
        length_encoding: XaLengthEncoding::Mode2_2336,
        ..EntryXa::default()
    };
    assert_eq!(
        contradicting.checked().unwrap_err().message(),
        "XA length encoding cannot be combined with logical_length"
    );
}

#[test]
fn layout_items_tell_what_they_are() {
    let path = FileLayoutItem::path("SYSTEM.CNF".to_owned());
    assert_eq!(path.as_path(), Some("SYSTEM.CNF"));
    assert!(path.as_path_item().unwrap().source.is_none());
    assert_eq!(path.gap_sectors(), None);

    let directory = FileLayoutItem::volume_directory(MetadataVolume::Joliet, "DIR".to_owned());
    assert_eq!(
        directory.as_directory_placement(),
        Some((MetadataVolume::Joliet, "DIR"))
    );
    assert_eq!(directory.as_path(), None);

    let subheader = XaSubheader::from([1, 2, 0x08, 3]);
    let gap = FileLayoutItem::form1_gap(13, subheader);
    assert_eq!(gap.gap_sectors(), Some(13));
    assert_eq!(gap.gap_subheader(), Some(subheader));
    assert_eq!(
        FileLayoutItem::form2_gap(2, false).gap_form2_edc(),
        Some(false)
    );

    assert_eq!(
        XaSubheader::from(XaAssetSubheader::from(subheader)),
        subheader
    );
}
