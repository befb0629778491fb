//! Laying out a filesystem and reading it back.
use gcdgold::error::{Error, ErrorKind};
use gcdgold::iso9660::description::{
    DirectoryReference, Entry, EntryXa, FileLayoutItem, GapItem, IdentifierPolicy, Iso9660,
    JolietEntry, JolietVolume, MetadataLayoutItem, MetadataPathTable, PathTableCopies,
    XaExtentAssets,
};
use gcdgold::iso9660::descriptor::{parse_pvd, APPLICATION_USE_END, APPLICATION_USE_START};
use gcdgold::iso9660::descriptor_write::{serialize_joliet_svd, serialize_pvd, DescriptorPlace};
use gcdgold::iso9660::directory::make_record_with_padding;
use gcdgold::iso9660::fields::{read_both_u32, write_both_u16, write_both_u32};
use gcdgold::iso9660::layout::layout;
use gcdgold::iso9660::metadata::{derive_metadata_layout, ParsedPathTables};
use gcdgold::iso9660::parse::parse;
use gcdgold::iso9660::paths::validate_path;
use gcdgold::iso9660::placing::{FileLength, GapPlacement};
use gcdgold::iso9660::read::read_directory;
use gcdgold::iso9660::record::{
    entry_xa, parse_record, record_size, serialize_xa_system_use_parts,
    validate_standard_record_fields, Record, ASSOCIATED_FLAG, DIRECTORY_FLAG,
};
use gcdgold::iso9660::time::{
    format_recording_time, format_volume_time, parse_decimal, parse_recording_time,
    parse_volume_time, serialize_recording_time, serialize_volume_time, VolumeTime,
};
use gcdgold::iso9660::tree::{identifier, order_directories, packed_blocks, Node};
use gcdgold::iso9660::validate::{validate, validate_entries};
use gcdgold::iso9660::walk::ParsedDirectory;
use gcdgold::manifest::{
    DirectoryLengthPolicy, DirectoryParentRecordingTime, DirectoryRecordPacking,
    EntrySectorSubheader, GapKind, IsoMetadataSubheader, JolietLevel, MetadataVolume,
    PathTableOrder, PrimaryVolumeApplicationUse, XaAttributeFlag, XaAttributes, XaLengthEncoding,
    DEFAULT_XA_PERMISSIONS,
};
use gcdgold::raw_cd::{Block, LOGICAL_BLOCK_SIZE};
use gcdgold::text::ROOT_PATH;
use gcdgold::xa::XaSubheader;

fn sizes(pairs: Vec<(String, u64)>) -> Vec<FileLength> {
    pairs
        .into_iter()
        .map(|(path, length)| FileLength { path, length })
        .collect()
}

fn path_item(path: &str) -> FileLayoutItem {
    FileLayoutItem::Path {
        path: path.to_owned(),
    }
}

fn directory_item(path: &str) -> FileLayoutItem {
    volume_directory_item(MetadataVolume::Primary, path)
}

fn volume_directory_item(volume: MetadataVolume, path: &str) -> FileLayoutItem {
    FileLayoutItem::Directory {
        volume,
        path: path.to_owned(),
    }
}

fn xa_extent_item(assets: XaExtentAssets) -> FileLayoutItem {
    FileLayoutItem::XaExtent { assets }
}

fn some_gap(sectors: u32, kind: GapKind, subheader: Option<XaSubheader>) -> FileLayoutItem {
    FileLayoutItem::Gap {
        gap: GapItem {
            sectors,
            kind,
            subheader,
            form2_edc: None,
        },
    }
}

fn gap_item(sectors: u32) -> FileLayoutItem {
    some_gap(sectors, GapKind::Form2, None)
}

fn xa_gap_item(sectors: u32) -> FileLayoutItem {
    some_gap(sectors, GapKind::Xa, None)
}

fn form1_gap_item(sectors: u32, subheader: XaSubheader) -> FileLayoutItem {
    some_gap(sectors, GapKind::Form1, Some(subheader))
}

fn put_both_u16(block: &mut Block, offset: usize, value: u16) {
    let mut bytes = block.to_vec();
    write_both_u16(&mut bytes, offset, value);
    block.copy_from_slice(&bytes);
}

fn put_both_u32(block: &mut Block, offset: usize, value: u32) {
    let mut bytes = block.to_vec();
    write_both_u32(&mut bytes, offset, value);
    block.copy_from_slice(&bytes);
}

fn place() -> DescriptorPlace {
    DescriptorPlace {
        volume_blocks: 20,
        path_table_size: 10,
        pointers: [18, 19, 20, 21],
        root_extent: 22,
        root_length: 2048,
    }
}

fn node(entry: &Entry) -> Node<'_> {
    Node {
        path: &entry.path,
        parent: ROOT_PATH.to_owned(),
        directory: false,
        identifier: identifier(&entry.path, true).into_bytes(),
        system_use: true,
        recording_time: &entry.recording_time,
        hidden: entry.hidden,
        associated: entry.associated,
        xa: &entry.xa,
    }
}

fn make_record(
    entry: &Entry,
    extent: u32,
    length: u32,
    name: Vec<u8>,
    directory: bool,
) -> Result<Vec<u8>, Error> {
    make_record_with_padding(&node(entry), extent, length, name, directory, false, true)
}

fn serialize_xa_system_use(entry: &Entry, directory: bool) -> Result<Vec<u8>, Error> {
    serialize_xa_system_use_parts(&entry.path, &entry.xa, directory)
}

fn test_entry(path: &str) -> Entry {
    Entry {
        path: path.to_owned(),
        recording_time: "2000-01-01T00:00:00+00:00".to_owned(),
        hidden: false,
        associated: false,
        unbacked: false,
        directory_reference: None,
        directory_slack: None,
        allocation_padding_hex: None,
        sector_subheader: EntrySectorSubheader::Canonical,
        xa: None,
        extent: None,
        length: None,
    }
}

fn test_iso(entries: Vec<Entry>, files: Vec<&str>) -> Iso9660 {
    Iso9660 {
        primary_volume: parse_pvd(&standard_pvd_block()).unwrap(),
        primary_volume_copies: 1,
        supplementary_volumes: Vec::new(),
        metadata_layout: Vec::new(),
        xa_system_use: true,
        xa_system_use_omissions: Vec::new(),
        metadata_subheader: IsoMetadataSubheader::Canonical,
        metadata_framing_subheader: None,
        identifier_policy: IdentifierPolicy::IsoLevel1,
        directory_record_packing: DirectoryRecordPacking::Fill,
        directory_parent_recording_time: DirectoryParentRecordingTime::Parent,
        directory_length_policy: DirectoryLengthPolicy::Allocated,
        path_table_size: None,
        path_table_padding: 0,
        path_table_little_hex: None,
        path_table_big_hex: None,
        path_table_copies: PathTableCopies::Duplicate,
        path_table_order: PathTableOrder::LittleEndianFirst,
        path_table_subheader: EntrySectorSubheader::Canonical,
        path_table_framing_subheader: None,
        entries,
        files: files.into_iter().map(path_item).collect(),
    }
}

#[test]
fn childless_directory_reference_roundtrips_without_physical_directory() {
    let mut reference = test_entry("DATA/OLD");
    reference.directory_reference = Some(DirectoryReference {
        extent: 0,
        length: 0,
    });
    let iso = test_iso(
        vec![test_entry(ROOT_PATH), test_entry("DATA"), reference],
        Vec::new(),
    );

    let authored = layout(&iso, &[]).unwrap();
    let parsed = parse(&authored.blocks).unwrap();
    let parsed_reference = parsed
        .manifest
        .entries
        .iter()
        .find(|entry| entry.path == "DATA/OLD")
        .unwrap();

    assert_eq!(
        parsed_reference.directory_reference,
        Some(DirectoryReference {
            extent: 0,
            length: 0,
        })
    );
    assert_eq!(
        parsed
            .directories
            .iter()
            .find(|directory| directory.path == "DATA/OLD")
            .map(|directory| (directory.extent, directory.length)),
        Some((0, 0))
    );
    assert_eq!(
        layout(&parsed.manifest, &[]).unwrap().blocks,
        authored.blocks
    );
}

#[test]
fn metadata_derivation_allows_interleaved_primary_and_joliet_directories() {
    let mut blocks = vec![[0_u8; LOGICAL_BLOCK_SIZE]; 32];
    blocks[26][0] = 1;
    let primary_tables = ParsedPathTables {
        extents: [20, 0, 22, 0],
        blocks: 1,
    };
    let joliet_tables = ParsedPathTables {
        extents: [21, 0, 23, 0],
        blocks: 1,
    };
    let primary_directories = vec![
        ParsedDirectory {
            path: ROOT_PATH.to_owned(),
            extent: 24,
            length: LOGICAL_BLOCK_SIZE as u32,
        },
        ParsedDirectory {
            path: "DATA".to_owned(),
            extent: 30,
            length: LOGICAL_BLOCK_SIZE as u32,
        },
    ];
    let joliet_directories = vec![
        ParsedDirectory {
            path: ROOT_PATH.to_owned(),
            extent: 25,
            length: LOGICAL_BLOCK_SIZE as u32,
        },
        ParsedDirectory {
            path: "DATA".to_owned(),
            extent: 31,
            length: LOGICAL_BLOCK_SIZE as u32,
        },
    ];

    assert!(
        derive_metadata_layout(
            &blocks,
            20,
            &primary_tables,
            &primary_directories,
            &joliet_tables,
            &joliet_directories,
        )
        .is_ok()
    );
}

fn standard_pvd_block() -> [u8; LOGICAL_BLOCK_SIZE] {
    let mut block = [0_u8; LOGICAL_BLOCK_SIZE];
    put_both_u32(&mut block, 80, 1);
    put_both_u16(&mut block, 120, 1);
    put_both_u16(&mut block, 124, 1);
    put_both_u16(&mut block, 128, 2048);
    for offset in [813, 830, 847, 864] {
        block[offset..offset + 16].fill(b'0');
    }
    block[881] = 1;
    block[1024..1032].copy_from_slice(b"CD-XA001");
    block
}

#[test]
fn cd_xa_application_use_is_validated_and_generated() {
    let source = standard_pvd_block();
    let iso = test_iso(vec![test_entry(ROOT_PATH)], vec![]);
    let generated =
        serialize_pvd(&iso.primary_volume, &place(), &iso.entries[0]).unwrap();
    assert_eq!(&generated[883..1395], &source[883..1395]);

    let mut invalid = source;
    invalid[1024] = b'X';
    assert_eq!(
        parse_pvd(&invalid).unwrap().application_use_hex.as_deref(),
        Some(hex::encode(&invalid[APPLICATION_USE_START..APPLICATION_USE_END]).as_str())
    );

    let mut extended = source;
    extended[1032..1042]
        .copy_from_slice(&[0, 0, b'1', b' ', b'1', b' ', b' ', b' ', b' ', b' ']);
    let mut iso = test_iso(vec![test_entry(ROOT_PATH)], vec![]);
    iso.primary_volume = parse_pvd(&extended).unwrap();
    assert_eq!(
        iso.primary_volume.application_use,
        PrimaryVolumeApplicationUse::CdXa001_1_1
    );
    let generated =
        serialize_pvd(&iso.primary_volume, &place(), &iso.entries[0]).unwrap();
    assert_eq!(&generated[883..1395], &extended[883..1395]);

    let mut xcd = source;
    xcd[APPLICATION_USE_END - 12..APPLICATION_USE_END].copy_from_slice(b"XCD322.1 (13");
    let mut iso = test_iso(vec![test_entry(ROOT_PATH)], vec![]);
    iso.primary_volume = parse_pvd(&xcd).unwrap();
    assert_eq!(
        iso.primary_volume.application_use,
        PrimaryVolumeApplicationUse::CdXa001Xcd3221Revision13
    );
    let generated =
        serialize_pvd(&iso.primary_volume, &place(), &iso.entries[0]).unwrap();
    assert_eq!(&generated[883..1395], &xcd[883..1395]);
}

#[test]
fn cd_rep_application_use_is_preserved() {
    let mut source = standard_pvd_block();
    source[APPLICATION_USE_START..APPLICATION_USE_END].fill(0);
    source[APPLICATION_USE_START..APPLICATION_USE_START + 14]
        .copy_from_slice(b"CD Rep 2.0.131");

    let mut iso = test_iso(vec![test_entry(ROOT_PATH)], vec![]);
    iso.primary_volume = parse_pvd(&source).unwrap();
    let generated =
        serialize_pvd(&iso.primary_volume, &place(), &iso.entries[0]).unwrap();

    assert_eq!(&generated[883..1395], &source[883..1395]);
}

#[test]
fn nonstandard_application_use_is_preserved_as_bounded_metadata() {
    let mut source = standard_pvd_block();
    source[APPLICATION_USE_START..APPLICATION_USE_END].fill(0);
    source[APPLICATION_USE_START..APPLICATION_USE_START + 5].copy_from_slice(b"EB111");
    source[1024..1032].copy_from_slice(b"CD-XA001");

    let mut iso = test_iso(vec![test_entry(ROOT_PATH)], vec![]);
    iso.primary_volume = parse_pvd(&source).unwrap();
    assert_eq!(
        iso.primary_volume.application_use_hex.as_deref(),
        Some(hex::encode(&source[APPLICATION_USE_START..APPLICATION_USE_END]).as_str())
    );
    let generated =
        serialize_pvd(&iso.primary_volume, &place(), &iso.entries[0]).unwrap();

    assert_eq!(
        &generated[APPLICATION_USE_START..APPLICATION_USE_END],
        &source[APPLICATION_USE_START..APPLICATION_USE_END]
    );

    iso.primary_volume.application_use_hex = Some("00".repeat(511));
    assert!(serialize_pvd(&iso.primary_volume, &place(), &iso.entries[0]).is_err());

    iso.primary_volume.application_use_hex = Some("00".repeat(512));
    iso.primary_volume.application_use = PrimaryVolumeApplicationUse::CdRep20131;
    assert!(serialize_pvd(&iso.primary_volume, &place(), &iso.entries[0]).is_err());
}

#[test]
fn pvd_reserved_bytes_are_preserved_as_bounded_hex() {
    let mut source = standard_pvd_block();
    source[APPLICATION_USE_END..APPLICATION_USE_END + 2].copy_from_slice(&[0x37, 0x29]);
    let mut iso = test_iso(vec![test_entry(ROOT_PATH)], vec![]);
    iso.primary_volume = parse_pvd(&source).unwrap();

    assert_eq!(iso.primary_volume.reserved_hex.as_deref(), Some("3729"));
    let generated =
        serialize_pvd(&iso.primary_volume, &place(), &iso.entries[0]).unwrap();
    assert_eq!(
        &generated[APPLICATION_USE_END..],
        &source[APPLICATION_USE_END..]
    );

    iso.primary_volume.reserved_hex = Some("00".repeat(LOGICAL_BLOCK_SIZE));
    assert!(serialize_pvd(&iso.primary_volume, &place(), &iso.entries[0]).is_err());
}

#[test]
fn trailing_directory_record_padding_is_recognized() {
    let entry = test_entry("ZDUMMY.DAT");
    let bytes = make_record_with_padding(
        &node(&entry),
        24,
        LOGICAL_BLOCK_SIZE as u32,
        b"ZDUMMY.DAT;1".to_vec(),
        false,
        true,
        true,
    )
    .unwrap();
    let expected_system_use = serialize_xa_system_use(&entry, false).unwrap();
    assert_eq!(&bytes[45..59], expected_system_use);
    assert_eq!(bytes[59], 0);

    let record = parse_record(&bytes).unwrap();
    assert!(record.trailing_system_use_padding);
    entry_xa(&record, false, true).unwrap();
}

#[test]
fn pvd_parent_root_identifier_is_preserved() {
    let mut source = standard_pvd_block();
    source[189] = 1;
    let mut iso = test_iso(vec![test_entry(ROOT_PATH)], vec![]);
    iso.primary_volume = parse_pvd(&source).unwrap();

    let generated =
        serialize_pvd(&iso.primary_volume, &place(), &iso.entries[0]).unwrap();

    assert_eq!(generated[189], 1);
}

#[test]
fn overlong_pvd_root_record_length_is_preserved() {
    let iso = test_iso(vec![test_entry(ROOT_PATH)], vec![]);
    let mut authored = layout(&iso, &[]).unwrap();
    authored.blocks[16][156] = 68;

    let mut parsed = parse(&authored.blocks).unwrap();
    assert_eq!(
        parsed.manifest.primary_volume.root_directory_record_length,
        Some(68)
    );
    let rebuilt = layout(&parsed.manifest, &[]).unwrap();

    assert_eq!(rebuilt.blocks[16], authored.blocks[16]);

    parsed.manifest.primary_volume.root_directory_record_length = Some(34);
    assert!(layout(&parsed.manifest, &[]).is_err());
}

#[test]
fn distinct_pvd_root_recording_time_is_preserved() {
    let iso = test_iso(vec![test_entry(ROOT_PATH)], vec![]);
    let mut authored = layout(&iso, &[]).unwrap();
    let pvd_time = "2002-01-07T14:58:33-03:00";
    authored.blocks[16][174..181].copy_from_slice(&serialize_recording_time(pvd_time).unwrap());

    let parsed = parse(&authored.blocks).unwrap();
    assert_eq!(
        parsed.manifest.primary_volume.root_directory_recording_time,
        Some(String::from(pvd_time))
    );
    let rebuilt = layout(&parsed.manifest, &[]).unwrap();

    assert_eq!(rebuilt.blocks, authored.blocks);
}

#[test]
fn trailing_directory_slack_is_preserved() {
    let iso = test_iso(vec![test_entry(ROOT_PATH)], vec![]);
    let mut authored = layout(&iso, &[]).unwrap();
    let root_extent =
        usize::try_from(read_both_u32(&authored.blocks[16], 158).unwrap()).unwrap();
    authored.blocks[root_extent][512] = 0xc0;
    authored.blocks[root_extent][700] = 0x5a;

    let mut parsed = parse(&authored.blocks).unwrap();
    let slack = parsed.manifest.entries[0].directory_slack.as_ref().unwrap();
    assert_eq!(slack.offset, 512);
    assert_eq!(hex::decode(&slack.hex).unwrap().len(), 189);
    let rebuilt = layout(&parsed.manifest, &[]).unwrap();

    assert_eq!(rebuilt.blocks[root_extent], authored.blocks[root_extent]);

    parsed.manifest.entries[0]
        .directory_slack
        .as_mut()
        .unwrap()
        .offset = 0;
    assert!(layout(&parsed.manifest, &[]).is_err());
}

#[test]
fn nonzero_file_allocation_padding_is_preserved() {
    let mut iso = test_iso(
        vec![test_entry(ROOT_PATH), test_entry("FILE.BIN")],
        vec!["FILE.BIN"],
    );
    let lengths = sizes(vec![(String::from("FILE.BIN"), 5_u64)]);
    let mut authored = layout(&iso, &lengths).unwrap();
    let extent = usize::try_from(authored.files[0].extent).unwrap();
    authored.blocks[extent][5] = 0x85;
    authored.blocks[extent][17] = 0x39;

    let parsed = parse(&authored.blocks).unwrap();
    iso = parsed.manifest;
    let rebuilt = layout(&iso, &lengths).unwrap();

    assert_eq!(rebuilt.blocks, authored.blocks);
}

#[test]
fn explicit_volume_space_size_may_exceed_the_authored_data_track() {
    let mut iso = test_iso(vec![test_entry(ROOT_PATH)], vec![]);
    iso.primary_volume.volume_space_size = Some(294_418);
    iso.files.push(xa_gap_item(150));
    let lengths: Vec<FileLength> = Vec::new();

    let authored = layout(&iso, &lengths).unwrap();

    assert_eq!(authored.volume_blocks, 173);
    assert_eq!(read_both_u32(&authored.blocks[16], 80).unwrap(), 294_418);
}

#[test]
fn file_structure_version_zero_round_trips_as_bounded_descriptor_metadata() {
    let mut iso = test_iso(vec![test_entry(ROOT_PATH)], vec![]);
    iso.primary_volume.file_structure_version = Some(0);

    let authored = layout(&iso, &[]).unwrap();
    assert_eq!(authored.blocks[16][881], 0);

    let parsed = parse(&authored.blocks).unwrap();
    assert_eq!(
        parsed.manifest.primary_volume.file_structure_version,
        Some(0)
    );
}

#[test]
fn explicit_volume_space_size_can_exclude_terminal_form2_gap() {
    let mut iso = test_iso(vec![test_entry(ROOT_PATH)], vec![]);
    iso.primary_volume.volume_space_size = Some(23);
    iso.files.push(gap_item(300));

    let authored = layout(&iso, &[]).unwrap();

    assert_eq!(authored.volume_blocks, 323);
    assert_eq!(read_both_u32(&authored.blocks[16], 80).unwrap(), 23);
    assert_eq!(
        parse(&authored.blocks)
            .unwrap()
            .manifest
            .primary_volume
            .volume_space_size,
        Some(23)
    );
}

#[test]
fn explicit_volume_space_size_can_be_smaller_than_referenced_content() {
    let iso = test_iso(vec![test_entry(ROOT_PATH)], vec![]);
    let mut authored = layout(&iso, &[]).unwrap();
    put_both_u32(&mut authored.blocks[16], 80, 22);

    let parsed = parse(&authored.blocks).unwrap();
    assert_eq!(parsed.manifest.primary_volume.volume_space_size, Some(22));
    let rebuilt = layout(&parsed.manifest, &[]).unwrap();

    assert_eq!(rebuilt.blocks, authored.blocks);
}

#[test]
fn pvd_little_endian_only_u16_fields_are_preserved() {
    let iso = test_iso(vec![test_entry(ROOT_PATH)], vec![]);
    let mut authored = layout(&iso, &[]).unwrap();
    for offset in [120, 124, 128] {
        authored.blocks[16][offset + 2..offset + 4].fill(0);
    }

    let parsed = parse(&authored.blocks).unwrap();
    let rebuilt = layout(&parsed.manifest, &[]).unwrap();

    assert_eq!(rebuilt.blocks, authored.blocks);
}

#[test]
fn path_table_data_until_final_policy_applies_to_each_copy() {
    let mut entries = vec![test_entry(ROOT_PATH)];
    entries.extend((0..200).map(|index| test_entry(&format!("D{index:03}"))));
    let mut iso = test_iso(entries, vec![]);
    iso.path_table_subheader = EntrySectorSubheader::DataUntilFinal;

    let authored = layout(&iso, &[]).unwrap();

    assert!(
        [18, 20, 22, 24]
            .into_iter()
            .all(|lba| authored.data_subheader_sectors.contains(&lba))
    );
    assert!(
        [19, 21, 23, 25]
            .into_iter()
            .all(|lba| authored.metadata_subheader_sectors.contains(&lba))
    );
}

#[test]
fn path_table_end_of_file_data_policy_applies_to_each_copy() {
    let mut entries = vec![test_entry(ROOT_PATH)];
    entries.extend((0..200).map(|index| test_entry(&format!("D{index:03}"))));
    let mut iso = test_iso(entries, vec![]);
    iso.path_table_subheader = EntrySectorSubheader::EndOfFileData;

    let authored = layout(&iso, &[]).unwrap();

    assert!(
        [18, 20, 22, 24]
            .into_iter()
            .all(|lba| authored.data_subheader_sectors.contains(&lba))
    );
    assert!(
        [19, 21, 23, 25]
            .into_iter()
            .all(|lba| authored.end_of_file_data_subheader_sectors.contains(&lba))
    );
}

#[test]
fn single_path_table_copies_omit_optional_pointers_and_sectors() {
    let mut iso = test_iso(vec![test_entry(ROOT_PATH)], vec![]);
    iso.path_table_copies = PathTableCopies::Single;

    let authored = layout(&iso, &[]).unwrap();
    let pvd = &authored.blocks[16];

    assert_eq!(u32::from_le_bytes(pvd[140..144].try_into().unwrap()), 18);
    assert_eq!(u32::from_le_bytes(pvd[144..148].try_into().unwrap()), 0);
    assert_eq!(u32::from_be_bytes(pvd[148..152].try_into().unwrap()), 19);
    assert_eq!(u32::from_be_bytes(pvd[152..156].try_into().unwrap()), 0);
    assert_eq!(read_both_u32(pvd, 158).unwrap(), 20);
    assert_eq!(authored.blocks.len(), 21);
}

#[test]
fn path_table_copies_can_have_structured_xa_gap_padding() {
    let mut iso = test_iso(vec![test_entry(ROOT_PATH)], vec![]);
    iso.path_table_copies = PathTableCopies::Single;
    iso.path_table_padding = 1;

    let authored = layout(&iso, &[]).unwrap();
    let pvd = &authored.blocks[16];

    assert_eq!(u32::from_le_bytes(pvd[140..144].try_into().unwrap()), 18);
    assert_eq!(u32::from_be_bytes(pvd[148..152].try_into().unwrap()), 20);
    assert_eq!(read_both_u32(pvd, 158).unwrap(), 22);
    assert_eq!(
        authored.gaps,
        vec![
            GapPlacement {
                start: 19,
                sectors: 1,
                kind: GapKind::Xa,
                subheader: None,
                form2_edc: None,
            },
            GapPlacement {
                start: 21,
                sectors: 1,
                kind: GapKind::Xa,
                subheader: None,
                form2_edc: None,
            },
        ]
    );
    assert_eq!(
        parse(&authored.blocks).unwrap().manifest.path_table_padding,
        1
    );
}

fn test_joliet_iso() -> Iso9660 {
    let root = test_entry(ROOT_PATH);
    let file = test_entry("FILE.BIN");
    let mut iso = test_iso(vec![root, file], vec!["FILE.BIN"]);
    iso.path_table_copies = PathTableCopies::Single;
    iso.supplementary_volumes = vec![JolietVolume {
        level: JolietLevel::Level3,
        flags: 0,
        zero_fill_empty_strings: false,
        zero_pad_strings: false,
        volume_set_identifier_raw_hex: None,
        descriptor: iso.primary_volume.clone(),
        xa_system_use: true,
        path_table_size: None,
        path_table_little_hex: None,
        path_table_big_hex: None,
        file_identifier_odd_bytes_hex: None,
        entries: vec![
            JolietEntry {
                path: ROOT_PATH.to_owned(),
                source: None,
                omit_version: false,
                recording_time: "2000-01-01T00:00:00+00:00".to_owned(),
                hidden: false,
                associated: false,
                xa: None,
            },
            JolietEntry {
                path: "file.bin".to_owned(),
                source: Some("FILE.BIN".to_owned()),
                omit_version: false,
                recording_time: "2000-01-01T00:00:00+00:00".to_owned(),
                hidden: false,
                associated: false,
                xa: None,
            },
        ],
    }];
    iso.metadata_layout = vec![
        MetadataLayoutItem::PathTable(
            MetadataPathTable::PrimaryLittle,
        ),
        MetadataLayoutItem::PathTable(
            MetadataPathTable::PrimaryBig,
        ),
        MetadataLayoutItem::PathTable(
            MetadataPathTable::JolietLittle,
        ),
        MetadataLayoutItem::PathTable(
            MetadataPathTable::JolietBig,
        ),
        MetadataLayoutItem::Directories(
            MetadataVolume::Primary,
        ),
        MetadataLayoutItem::Directories(
            MetadataVolume::Joliet,
        ),
    ];
    iso
}

#[test]
fn joliet_directories_can_use_the_ordered_file_layout() {
    let mut iso = test_joliet_iso();
    iso.metadata_layout.truncate(4);
    iso.files = vec![
        directory_item(ROOT_PATH),
        volume_directory_item(MetadataVolume::Joliet, ROOT_PATH),
        path_item("FILE.BIN"),
    ];
    let lengths = sizes(vec![("FILE.BIN".to_owned(), 17_u64)]);

    let authored = layout(&iso, &lengths).unwrap();

    assert_eq!(read_both_u32(&authored.blocks[16], 158).unwrap(), 23);
    assert_eq!(read_both_u32(&authored.blocks[17], 158).unwrap(), 24);
    assert_eq!(authored.files[0].extent, 25);
}

#[test]
fn joliet_supplementary_volume_has_its_own_structured_metadata() {
    let iso = test_joliet_iso();
    let lengths = sizes(vec![("FILE.BIN".to_owned(), 17_u64)]);

    let authored = layout(&iso, &lengths).unwrap();

    assert_eq!(&authored.blocks[17][..7], b"\x02CD001\x01");
    let parsed = parse(&authored.blocks).unwrap();
    assert_eq!(parsed.manifest.supplementary_volumes.len(), 1);
    assert_eq!(
        parsed.manifest.supplementary_volumes[0].entries[1].path,
        "file.bin"
    );
    assert_eq!(
        layout(&parsed.manifest, &lengths).unwrap().blocks,
        authored.blocks
    );
}

#[test]
fn joliet_descriptor_padding_variants_round_trip_in_memory() {
    let iso = test_joliet_iso();
    let lengths = sizes(vec![("FILE.BIN".to_owned(), 17_u64)]);
    let mut authored = layout(&iso, &lengths).unwrap();
    let svd = &mut authored.blocks[17];
    svd[8..40].fill(0);
    svd[40..72].fill(0);
    svd[40..42].copy_from_slice(&[0, b'X']);
    svd[190..258].fill(0);
    svd[318..813].fill(0);

    let parsed = parse(&authored.blocks).unwrap();
    let volume = &parsed.manifest.supplementary_volumes[0];
    assert!(volume.zero_fill_empty_strings);
    assert!(volume.zero_pad_strings);
    assert!(volume.volume_set_identifier_raw_hex.is_some());
    assert_eq!(
        layout(&parsed.manifest, &lengths).unwrap().blocks,
        authored.blocks
    );
}

#[test]
fn structured_joliet_metadata_keeps_fixed_reference_ancestors_in_place() {
    let mut iso = test_joliet_iso();
    iso.entries.insert(1, test_entry("DIR"));
    iso.entries[2].path = "DIR/FILE.BIN".to_owned();
    iso.entries[2].extent = Some(100);
    iso.entries[2].length = Some(17);
    iso.entries[2].unbacked = true;
    iso.files.clear();
    let volume = &mut iso.supplementary_volumes[0];
    volume.entries.insert(
        1,
        JolietEntry {
            path: "dir".to_owned(),
            source: None,
            omit_version: false,
            recording_time: "2000-01-01T00:00:00+00:00".to_owned(),
            hidden: false,
            associated: false,
            xa: None,
        },
    );
    volume.entries[2].path = "dir/file.bin".to_owned();
    volume.entries[2].source = Some("DIR/FILE.BIN".to_owned());

    let authored = layout(&iso, &[]).unwrap();
    let primary_little = u32::from_le_bytes(authored.blocks[16][140..144].try_into().unwrap());

    assert_eq!(
        u32::from_le_bytes(
            authored.blocks[usize::try_from(primary_little).unwrap()][12..16]
                .try_into()
                .unwrap()
        ),
        24
    );
    assert_eq!(authored.blocks.len(), 27);
}

#[test]
fn single_big_endian_path_table_can_precede_little_endian() {
    let mut iso = test_iso(vec![test_entry(ROOT_PATH)], vec![]);
    iso.path_table_copies = PathTableCopies::Single;
    iso.path_table_order = PathTableOrder::BigEndianFirst;

    let authored = layout(&iso, &[]).unwrap();
    let pvd = &authored.blocks[16];

    assert_eq!(u32::from_le_bytes(pvd[140..144].try_into().unwrap()), 19);
    assert_eq!(u32::from_le_bytes(pvd[144..148].try_into().unwrap()), 0);
    assert_eq!(u32::from_be_bytes(pvd[148..152].try_into().unwrap()), 18);
    assert_eq!(u32::from_be_bytes(pvd[152..156].try_into().unwrap()), 0);
}

#[test]
fn inconsistent_pvd_path_table_size_is_preserved() {
    let iso = test_iso(vec![test_entry(ROOT_PATH)], vec![]);
    let mut authored = layout(&iso, &[]).unwrap();
    put_both_u32(&mut authored.blocks[16], 132, 236);
    for lba in 18..=21 {
        authored.blocks[lba][10] = 3;
    }

    let mut parsed = parse(&authored.blocks).unwrap();
    assert_eq!(parsed.manifest.path_table_size, Some(236));
    assert_eq!(
        hex::decode(parsed.manifest.path_table_little_hex.as_ref().unwrap())
            .unwrap()
            .len(),
        236
    );
    assert_eq!(
        hex::decode(parsed.manifest.path_table_big_hex.as_ref().unwrap())
            .unwrap()
            .len(),
        236
    );
    let rebuilt = layout(&parsed.manifest, &[]).unwrap();

    assert_eq!(rebuilt.blocks, authored.blocks);

    parsed.manifest.path_table_big_hex = None;
    assert!(layout(&parsed.manifest, &[]).is_err());
    parsed.manifest.path_table_big_hex = parsed.manifest.path_table_little_hex.clone();
    parsed.manifest.path_table_size = Some(2049);
    assert!(layout(&parsed.manifest, &[]).is_err());
}

#[test]
fn noncanonical_path_table_payload_is_preserved() {
    let iso = test_iso(vec![test_entry(ROOT_PATH)], vec![]);
    let mut authored = layout(&iso, &[]).unwrap();
    for lba in 18..=19 {
        authored.blocks[lba][2] = 23;
    }
    for lba in 20..=21 {
        authored.blocks[lba][5] = 23;
    }

    let parsed = parse(&authored.blocks).unwrap();
    assert!(parsed.manifest.path_table_size.is_none());
    assert!(parsed.manifest.path_table_little_hex.is_some());
    assert!(parsed.manifest.path_table_big_hex.is_some());
    let rebuilt = layout(&parsed.manifest, &[]).unwrap();

    assert_eq!(rebuilt.blocks, authored.blocks);
}

#[test]
fn entry_iso_metadata_subheader_marks_every_file_sector() {
    let mut iso = test_iso(
        vec![test_entry(ROOT_PATH), test_entry("FILE.BIN")],
        vec!["FILE.BIN"],
    );
    iso.entries[1].sector_subheader = EntrySectorSubheader::IsoMetadata;
    let lengths = sizes(vec![("FILE.BIN".to_owned(), (2 * LOGICAL_BLOCK_SIZE) as u64)]);

    let authored = layout(&iso, &lengths).unwrap();

    assert_eq!(authored.files[0].extent, 23);
    assert!(authored.metadata_subheader_sectors.contains(&23));
    assert!(authored.metadata_subheader_sectors.contains(&24));
}

#[test]
fn directory_end_of_file_data_subheader_marks_its_final_sector() {
    let mut root = test_entry(ROOT_PATH);
    root.sector_subheader = EntrySectorSubheader::EndOfFileData;
    let iso = test_iso(vec![root], vec![]);

    let authored = layout(&iso, &[]).unwrap();

    assert!(authored.end_of_file_data_subheader_sectors.contains(&22));
}

#[test]
fn directory_parent_record_can_use_current_directory_time() {
    let root = test_entry(ROOT_PATH);
    let mut directory = test_entry("DIR");
    directory.recording_time = "2001-02-03T04:05:06+00:00".to_owned();
    let mut iso = test_iso(vec![root, directory], vec![]);
    iso.directory_parent_recording_time = DirectoryParentRecordingTime::Current;

    let authored = layout(&iso, &[]).unwrap();
    let parsed = parse(&authored.blocks).unwrap();

    assert_eq!(
        parsed.manifest.directory_parent_recording_time,
        DirectoryParentRecordingTime::Current
    );
    assert_eq!(
        layout(&parsed.manifest, &[]).unwrap().blocks,
        authored.blocks
    );
}

#[test]
fn fixed_primary_volume_values_are_validated() {
    parse_pvd(&standard_pvd_block()).unwrap();

    for (offset, value, expected) in [
        (120, 2, "unsupported volume set size"),
        (124, 2, "unsupported volume sequence number"),
        (128, 1024, "unsupported logical block size"),
    ] {
        let mut block = standard_pvd_block();
        put_both_u16(&mut block, offset, value);
        assert_eq!(parse_pvd(&block).unwrap_err().message(), expected);
    }

    let mut block = standard_pvd_block();
    block[881] = 2;
    assert_eq!(
        parse_pvd(&block).unwrap_err().message(),
        "unsupported file structure version"
    );
}

#[test]
fn three_primary_volume_copies_precede_the_terminator() {
    let mut iso = test_iso(vec![test_entry(ROOT_PATH)], vec![]);
    iso.primary_volume_copies = 3;

    let authored = layout(&iso, &[]).unwrap();

    assert_eq!(&authored.blocks[16][..7], b"\x01CD001\x01");
    assert_eq!(authored.blocks[16], authored.blocks[17]);
    assert_eq!(authored.blocks[16], authored.blocks[18]);
    assert_eq!(&authored.blocks[19][..7], b"\xffCD001\x01");
    assert_eq!(
        parse(&authored.blocks)
            .unwrap()
            .manifest
            .primary_volume_copies,
        3
    );
}

#[test]
fn two_primary_volume_copies_precede_the_terminator() {
    let mut iso = test_iso(vec![test_entry(ROOT_PATH)], vec![]);
    iso.primary_volume_copies = 2;

    let authored = layout(&iso, &[]).unwrap();

    assert_eq!(authored.blocks[16], authored.blocks[17]);
    assert_eq!(&authored.blocks[18][..7], b"\xffCD001\x01");
    assert_eq!(
        parse(&authored.blocks)
            .unwrap()
            .manifest
            .primary_volume_copies,
        2
    );
}

#[test]
fn iso_can_omit_all_directory_record_xa_system_use() {
    let mut iso = test_iso(
        vec![test_entry(ROOT_PATH), test_entry("FILE.BIN")],
        vec!["FILE.BIN"],
    );
    iso.xa_system_use = false;
    let lengths = sizes(vec![(String::from("FILE.BIN"), 1_u64)]);

    let authored = layout(&iso, &lengths).unwrap();
    let parsed = parse(&authored.blocks).unwrap();

    assert!(!parsed.manifest.xa_system_use);
    assert_eq!(
        layout(&parsed.manifest, &lengths).unwrap().blocks,
        authored.blocks
    );
}

#[test]
fn file_can_omit_directory_record_xa_system_use() {
    let mut iso = test_iso(
        vec![test_entry(ROOT_PATH), test_entry("FILE.BIN")],
        vec!["FILE.BIN"],
    );
    iso.xa_system_use_omissions = vec![String::from("FILE.BIN")];
    let lengths = sizes(vec![(String::from("FILE.BIN"), 1_u64)]);

    let authored = layout(&iso, &lengths).unwrap();
    let parsed = parse(&authored.blocks).unwrap();

    assert_eq!(parsed.manifest.xa_system_use_omissions, vec!["FILE.BIN"]);
    assert_eq!(
        layout(&parsed.manifest, &lengths).unwrap().blocks,
        authored.blocks
    );
}

#[test]
fn avoid_exact_fit_directory_packing_starts_the_record_in_the_next_block() {
    assert_eq!(
        packed_blocks(&[1986, 62], DirectoryRecordPacking::AvoidExactFit),
        2
    );
}

#[test]
fn volume_times_use_readable_centiseconds_and_quarter_hour_offsets() {
    let creation: [u8; 17] = hex::decode("3030303030363136303934353531303024")
        .unwrap()
        .try_into()
        .unwrap();
    let readable = "0000-06-16T09:45:51.00+09:00";
    assert_eq!(
        parse_volume_time(&creation).unwrap().as_deref(),
        Some(readable)
    );
    assert_eq!(serialize_volume_time(Some(readable)).unwrap(), creation);

    let mut unspecified = [b'0'; 17];
    unspecified[16] = 0;
    assert_eq!(parse_volume_time(&unspecified).unwrap(), None);
    assert_eq!(serialize_volume_time(None).unwrap(), unspecified);

    let mut negative_offset = *b"2024022903040599\0";
    negative_offset[16] = (-1_i8).to_ne_bytes()[0];
    let readable = "2024-02-29T03:04:05.99-00:15";
    assert_eq!(
        parse_volume_time(&negative_offset).unwrap().as_deref(),
        Some(readable)
    );
    assert_eq!(
        serialize_volume_time(Some(readable)).unwrap(),
        negative_offset
    );
}

#[test]
fn volume_times_reject_invalid_or_lossy_values() {
    for value in [
        "2023-02-29T03:04:05.00+00:00",
        "2024-01-01T24:00:00.00+00:00",
        "2024-01-01T00:00:00.00+00:10",
        "2024-01-01T00:00:00.00-00:00",
        "2024-01-01 00:00:00.00+00:00",
    ] {
        assert!(
            serialize_volume_time(Some(value)).is_err(),
            "accepted {value}"
        );
    }
}

#[test]
fn invalid_volume_time_bytes_round_trip_through_hex_fallback() {
    let invalid = *b"1995063103150000$";
    let raw = "hex:3139393530363331303331353030303024";

    assert_eq!(parse_volume_time(&invalid).unwrap().as_deref(), Some(raw));
    assert_eq!(serialize_volume_time(Some(raw)).unwrap(), invalid);
    assert!(serialize_volume_time(Some("hex:00")).is_err());
}

#[test]
fn directory_recording_times_are_human_readable_and_exact() {
    let root = [0x00, 0x06, 0x10, 0x09, 0x2d, 0x33, 0x24];
    let readable = "1900-06-16T09:45:51+09:00";
    assert_eq!(parse_recording_time(root), readable);
    assert_eq!(serialize_recording_time(readable).unwrap(), root);

    let file = [0x62, 0x03, 0x13, 0x0b, 0x3a, 0x24, 0x24];
    let readable = "1998-03-19T11:58:36+09:00";
    assert_eq!(parse_recording_time(file), readable);
    assert_eq!(serialize_recording_time(readable).unwrap(), file);

    let limit = [0xff, 12, 31, 23, 59, 59, (-1_i8).to_ne_bytes()[0]];
    let readable = "2155-12-31T23:59:59-00:15";
    assert_eq!(parse_recording_time(limit), readable);
    assert_eq!(serialize_recording_time(readable).unwrap(), limit);
}

#[test]
fn directory_recording_times_reject_unrepresentable_values() {
    for value in [
        "1899-12-31T23:59:59+00:00",
        "2156-01-01T00:00:00+00:00",
        "2024-02-30T00:00:00+00:00",
        "2024-01-01T00:00:00.00+00:00",
        "2024-01-01T00:00:00+00:10",
    ] {
        assert!(serialize_recording_time(value).is_err(), "accepted {value}");
    }
}

#[test]
fn invalid_directory_time_bytes_round_trip_through_hex_fallback() {
    let invalid = [0x5f, 0x06, 0x1f, 0x03, 0x0f, 0x00, 0x24];
    let raw = "hex:5f061f030f0024";

    assert_eq!(parse_recording_time(invalid), raw);
    assert_eq!(serialize_recording_time(raw).unwrap(), invalid);
    assert!(serialize_recording_time("hex:00").is_err());
}

#[test]
fn record_with_odd_identifier_needs_no_padding_byte() {
    assert_eq!(record_size(11, 14), 58);
    assert_eq!(record_size(12, 14), 60);
}

#[test]
fn level_one_names_are_validated() {
    validate_path("DIR/FILE.BIN", true, IdentifierPolicy::IsoLevel1).unwrap();
    assert!(validate_path("dir/file.bin", true, IdentifierPolicy::IsoLevel1).is_err());
    assert!(validate_path("../FILE.BIN", true, IdentifierPolicy::IsoLevel1).is_err());
    assert!(validate_path("TOO_LONG_NAME.BIN", true, IdentifierPolicy::IsoLevel1).is_err());
}

#[test]
fn files_list_declares_kind_and_physical_order() {
    let root = test_entry(".");
    let file = test_entry("FILE.BIN");
    validate_entries(&test_iso(
        vec![root.clone(), file.clone()],
        vec!["FILE.BIN"],
    ))
    .unwrap();

    assert!(validate_entries(&test_iso(vec![file.clone()], vec!["FILE.BIN"])).is_err());
    assert!(
        validate_entries(&test_iso(
            vec![file.clone(), root.clone()],
            vec!["FILE.BIN"]
        ))
        .is_err()
    );
    assert!(validate_entries(&test_iso(vec![root.clone()], vec!["."])).is_err());
    assert!(validate_entries(&test_iso(vec![root.clone()], vec!["MISSING.BIN"])).is_err());
    assert!(
        validate_entries(&test_iso(vec![root, file], vec!["FILE.BIN", "FILE.BIN"],)).is_err()
    );
}

#[test]
fn directories_are_placed_immediately_before_their_first_file() {
    let iso = test_iso(
        vec![
            test_entry(ROOT_PATH),
            test_entry("ROOT.BIN"),
            test_entry("S0"),
            test_entry("S0/A.BIN"),
            test_entry("S1"),
            test_entry("S1/B.BIN"),
        ],
        vec!["ROOT.BIN", "S0/A.BIN", "S1/B.BIN"],
    );
    let file_lengths = sizes(vec![
        ("ROOT.BIN".to_owned(), LOGICAL_BLOCK_SIZE as u64),
        ("S0/A.BIN".to_owned(), LOGICAL_BLOCK_SIZE as u64),
        ("S1/B.BIN".to_owned(), LOGICAL_BLOCK_SIZE as u64),
    ]);

    let authored = layout(&iso, &file_lengths).unwrap();
    assert_eq!(
        authored
            .files
            .iter()
            .map(|file| (file.path.as_str(), file.extent))
            .collect::<Vec<_>>(),
        vec![("ROOT.BIN", 23), ("S0/A.BIN", 25), ("S1/B.BIN", 27)]
    );
    assert_eq!(
        [2, 12, 22].map(|offset| {
            u32::from_le_bytes(authored.blocks[18][offset..offset + 4].try_into().unwrap())
        }),
        [22, 24, 26]
    );
}

#[test]
fn mode2_2336_length_encoding_changes_only_the_directory_record_length() {
    let mut stream = test_entry("MOVIE.STR");
    stream.xa = Some(EntryXa {
        form1: Some("MOVIE.STR.XA1".to_owned()),
        form2: Some("MOVIE.STR.XA2".to_owned()),
        index: Some("MOVIE.STR.XAI".to_owned()),
        length_encoding: XaLengthEncoding::Mode2_2336,
        ..EntryXa::default()
    });
    let iso = test_iso(vec![test_entry(ROOT_PATH), stream], vec!["MOVIE.STR"]);
    let lengths = sizes(vec![("MOVIE.STR".to_owned(), 2 * LOGICAL_BLOCK_SIZE as u64)]);

    let authored = layout(&iso, &lengths).unwrap();
    let root = parse_record(&authored.blocks[16][156..]).unwrap();
    let records = read_directory(&authored.blocks, root.extent, root.length)
        .unwrap()
        .records;

    assert_eq!(authored.files[0].blocks, 2);
    assert_eq!(records[2].length, 2 * 2336);
}

#[test]
fn explicit_directory_item_controls_empty_directory_placement() {
    let mut iso = test_iso(
        vec![
            test_entry(ROOT_PATH),
            test_entry("EMPTY"),
            test_entry("FILE.BIN"),
        ],
        vec!["FILE.BIN"],
    );
    iso.files.insert(0, directory_item("EMPTY"));
    let lengths = sizes(vec![("FILE.BIN".to_owned(), LOGICAL_BLOCK_SIZE as u64)]);

    let authored = layout(&iso, &lengths).unwrap();

    assert_eq!(authored.files[0].extent, 24);
    assert_eq!(
        u32::from_le_bytes(authored.blocks[18][12..16].try_into().unwrap()),
        23
    );
}

#[test]
fn explicit_directory_item_can_follow_a_file_in_that_directory() {
    let mut iso = test_iso(
        vec![
            test_entry(ROOT_PATH),
            test_entry("DD"),
            test_entry("DD/A.BIN"),
        ],
        vec!["DD/A.BIN"],
    );
    iso.files.push(directory_item("DD"));
    let lengths = sizes(vec![("DD/A.BIN".to_owned(), LOGICAL_BLOCK_SIZE as u64)]);

    let authored = layout(&iso, &lengths).unwrap();

    assert_eq!(authored.files[0].extent, 23);
    assert_eq!(
        u32::from_le_bytes(authored.blocks[18][12..16].try_into().unwrap()),
        24
    );
}

#[test]
fn unreferenced_xa_extent_occupies_its_physical_position() {
    let mut iso = test_iso(
        vec![
            test_entry(ROOT_PATH),
            test_entry("A.BIN"),
            test_entry("B.BIN"),
        ],
        vec!["A.BIN", "B.BIN"],
    );
    let assets = XaExtentAssets {
        form1: "disc.unreferenced.000.XA1".to_owned(),
        form2: "disc.unreferenced.000.XA2".to_owned(),
        index: "disc.unreferenced.000.XAI".to_owned(),
        gap_index: None,
    };
    iso.files
        .insert(1, xa_extent_item(assets.clone()));
    let lengths = sizes(vec![
        ("A.BIN".to_owned(), LOGICAL_BLOCK_SIZE as u64),
        ("B.BIN".to_owned(), LOGICAL_BLOCK_SIZE as u64),
        (assets.index.clone(), 2 * LOGICAL_BLOCK_SIZE as u64),
    ]);

    let authored = layout(&iso, &lengths).unwrap();

    assert_eq!(
        authored
            .files
            .iter()
            .map(|file| (file.path.as_str(), file.extent))
            .collect::<Vec<_>>(),
        vec![("A.BIN", 23), ("B.BIN", 26)]
    );
    assert_eq!(authored.xa_extents.len(), 1);
    assert_eq!(authored.xa_extents[0].index, assets.index);
    assert_eq!(authored.xa_extents[0].start, 24);
    assert_eq!(authored.xa_extents[0].sectors, 2);
}

#[test]
fn ordered_gaps_shift_only_the_following_and_later_files() {
    let mut iso = test_iso(
        vec![
            test_entry(ROOT_PATH),
            test_entry("A.BIN"),
            test_entry("B.BIN"),
        ],
        vec!["A.BIN", "B.BIN"],
    );
    iso.files.insert(1, gap_item(3));
    let lengths = sizes(vec![
        ("A.BIN".to_owned(), LOGICAL_BLOCK_SIZE as u64),
        ("B.BIN".to_owned(), LOGICAL_BLOCK_SIZE as u64),
    ]);

    let authored = layout(&iso, &lengths).unwrap();
    assert_eq!(authored.files[0].extent, 23);
    assert_eq!(authored.files[1].extent, 27);
}

#[test]
fn consecutive_different_gap_kinds_are_placed_in_order() {
    let mut iso = test_iso(
        vec![
            test_entry(ROOT_PATH),
            test_entry("A.BIN"),
            test_entry("B.BIN"),
        ],
        vec!["A.BIN", "B.BIN"],
    );
    iso.files.splice(
        1..1,
        [
            form1_gap_item(1, XaSubheader::default()),
            gap_item(2),
        ],
    );
    let lengths = sizes(vec![
        ("A.BIN".to_owned(), LOGICAL_BLOCK_SIZE as u64),
        ("B.BIN".to_owned(), LOGICAL_BLOCK_SIZE as u64),
    ]);

    let authored = layout(&iso, &lengths).unwrap();

    assert_eq!(authored.files[0].extent, 23);
    assert_eq!(authored.files[1].extent, 27);
    assert_eq!(authored.gaps[0].start, 24);
    assert_eq!(authored.gaps[1].start, 25);
}

#[test]
fn consecutive_form1_gaps_with_different_subheaders_are_placed_in_order() {
    let mut iso = test_iso(
        vec![
            test_entry(ROOT_PATH),
            test_entry("A.BIN"),
            test_entry("B.BIN"),
        ],
        vec!["A.BIN", "B.BIN"],
    );
    let second_subheader = XaSubheader {
        file_number: 1,
        ..XaSubheader::default()
    };
    iso.files.splice(
        1..1,
        [
            form1_gap_item(1, XaSubheader::default()),
            form1_gap_item(2, second_subheader),
        ],
    );
    let lengths = sizes(vec![
        ("A.BIN".to_owned(), LOGICAL_BLOCK_SIZE as u64),
        ("B.BIN".to_owned(), LOGICAL_BLOCK_SIZE as u64),
    ]);

    let authored = layout(&iso, &lengths).unwrap();

    assert_eq!(authored.files[0].extent, 23);
    assert_eq!(authored.files[1].extent, 27);
    assert_eq!(authored.gaps[0].start, 24);
    assert_eq!(authored.gaps[1].start, 25);
}

#[test]
fn physical_gaps_reject_zero_redundant_and_nonfinal_xa_items() {
    let base = test_iso(
        vec![
            test_entry(ROOT_PATH),
            test_entry("A.BIN"),
            test_entry("B.BIN"),
        ],
        vec!["A.BIN", "B.BIN"],
    );
    for files in [
        vec![
            path_item("A.BIN"),
            gap_item(0),
            path_item("B.BIN"),
        ],
        vec![
            path_item("A.BIN"),
            gap_item(1),
            gap_item(2),
            path_item("B.BIN"),
        ],
        vec![
            path_item("A.BIN"),
            xa_gap_item(1),
            path_item("B.BIN"),
        ],
    ] {
        let mut iso = base.clone();
        iso.files = files;
        assert!(validate(&iso).is_err());
    }
}

#[test]
fn entry_xa_metadata_must_match_entry_structure() {
    let mut file = test_entry("FILE.BIN");
    file.xa = Some(EntryXa {
        group_id: 0,
        user_id: 0,
        permissions: DEFAULT_XA_PERMISSIONS,
        attributes: Some(XaAttributes::from_bits(
            XaAttributes::single(XaAttributeFlag::Mode2Form1).bits() | XaAttributes::single(XaAttributeFlag::Directory).bits(),
        )),
        file_number: 0,
        form1: None,
        form2: None,
        index: None,
        gap_index: None,
        logical_length: None,
        length_encoding: XaLengthEncoding::default(),
        framing_subheader: None,
    });
    assert!(
        validate(&test_iso(
            vec![test_entry(ROOT_PATH), file],
            vec!["FILE.BIN"]
        ))
        .is_err()
    );

    let mut directory = test_entry(ROOT_PATH);
    directory.xa = Some(EntryXa {
        group_id: 0,
        user_id: 0,
        permissions: DEFAULT_XA_PERMISSIONS,
        attributes: Some(XaAttributes::from_bits(
            XaAttributes::single(XaAttributeFlag::Mode2Form1).bits() | XaAttributes::single(XaAttributeFlag::Directory).bits(),
        )),
        file_number: 0,
        form1: Some("ROOT.XA1".to_owned()),
        form2: Some("ROOT.XA2".to_owned()),
        index: Some("ROOT.XAI".to_owned()),
        gap_index: None,
        logical_length: None,
        length_encoding: XaLengthEncoding::default(),
        framing_subheader: None,
    });
    assert!(validate(&test_iso(vec![directory], vec![])).is_err());

    let mut mixed_without_assets = test_entry("MOVIE.STR");
    mixed_without_assets.xa = Some(EntryXa {
        attributes: Some(XaAttributes::from_bits(
            XaAttributes::single(XaAttributeFlag::Mode2Form1).bits() | XaAttributes::single(XaAttributeFlag::Mode2Form2).bits(),
        )),
        ..EntryXa::default()
    });
    assert!(
        validate(&test_iso(
            vec![test_entry(ROOT_PATH), mixed_without_assets],
            vec!["MOVIE.STR"],
        ))
        .is_err()
    );

    let mut assets_without_mixed_attributes = test_entry("MOVIE.STR");
    assets_without_mixed_attributes.xa = Some(EntryXa {
        form1: Some("MOVIE.STR.XA1".to_owned()),
        form2: Some("MOVIE.STR.XA2".to_owned()),
        index: Some("MOVIE.STR.XAI".to_owned()),
        ..EntryXa::default()
    });
    validate(&test_iso(
        vec![test_entry(ROOT_PATH), assets_without_mixed_attributes],
        vec!["MOVIE.STR"],
    ))
    .unwrap();
}

#[test]
fn explicit_nonstandard_ascii_identifier_policy_accepts_tilde() {
    let mut iso = test_iso(
        vec![test_entry(ROOT_PATH), test_entry("ALPHA~5V.BAK")],
        vec!["ALPHA~5V.BAK"],
    );
    iso.identifier_policy = IdentifierPolicy::NonstandardAscii;
    let lengths = sizes(vec![("ALPHA~5V.BAK".to_owned(), 1_u64)]);

    layout(&iso, &lengths).unwrap();
}

#[test]
fn fixed_directory_record_fields_are_validated_and_generated() {
    let mut record = Record {
        extent: 0,
        length: 0,
        recording_time: [0, 1, 1, 0, 0, 0, 0],
        flags: 0,
        file_unit_size: 0,
        interleave_gap_size: 0,
        volume_sequence_number: 1,
        name: b"FILE.BIN;1".to_vec(),
        system_use: serialize_xa_system_use(&test_entry("FILE.BIN"), false).unwrap(),
        trailing_system_use_padding: false,
    };
    validate_standard_record_fields(&record, false, true).unwrap();
    record.flags = DIRECTORY_FLAG;
    record.system_use = serialize_xa_system_use(&test_entry("DIR"), true).unwrap();
    validate_standard_record_fields(&record, true, true).unwrap();

    record.flags = 4;
    assert!(validate_standard_record_fields(&record, false, true).is_err());
    record.flags = 0;
    record.system_use = serialize_xa_system_use(&test_entry("FILE.BIN"), false).unwrap();
    record.file_unit_size = 1;
    assert!(validate_standard_record_fields(&record, false, true).is_err());
    record.file_unit_size = 0;
    record.interleave_gap_size = 1;
    assert!(validate_standard_record_fields(&record, false, true).is_err());
    record.interleave_gap_size = 0;
    record.volume_sequence_number = 2;
    assert!(validate_standard_record_fields(&record, false, true).is_err());

    assert_eq!(identifier("FILE.BIN", true), "FILE.BIN;1");
}

#[test]
fn hidden_directory_record_flag_is_structured_and_rebuilt() {
    let mut entry = test_entry("SECRET.BIN");
    entry.hidden = true;

    let bytes = make_record(&entry, 24, 7, b"SECRET.BIN;1".to_vec(), false).unwrap();
    let record = parse_record(&bytes).unwrap();

    assert_eq!(record.flags, 1);
    validate_standard_record_fields(&record, false, true).unwrap();
}

#[test]
fn associated_directory_record_flag_is_supported() {
    let mut entry = test_entry("RESOURCE.BIN");
    entry.associated = true;
    let bytes = make_record(
        &entry,
        24,
        LOGICAL_BLOCK_SIZE as u32,
        b"RESOURCE.BIN;1".to_vec(),
        false,
    )
    .unwrap();
    let mut record = parse_record(&bytes).unwrap();
    assert_eq!(record.flags, ASSOCIATED_FLAG);
    validate_standard_record_fields(&record, false, true).unwrap();

    record.flags |= DIRECTORY_FLAG;
    record.name = b"RESOURCE".to_vec();
    record.system_use = serialize_xa_system_use(&entry, true).unwrap();
    validate_standard_record_fields(&record, true, true).unwrap();
}

#[test]
fn directory_can_omit_xa_directory_attribute() {
    let record = Record {
        extent: 22,
        length: LOGICAL_BLOCK_SIZE as u32,
        recording_time: [100, 1, 1, 0, 0, 0, 0],
        flags: DIRECTORY_FLAG,
        file_unit_size: 0,
        interleave_gap_size: 0,
        volume_sequence_number: 1,
        name: b"DIR".to_vec(),
        system_use: [0, 0, 0, 0, 0, 0x88, b'X', b'A', 0, 0, 0, 0, 0, 0].to_vec(),
        trailing_system_use_padding: false,
    };

    let xa = entry_xa(&record, true, true).unwrap().unwrap();
    assert_eq!(xa.attributes, Some(XaAttributes::from_bits(0)));
    assert_eq!(
        serialize_xa_system_use(
            &Entry {
                path: "DIR".to_owned(),
                recording_time: "2000-01-01T00:00:00+00:00".to_owned(),
                hidden: false,
                associated: false,
                unbacked: false,
                directory_reference: None,
                directory_slack: None,
                allocation_padding_hex: None,
                sector_subheader: EntrySectorSubheader::Canonical,
                xa: Some(xa),
                extent: None,
                length: None,
            },
            true,
        )
        .unwrap(),
        record.system_use
    );
}

#[test]
fn interleaved_xa_system_use_decodes_named_attributes() {
    let record = Record {
        extent: 60_000,
        length: 50_348_032,
        recording_time: [98, 1, 1, 0, 0, 0, 0],
        flags: 0,
        file_unit_size: 0,
        interleave_gap_size: 0,
        volume_sequence_number: 1,
        name: b"PETEXA0.STR;1".to_vec(),
        system_use: [0, 0, 0, 0, 0x25, 0x55, b'X', b'A', 1, 0, 0, 0, 0, 0].to_vec(),
        trailing_system_use_padding: false,
    };

    let xa = entry_xa(&record, false, true).unwrap().unwrap();
    assert_eq!(xa.attributes, Some(XaAttributes::single(XaAttributeFlag::Interleaved)));
    assert_eq!(xa.file_number, 1);
    assert_eq!(
        serialize_xa_system_use(
            &Entry {
                path: "PETEXA0.STR".to_owned(),
                recording_time: "1998-01-01T00:00:00+00:00".to_owned(),
                hidden: false,
                associated: false,
                unbacked: false,
                directory_reference: None,
                directory_slack: None,
                allocation_padding_hex: None,
                sector_subheader: EntrySectorSubheader::Canonical,
                xa: Some(xa),
                extent: None,
                length: None,
            },
            false,
        )
        .unwrap(),
        record.system_use
    );
}

#[test]
fn nondefault_xa_permission_bits_are_preserved() {
    let record = Record {
        extent: 24,
        length: 61,
        recording_time: [99, 1, 1, 0, 0, 0, 0],
        flags: 0,
        file_unit_size: 0,
        interleave_gap_size: 0,
        volume_sequence_number: 1,
        name: b"SYSTEM.CNF;1".to_vec(),
        system_use: [0, 0, 0, 0, 0x09, 0x11, b'X', b'A', 0, 0, 0, 0, 0, 0].to_vec(),
        trailing_system_use_padding: false,
    };

    let xa = entry_xa(&record, false, true).unwrap().unwrap();
    assert_eq!(xa.permissions, 0x0111);
    assert_eq!(
        serialize_xa_system_use(
            &Entry {
                path: "SYSTEM.CNF".to_owned(),
                recording_time: "1999-01-01T00:00:00+00:00".to_owned(),
                hidden: false,
                associated: false,
                unbacked: false,
                directory_reference: None,
                directory_slack: None,
                allocation_padding_hex: None,
                sector_subheader: EntrySectorSubheader::Canonical,
                xa: Some(xa),
                extent: None,
                length: None,
            },
            false,
        )
        .unwrap(),
        record.system_use
    );
}

#[test]
fn cdda_directory_records_are_external_references_not_authored_files() {
    let mut audio = test_entry("MUSIC.SWP");
    audio.xa = Some(EntryXa {
        attributes: Some(XaAttributes::single(XaAttributeFlag::Cdda)),
        ..EntryXa::default()
    });
    audio.extent = Some(25);
    audio.length = Some(2048);
    let iso = test_iso(vec![test_entry(ROOT_PATH), audio], vec![]);
    let lengths: Vec<FileLength> = Vec::new();
    let authored = layout(&iso, &lengths).unwrap();
    assert_eq!(authored.volume_blocks, 23);
    assert_eq!(read_both_u32(&authored.blocks[16], 80).unwrap(), 26);

    let parsed = parse(&authored.blocks).unwrap();
    assert!(parsed.files.is_empty());
    assert_eq!(parsed.manifest.entries[1].extent, Some(25));
    assert_eq!(parsed.manifest.entries[1].length, Some(2048));
}

#[test]
fn empty_external_cdda_directory_record_is_preserved() {
    let mut audio = test_entry("BLANK.RAW");
    audio.xa = Some(EntryXa {
        attributes: Some(XaAttributes::single(XaAttributeFlag::Cdda)),
        ..EntryXa::default()
    });
    audio.extent = Some(30_692);
    audio.length = Some(0);
    let iso = test_iso(vec![test_entry(ROOT_PATH), audio], vec![]);

    let authored = layout(&iso, &[]).unwrap();
    let parsed = parse(&authored.blocks).unwrap();

    assert_eq!(parsed.manifest.entries[1].extent, Some(30_692));
    assert_eq!(parsed.manifest.entries[1].length, Some(0));
}

#[test]
fn external_cdda_extent_may_overlap_the_authored_data_track() {
    let mut audio = test_entry("SILENCE.DA");
    audio.xa = Some(EntryXa {
        attributes: Some(XaAttributes::single(XaAttributeFlag::Cdda)),
        ..EntryXa::default()
    });
    audio.extent = Some(0);
    audio.length = Some(2048);
    let iso = test_iso(vec![test_entry(ROOT_PATH), audio], vec![]);

    let authored = layout(&iso, &[]).unwrap();
    let parsed = parse(&authored.blocks).unwrap();

    assert_eq!(parsed.manifest.entries[1].extent, Some(0));
    assert_eq!(parsed.manifest.entries[1].length, Some(2048));
}

#[test]
fn overlapping_xa_references_must_be_backed_by_one_physical_xa_extent() {
    let mut first = test_entry("FIRST.XA");
    first.xa = Some(EntryXa {
        attributes: Some(XaAttributes::single(XaAttributeFlag::Interleaved)),
        ..EntryXa::default()
    });
    first.extent = Some(23);
    first.length = Some(4096);
    let mut second = test_entry("SECOND.XA");
    second.xa = Some(EntryXa {
        attributes: Some(XaAttributes::single(XaAttributeFlag::Mode2Form2)),
        ..EntryXa::default()
    });
    second.extent = Some(24);
    second.length = Some(4096);
    let mut iso = test_iso(vec![test_entry(ROOT_PATH), first, second], vec![]);
    assert_eq!(
        layout(&iso, &[]).unwrap_err().message(),
        "fixed XA reference is not backed by a physical XA extent: FIRST.XA"
    );
    iso.files
        .push(xa_extent_item(XaExtentAssets {
            form1: "stream.XA1".to_owned(),
            form2: "stream.XA2".to_owned(),
            index: "stream.XAI".to_owned(),
            gap_index: None,
        }));
    let lengths = sizes(vec![(String::from("stream.XAI"), 6144_u64)]);

    let authored = layout(&iso, &lengths).unwrap();

    assert_eq!(authored.xa_extents[0].start, 23);
    assert_eq!(authored.xa_extents[0].sectors, 3);
    let parsed = parse(&authored.blocks).unwrap();
    assert_eq!(parsed.files[0].extent, 23);
    assert_eq!(parsed.files[0].length, 4096);
    assert_eq!(parsed.files[1].extent, 24);
    assert_eq!(parsed.files[1].length, 4096);
}

#[test]
fn external_cdda_parent_directory_precedes_local_file_data() {
    let mut external = test_entry("AUDIO/MUSIC.SWP");
    external.xa = Some(EntryXa {
        attributes: Some(XaAttributes::single(XaAttributeFlag::Cdda)),
        ..EntryXa::default()
    });
    external.extent = Some(100);
    external.length = Some(2048);
    let iso = test_iso(
        vec![
            test_entry(ROOT_PATH),
            test_entry("AUDIO"),
            test_entry("LOCAL.BIN"),
            external,
        ],
        vec!["LOCAL.BIN"],
    );
    let lengths = sizes(vec![(String::from("LOCAL.BIN"), 2048_u64)]);

    let authored = layout(&iso, &lengths).unwrap();
    assert_eq!(authored.files[0].extent, 24);
}

#[test]
fn times_of_any_numbers_are_formatted() {
    let time = VolumeTime {
        year: 12345,
        month: 200,
        day: 7,
        hour: 0,
        minute: 255,
        second: 9,
        centisecond: 123,
        offset_quarters: -128,
    };
    assert_eq!(format_recording_time(time), "12345-200-07T00:255:09-32:00");
    assert_eq!(format_volume_time(time), "12345-200-07T00:255:09.123-32:00");
    let short = VolumeTime {
        year: 7,
        month: 1,
        day: 2,
        hour: 3,
        minute: 4,
        second: 5,
        centisecond: 6,
        offset_quarters: 5,
    };
    assert_eq!(format_recording_time(short), "0007-01-02T03:04:05+01:15");
    assert_eq!(format_volume_time(short), "0007-01-02T03:04:05.06+01:15");
}

#[test]
fn decimals_of_any_length_are_read() {
    assert_eq!(parse_decimal(b"65535").unwrap(), 65535);
    assert_eq!(parse_decimal(b"0000000042").unwrap(), 42);
    assert_eq!(parse_decimal(b"").unwrap(), 0);
    assert!(parse_decimal(b"123x5").is_err());
}

#[test]
fn directories_of_no_nodes_are_unreachable() {
    let nodes: Vec<Node> = Vec::new();
    let error = order_directories(&nodes, ErrorKind::UnreachableJolietDirectory)
        .err()
        .unwrap();
    assert_eq!(error.kind, ErrorKind::UnreachableJolietDirectory);
}

#[test]
fn joliet_descriptor_without_entries_is_refused() {
    let volume = JolietVolume {
        level: JolietLevel::Level3,
        flags: 0,
        zero_fill_empty_strings: false,
        zero_pad_strings: false,
        volume_set_identifier_raw_hex: None,
        descriptor: parse_pvd(&standard_pvd_block()).unwrap(),
        xa_system_use: false,
        path_table_size: None,
        path_table_little_hex: None,
        path_table_big_hex: None,
        file_identifier_odd_bytes_hex: None,
        entries: Vec::new(),
    };
    let place = DescriptorPlace {
        volume_blocks: 20,
        path_table_size: 10,
        pointers: [18, 19, 20, 21],
        root_extent: 22,
        root_length: 2048,
    };
    assert_eq!(
        serialize_joliet_svd(&volume, &place).unwrap_err().message(),
        "missing Joliet root entry"
    );
}
