//! What holds of several functions together, on values.
use gcdgold::iso9660::description::{
    DirectoryReference, Entry, FileLayoutItem, GapItem, IdentifierPolicy, Iso9660, JolietEntry,
    JolietVolume, MetadataLayoutItem, MetadataPathTable, PathTableCopies, PrimaryVolume,
    RootDirectoryIdentifier,
};
use gcdgold::iso9660::descriptor::parse_pvd;
use gcdgold::iso9660::descriptor_write::{serialize_pvd, DescriptorPlace};
use gcdgold::iso9660::layout::{layout, Layout};
use gcdgold::iso9660::parse::parse;
use gcdgold::iso9660::placing::FileLength;
use gcdgold::manifest::{
    DirectoryLengthPolicy, DirectoryParentRecordingTime, DirectoryRecordPacking,
    EntrySectorSubheader, GapKind, IsoMetadataSubheader, JolietLevel, MetadataVolume,
    PathTableOrder, PrimaryVolumeApplicationUse, PvdU16Encoding,
};
use gcdgold::raw_cd::image::parse_image;
use gcdgold::raw_cd::msf::{format_msf, parse_msf};
use gcdgold::raw_cd::sector::{Kind, SectorWriter};
use gcdgold::raw_cd::RAW_SECTOR_SIZE;
use gcdgold::xa::{XaSubheader, XaSubmode, XaSubmodeFlag};

fn entry(path: &str) -> Entry {
    Entry {
        path: path.to_owned(),
        recording_time: "1999-12-31T23:59:58+09:00".to_owned(),
        hidden: path == "DATA",
        associated: false,
        unbacked: false,
        directory_reference: None,
        directory_slack: None,
        allocation_padding_hex: None,
        sector_subheader: EntrySectorSubheader::Canonical,
        xa: None,
        extent: None,
        length: None,
    }
}

fn volume() -> PrimaryVolume {
    PrimaryVolume {
        volume_space_size: None,
        file_structure_version: None,
        u16_encoding: PvdU16Encoding::BothEndian,
        application_use: PrimaryVolumeApplicationUse::CdXa001,
        application_use_hex: None,
        root_directory_record_length: None,
        root_directory_recording_time: None,
        root_directory_identifier: RootDirectoryIdentifier::Current,
        escape_sequence: None,
        system_identifier: "PLAYSTATION".to_owned(),
        volume_identifier: "DISC".to_owned(),
        volume_set_identifier: "DISC SET".to_owned(),
        publisher_identifier: "PUBLISHER".to_owned(),
        data_preparer_identifier: "PREPARER".to_owned(),
        application_identifier: "APPLICATION".to_owned(),
        copyright_file_identifier: "COPY.TXT".to_owned(),
        abstract_file_identifier: String::new(),
        bibliographic_file_identifier: String::new(),
        reserved_hex: None,
        creation_time: None,
        modification_time: None,
        expiration_time: None,
        effective_time: None,
    }
}

fn filesystem(entries: Vec<Entry>, files: &[&str]) -> Iso9660 {
    Iso9660 {
        primary_volume: volume(),
        primary_volume_copies: 2,
        supplementary_volumes: Vec::new(),
        metadata_layout: Vec::new(),
        xa_system_use: true,
        xa_system_use_omissions: Vec::new(),
        metadata_subheader: IsoMetadataSubheader::Canonical,
        metadata_framing_subheader: None,
        identifier_policy: IdentifierPolicy::IsoLevel1,
        directory_record_packing: DirectoryRecordPacking::Fill,
        directory_parent_recording_time: DirectoryParentRecordingTime::Parent,
        directory_length_policy: DirectoryLengthPolicy::Allocated,
        path_table_size: None,
        path_table_padding: 1,
        path_table_little_hex: None,
        path_table_big_hex: None,
        path_table_copies: PathTableCopies::Duplicate,
        path_table_order: PathTableOrder::BigEndianFirst,
        path_table_subheader: EntrySectorSubheader::Canonical,
        path_table_framing_subheader: None,
        entries,
        files: files
            .iter()
            .map(|path| FileLayoutItem::Path {
                path: (*path).to_owned(),
            })
            .collect(),
    }
}

fn lengths(pairs: &[(&str, u64)]) -> Vec<FileLength> {
    pairs
        .iter()
        .map(|(path, length)| FileLength {
            path: (*path).to_owned(),
            length: *length,
        })
        .collect()
}

fn small_tree() -> (Iso9660, Vec<FileLength>) {
    let mut reference = entry("OLD");
    reference.directory_reference = Some(DirectoryReference {
        extent: 500,
        length: 0,
    });
    let iso = filesystem(
        vec![
            entry("."),
            entry("A.BIN"),
            entry("DATA"),
            reference,
            entry("DATA/B.BIN"),
            entry("DATA/SUB"),
            entry("DATA/SUB/C.BIN"),
        ],
        &["A.BIN", "DATA/B.BIN", "DATA/SUB/C.BIN"],
    );
    let sizes = lengths(&[
        ("A.BIN", 2049),
        ("DATA/B.BIN", 1),
        ("DATA/SUB/C.BIN", 4096),
    ]);
    (iso, sizes)
}

fn parts(laid_out: &Layout, directories: &[(u32, u32)]) -> Vec<(u32, u32)> {
    let mut parts: Vec<(u32, u32)> = laid_out
        .files
        .iter()
        .map(|file| (file.extent, file.blocks))
        .collect();
    parts.extend(laid_out.gaps.iter().map(|gap| (gap.start, gap.sectors)));
    parts.extend_from_slice(directories);
    parts.sort_unstable();
    parts
}

#[test]
fn laid_out_tree_is_read_back() {
    let (iso, sizes) = small_tree();
    let laid_out = layout(&iso, &sizes).unwrap();
    let parsed = parse(&laid_out.blocks).unwrap();
    let paths: Vec<&str> = parsed
        .manifest
        .entries
        .iter()
        .map(|entry| entry.path.as_str())
        .collect();
    assert_eq!(
        paths,
        [".", "A.BIN", "DATA", "OLD", "DATA/B.BIN", "DATA/SUB", "DATA/SUB/C.BIN"]
    );
    for (read, written) in parsed.manifest.entries.iter().zip(&iso.entries) {
        assert_eq!(read.recording_time, written.recording_time);
        assert_eq!(read.hidden, written.hidden);
        assert_eq!(read.directory_reference, written.directory_reference);
        assert!(read.xa.is_none());
    }
    let directories: Vec<&str> = parsed
        .directories
        .iter()
        .map(|directory| directory.path.as_str())
        .collect();
    assert_eq!(directories, [".", "DATA", "OLD", "DATA/SUB"]);
    assert_eq!(parsed.manifest.primary_volume_copies, 2);
    assert_eq!(parsed.manifest.path_table_padding, 1);
    assert_eq!(parsed.manifest.path_table_order, PathTableOrder::BigEndianFirst);
    assert_eq!(parsed.manifest.path_table_copies, PathTableCopies::Duplicate);
}

#[test]
fn read_filesystem_is_laid_out_the_same() {
    let (iso, sizes) = small_tree();
    let laid_out = layout(&iso, &sizes).unwrap();
    let parsed = parse(&laid_out.blocks).unwrap();
    let again = layout(&parsed.manifest, &sizes).unwrap();
    assert_eq!(again.blocks, laid_out.blocks);
    let reread = parse(&again.blocks).unwrap();
    assert_eq!(
        format!("{:?}", reread.manifest),
        format!("{:?}", parsed.manifest)
    );
}

fn gap(sectors: u32) -> FileLayoutItem {
    FileLayoutItem::Gap {
        gap: GapItem {
            sectors,
            kind: GapKind::Form2,
            subheader: None,
            form2_edc: None,
        },
    }
}

fn depth_first() -> (Iso9660, Vec<FileLength>) {
    let iso = filesystem(
        vec![
            entry("."),
            entry("ROOT.BIN"),
            entry("S0"),
            entry("S0/A.BIN"),
            entry("S1"),
            entry("S1/B.BIN"),
        ],
        &["S1/B.BIN", "ROOT.BIN", "S0/A.BIN"],
    );
    let sizes = lengths(&[("ROOT.BIN", 100), ("S0/A.BIN", 2048), ("S1/B.BIN", 5000)]);
    (iso, sizes)
}

#[test]
fn any_order_of_entries_is_rebuilt() {
    let (iso, sizes) = depth_first();
    let laid_out = layout(&iso, &sizes).unwrap();
    let parsed = parse(&laid_out.blocks).unwrap();
    let paths: Vec<&str> = parsed
        .manifest
        .entries
        .iter()
        .map(|entry| entry.path.as_str())
        .collect();
    assert_eq!(paths, [".", "ROOT.BIN", "S0", "S1", "S0/A.BIN", "S1/B.BIN"]);
    let again = layout(&parsed.manifest, &sizes).unwrap();
    assert_eq!(again.blocks, laid_out.blocks);
    assert_eq!(again.files.len(), 3);
    for (rebuilt, file) in again.files.iter().zip(&laid_out.files) {
        assert_eq!(rebuilt.path, file.path);
        assert_eq!(rebuilt.extent, file.extent);
        assert_eq!(rebuilt.length, file.length);
    }
}

#[test]
fn packing_and_times_are_rebuilt() {
    for packing in [
        DirectoryRecordPacking::Fill,
        DirectoryRecordPacking::AvoidExactFit,
    ] {
        for time in [
            DirectoryParentRecordingTime::Parent,
            DirectoryParentRecordingTime::Current,
        ] {
            let (mut iso, mut sizes) = depth_first();
            iso.xa_system_use = false;
            iso.directory_record_packing = packing;
            iso.directory_parent_recording_time = time;
            iso.entries[4].recording_time = "1998-01-02T03:04:05+00:00".to_owned();
            for index in 0..60 {
                let path = format!("S1/F{index:02}.BIN");
                iso.entries.push(entry(&path));
                iso.files.push(FileLayoutItem::Path { path: path.clone() });
                sizes.push(FileLength { path, length: 7 });
            }
            let laid_out = layout(&iso, &sizes).unwrap();
            let parsed = parse(&laid_out.blocks).unwrap();
            assert_eq!(parsed.manifest.directory_parent_recording_time, time);
            let again = layout(&parsed.manifest, &sizes).unwrap();
            assert_eq!(again.blocks, laid_out.blocks);
        }
    }
}

#[test]
fn sector_descriptions_are_rebuilt() {
    let (mut iso, sizes) = depth_first();
    iso.metadata_subheader = IsoMetadataSubheader::Data;
    iso.path_table_subheader = EntrySectorSubheader::Data;
    iso.entries[1].sector_subheader = EntrySectorSubheader::Data;
    let laid_out = layout(&iso, &sizes).unwrap();
    let parsed = parse(&laid_out.blocks).unwrap();
    let again = layout(&parsed.manifest, &sizes).unwrap();
    assert_eq!(again.blocks, laid_out.blocks);
}

#[test]
fn gap_moves_what_follows_it() {
    let (iso, sizes) = depth_first();
    let before = layout(&iso, &sizes).unwrap();
    for at in 0..3 {
        let (mut iso, sizes) = depth_first();
        iso.files.insert(at, gap(3));
        let after = layout(&iso, &sizes).unwrap();
        assert_eq!(after.files.len(), before.files.len());
        for (index, file) in after.files.iter().enumerate() {
            let moved = if index < at { 0 } else { 3 };
            assert_eq!(file.extent, before.files[index].extent + moved);
            assert_eq!(file.path, before.files[index].path);
            assert_eq!(file.length, before.files[index].length);
            assert_eq!(file.blocks, before.files[index].blocks);
        }
    }
}

fn joliet_entry(path: &str, source: Option<&str>) -> JolietEntry {
    JolietEntry {
        path: path.to_owned(),
        source: source.map(str::to_owned),
        omit_version: path == "data/b.bin",
        recording_time: "2001-02-03T04:05:06+00:00".to_owned(),
        hidden: path == "data",
        associated: false,
        xa: None,
    }
}

fn two_trees() -> (Iso9660, Vec<FileLength>) {
    let mut iso = filesystem(
        vec![entry("."), entry("A.BIN"), entry("DATA"), entry("DATA/B.BIN")],
        &["A.BIN", "DATA/B.BIN"],
    );
    iso.path_table_copies = PathTableCopies::Single;
    iso.path_table_padding = 0;
    iso.supplementary_volumes = vec![JolietVolume {
        level: JolietLevel::Level2,
        flags: 1,
        zero_fill_empty_strings: true,
        zero_pad_strings: false,
        volume_set_identifier_raw_hex: None,
        descriptor: PrimaryVolume {
            publisher_identifier: String::new(),
            ..volume()
        },
        xa_system_use: false,
        path_table_size: None,
        path_table_little_hex: None,
        path_table_big_hex: None,
        file_identifier_odd_bytes_hex: Some("010203".to_owned()),
        entries: vec![
            joliet_entry(".", None),
            joliet_entry("a file.bin", Some("A.BIN")),
            joliet_entry("data", None),
            joliet_entry("data/b.bin", Some("DATA/B.BIN")),
        ],
    }];
    iso.metadata_layout = vec![
        MetadataLayoutItem::PathTable(MetadataPathTable::JolietBig),
        MetadataLayoutItem::Directories(MetadataVolume::Joliet),
        MetadataLayoutItem::PathTable(MetadataPathTable::PrimaryBig),
        MetadataLayoutItem::Gap { gap: 2, kind: GapKind::Xa },
        MetadataLayoutItem::PathTable(MetadataPathTable::PrimaryLittle),
        MetadataLayoutItem::PathTable(MetadataPathTable::JolietLittle),
        MetadataLayoutItem::Directories(MetadataVolume::Primary),
    ];
    let sizes = lengths(&[("A.BIN", 2049), ("DATA/B.BIN", 1)]);
    (iso, sizes)
}

#[test]
fn both_laid_out_trees_are_read_back() {
    let (iso, sizes) = two_trees();
    let laid_out = layout(&iso, &sizes).unwrap();
    let parsed = parse(&laid_out.blocks).unwrap();
    let primary: Vec<&str> = parsed
        .manifest
        .entries
        .iter()
        .map(|entry| entry.path.as_str())
        .collect();
    assert_eq!(primary, [".", "A.BIN", "DATA", "DATA/B.BIN"]);
    let written = &iso.supplementary_volumes[0];
    let read = &parsed.manifest.supplementary_volumes[0];
    assert_eq!(read.level, JolietLevel::Level2);
    assert_eq!(read.flags, 1);
    assert!(!read.xa_system_use);
    assert_eq!(read.file_identifier_odd_bytes_hex, written.file_identifier_odd_bytes_hex);
    assert_eq!(format!("{:?}", read.entries), format!("{:?}", written.entries));
    let directories: Vec<&str> = parsed
        .supplementary_directories
        .iter()
        .map(|directory| directory.path.as_str())
        .collect();
    assert_eq!(directories, [".", "data"]);
    assert_eq!(
        parsed.manifest.directory_length_policy,
        DirectoryLengthPolicy::Allocated
    );
}

#[test]
fn order_of_metadata_is_told() {
    let (iso, sizes) = two_trees();
    let laid_out = layout(&iso, &sizes).unwrap();
    let parsed = parse(&laid_out.blocks).unwrap();
    assert_eq!(parsed.manifest.metadata_layout, iso.metadata_layout);
    assert_eq!(parsed.metadata_gaps.len(), 1);
    assert_eq!(parsed.metadata_gaps[0].sectors, 2);
    assert_eq!(parsed.manifest.path_table_order, PathTableOrder::BigEndianFirst);
}

#[test]
fn joliet_descriptor_is_read_as_it_was_written() {
    let (mut iso, sizes) = two_trees();
    for (empty, rest) in [(false, false), (false, true), (true, false), (true, true)] {
        iso.supplementary_volumes[0].zero_fill_empty_strings = empty;
        iso.supplementary_volumes[0].zero_pad_strings = rest;
        let laid_out = layout(&iso, &sizes).unwrap();
        let parsed = parse(&laid_out.blocks).unwrap();
        let read = &parsed.manifest.supplementary_volumes[0];
        assert_eq!(read.zero_fill_empty_strings, empty);
        assert_eq!(read.zero_pad_strings, rest);
        assert!(read.volume_set_identifier_raw_hex.is_none());
        let descriptor = &iso.supplementary_volumes[0].descriptor;
        assert_eq!(read.descriptor.system_identifier, descriptor.system_identifier);
        assert_eq!(read.descriptor.publisher_identifier, "");
        assert_eq!(
            read.descriptor.copyright_file_identifier,
            descriptor.copyright_file_identifier
        );
    }
}

#[test]
fn read_trees_are_laid_out_the_same() {
    let (iso, sizes) = two_trees();
    let laid_out = layout(&iso, &sizes).unwrap();
    let parsed = parse(&laid_out.blocks).unwrap();
    let again = layout(&parsed.manifest, &sizes).unwrap();
    assert_eq!(again.blocks, laid_out.blocks);
    let reread = parse(&again.blocks).unwrap();
    assert_eq!(
        format!("{:?}", reread.manifest),
        format!("{:?}", parsed.manifest)
    );
}

#[test]
fn any_order_of_primary_entries_is_rebuilt_beside_a_joliet_volume() {
    let (mut iso, sizes) = two_trees();
    iso.entries = vec![entry("."), entry("DATA"), entry("DATA/B.BIN"), entry("A.BIN")];
    let laid_out = layout(&iso, &sizes).unwrap();
    let parsed = parse(&laid_out.blocks).unwrap();
    let paths: Vec<&str> = parsed
        .manifest
        .entries
        .iter()
        .map(|entry| entry.path.as_str())
        .collect();
    assert_eq!(paths, [".", "DATA", "A.BIN", "DATA/B.BIN"]);
    let again = layout(&parsed.manifest, &sizes).unwrap();
    assert_eq!(again.blocks, laid_out.blocks);
}

#[test]
fn any_order_of_joliet_entries_is_rebuilt() {
    let (mut iso, sizes) = two_trees();
    iso.supplementary_volumes[0].entries = vec![
        joliet_entry(".", None),
        joliet_entry("data", None),
        joliet_entry("data/b.bin", Some("DATA/B.BIN")),
        joliet_entry("a file.bin", Some("A.BIN")),
    ];
    let laid_out = layout(&iso, &sizes).unwrap();
    let parsed = parse(&laid_out.blocks).unwrap();
    let paths: Vec<&str> = parsed.manifest.supplementary_volumes[0]
        .entries
        .iter()
        .map(|entry| entry.path.as_str())
        .collect();
    assert_eq!(paths, [".", "data", "a file.bin", "data/b.bin"]);
    let again = layout(&parsed.manifest, &sizes).unwrap();
    assert_eq!(again.blocks, laid_out.blocks);
}

#[test]
fn gap_moves_what_follows_it_beside_a_joliet_volume() {
    let (iso, sizes) = two_trees();
    let before = layout(&iso, &sizes).unwrap();
    let (mut iso, sizes) = two_trees();
    iso.files.insert(1, gap(5));
    let after = layout(&iso, &sizes).unwrap();
    assert_eq!(after.files[0].extent, before.files[0].extent);
    assert_eq!(after.files[1].extent, before.files[1].extent + 5);
}

#[test]
fn blocks_that_nothing_was_placed_in_are_zero() {
    let (iso, sizes) = two_trees();
    let laid_out = layout(&iso, &sizes).unwrap();
    let parsed = parse(&laid_out.blocks).unwrap();
    let gap = &parsed.metadata_gaps[0];
    for block in gap.start..gap.start + gap.sectors {
        assert!(laid_out.blocks[block as usize].iter().all(|byte| *byte == 0));
    }
    for file in &laid_out.files {
        assert!(laid_out.blocks[file.extent as usize].iter().all(|byte| *byte == 0));
    }
}

#[test]
fn no_two_parts_share_a_block() {
    let (iso, sizes) = small_tree();
    let laid_out = layout(&iso, &sizes).unwrap();
    let parsed = parse(&laid_out.blocks).unwrap();
    let tables = parsed.path_tables.unwrap();
    let mut others: Vec<(u32, u32)> = parsed
        .directories
        .iter()
        .filter(|directory| directory.length > 0)
        .map(|directory| (directory.extent, directory.length / 2048))
        .collect();
    others.extend(tables.extents.iter().map(|extent| (*extent, tables.blocks)));
    let parts = parts(&laid_out, &others);
    assert_eq!(parts.len(), 3 + 4 + 3 + 4);
    for pair in parts.windows(2) {
        assert!(pair[0].0 + pair[0].1 <= pair[1].0);
    }
    assert!(parts[0].0 >= 19);
}

#[test]
fn descriptor_is_written_as_it_was_read() {
    let place = DescriptorPlace {
        volume_blocks: 77,
        path_table_size: 10,
        pointers: [19, 0, 20, 0],
        root_extent: 21,
        root_length: 2048,
    };
    let mut described = volume();
    described.creation_time = Some("1999-12-31T23:59:58.42+09:00".to_owned());
    described.reserved_hex = Some("00ff".to_owned());
    let block = serialize_pvd(&described, &place, &entry(".")).unwrap();
    let read = parse_pvd(&block).unwrap();
    assert_eq!(read.volume_identifier, "DISC");
    assert_eq!(read.creation_time, described.creation_time);
    assert_eq!(read.reserved_hex, described.reserved_hex);
    assert_eq!(serialize_pvd(&read, &place, &entry(".")).unwrap(), block);
}

#[test]
fn text_that_ends_in_nuls_is_written_with_spaces() {
    let place = DescriptorPlace {
        volume_blocks: 77,
        path_table_size: 10,
        pointers: [19, 0, 20, 0],
        root_extent: 21,
        root_length: 2048,
    };
    let mut described = volume();
    described.volume_identifier = "DISC\0".to_owned();
    let block = serialize_pvd(&described, &place, &entry(".")).unwrap();
    let read = parse_pvd(&block).unwrap();
    assert_eq!(read.volume_identifier, "DISC");
    assert_ne!(serialize_pvd(&read, &place, &entry(".")).unwrap(), block);
}

#[test]
fn sectors_are_written_as_they_were_read() {
    let subheader = XaSubheader {
        file_number: 1,
        channel: 2,
        submode: XaSubmode::single(XaSubmodeFlag::Data),
        coding_info: 3,
    };
    let second = XaSubheader {
        submode: XaSubmode::single(XaSubmodeFlag::Form2),
        ..subheader
    };
    let mut writer = SectorWriter::new();
    let mut image = Vec::new();
    image.extend(writer.form1(150, subheader, &[7; 2048]).unwrap());
    image.extend(writer.form2(151, second, &[9; 2324], true).unwrap());
    image.extend(writer.form1(152, subheader, &[0; 2048]).unwrap());
    let (start, sectors) = parse_image(&image).unwrap();
    assert_eq!(start, 150);
    assert_eq!(image.len(), sectors.len() * RAW_SECTOR_SIZE);
    let mut again = Vec::new();
    for (index, sector) in sectors.iter().enumerate() {
        let frame = start + index as u32;
        let bytes = match sector.kind {
            Kind::Form1 => writer.form1_with_subheaders(
                frame,
                sector.subheader,
                sector.subheader_copy,
                sector.payload(),
            ),
            Kind::Form2 => writer.form2_with_subheaders(
                frame,
                sector.subheader,
                sector.subheader_copy,
                sector.payload(),
                sector.form2_edc_valid,
            ),
            kind => panic!("unexpected kind {:?}", kind),
        };
        again.extend(bytes.unwrap());
    }
    assert_eq!(again, image);
}

#[test]
fn times_of_frames_are_read_as_they_are_told() {
    assert_eq!(format_msf(150).unwrap(), "00:02:00");
    assert_eq!(parse_msf("00:02:00").unwrap(), 150);
    for frame in [0, 1, 74, 75, 4499, 4500, 333_000] {
        assert_eq!(parse_msf(&format_msf(frame).unwrap()).unwrap(), frame);
    }
    assert!(parse_msf("00:60:00").is_err());
    assert!(parse_msf("00:02").is_err());
}

/// The blocks of a layout with data in its files.
fn filled(laid_out: &Layout) -> Vec<[u8; 2048]> {
    let mut blocks = laid_out.blocks.clone();
    for (index, file) in laid_out.files.iter().enumerate() {
        for at in 0..file.length as usize {
            let block = file.extent as usize + at / 2048;
            blocks[block][at % 2048] = 1 + (at * 7 + index) as u8 % 250;
        }
    }
    blocks
}

#[test]
fn image_with_data_in_its_files_is_rebuilt() {
    let (mut iso, sizes) = depth_first();
    iso.entries[1].allocation_padding_hex = Some("0102".to_owned());
    let laid_out = layout(&iso, &sizes).unwrap();
    let blocks = filled(&laid_out);
    assert_ne!(blocks, laid_out.blocks);
    let parsed = parse(&blocks).unwrap();
    let read = parsed
        .manifest
        .entries
        .iter()
        .find(|entry| entry.path == "ROOT.BIN")
        .unwrap();
    assert_eq!(read.allocation_padding_hex.as_deref(), Some("0102"));
    let again = layout(&parsed.manifest, &sizes).unwrap();
    assert_eq!(again.blocks, laid_out.blocks);
    assert_eq!(filled(&again), blocks);
}

#[test]
fn files_without_data_are_rebuilt() {
    let (iso, mut sizes) = depth_first();
    sizes[1].length = 0;
    let laid_out = layout(&iso, &sizes).unwrap();
    let blocks = filled(&laid_out);
    let parsed = parse(&blocks).unwrap();
    let again = layout(&parsed.manifest, &sizes).unwrap();
    assert_eq!(again.blocks, laid_out.blocks);
    for (rebuilt, file) in again.files.iter().zip(&laid_out.files) {
        assert_eq!(rebuilt.path, file.path);
        assert_eq!(rebuilt.extent, file.extent);
        assert_eq!(rebuilt.length, file.length);
    }
}

#[test]
fn given_path_tables_with_references_are_rebuilt() {
    let (mut iso, sizes) = small_tree();
    let made = layout(&iso, &sizes).unwrap();
    let size = u32::from_le_bytes(made.blocks[16][132..136].try_into().unwrap()) as usize;
    let little = u32::from_le_bytes(made.blocks[16][140..144].try_into().unwrap()) as usize;
    let big = u32::from_be_bytes(made.blocks[16][148..152].try_into().unwrap()) as usize;
    let mut tables = [
        made.blocks[little][..size].to_vec(),
        made.blocks[big][..size].to_vec(),
    ];
    tables[0][2] ^= 1;
    tables[1][5] ^= 1;
    let text = |bytes: &Vec<u8>| bytes.iter().map(|byte| format!("{byte:02x}")).collect::<String>();
    iso.path_table_little_hex = Some(text(&tables[0]));
    iso.path_table_big_hex = Some(text(&tables[1]));
    let laid_out = layout(&iso, &sizes).unwrap();
    assert_ne!(laid_out.blocks, made.blocks);
    let parsed = parse(&filled(&laid_out)).unwrap();
    assert_eq!(parsed.manifest.path_table_little_hex, iso.path_table_little_hex);
    let again = layout(&parsed.manifest, &sizes).unwrap();
    assert_eq!(again.blocks, laid_out.blocks);
}

#[test]
fn lengths_of_records_are_rebuilt_beside_a_joliet_volume() {
    let (mut iso, sizes) = two_trees();
    iso.directory_length_policy = DirectoryLengthPolicy::Records;
    let laid_out = layout(&iso, &sizes).unwrap();
    let root = u32::from_le_bytes(laid_out.blocks[16][166..170].try_into().unwrap());
    assert_ne!(root % 2048, 0);
    let parsed = parse(&filled(&laid_out)).unwrap();
    assert_eq!(
        parsed.manifest.directory_length_policy,
        DirectoryLengthPolicy::Records
    );
    let again = layout(&parsed.manifest, &sizes).unwrap();
    assert_eq!(again.blocks, laid_out.blocks);
}

#[test]
fn joliet_name_that_holds_a_slash_is_read() {
    let (iso, sizes) = two_trees();
    let mut laid_out = layout(&iso, &sizes).unwrap();
    let name: Vec<u8> = "a file.bin;1".encode_utf16().flat_map(u16::to_be_bytes).collect();
    let mut changed = 0;
    for block in &mut laid_out.blocks {
        for at in 0..2048 - name.len() {
            if block[at..at + name.len()] == name[..] {
                block[at + 19] = b'/';
                changed += 1;
            }
        }
    }
    assert_eq!(changed, 1);
    let parsed = parse(&laid_out.blocks).unwrap();
    assert_eq!(
        parsed.manifest.directory_length_policy,
        DirectoryLengthPolicy::Allocated
    );
    assert_eq!(
        parsed.manifest.supplementary_volumes[0].entries[1].path,
        "a file.bi/"
    );
}

#[test]
fn plain_description_is_rebuilt() {
    let mut hidden = entry("DATA");
    hidden.hidden = true;
    let mut later = entry("DATA/B.BIN");
    later.recording_time = "2003-01-02T03:04:06+00:00".to_owned();
    let iso = filesystem(
        vec![entry("."), later, hidden, entry("A.BIN")],
        &["DATA/B.BIN", "A.BIN"],
    );
    let sizes = lengths(&[("A.BIN", 1), ("DATA/B.BIN", 6000)]);
    let laid_out = layout(&iso, &sizes).unwrap();
    let parsed = parse(&laid_out.blocks).unwrap();
    let again = layout(&parsed.manifest, &sizes).unwrap();
    assert_eq!(again.blocks, laid_out.blocks);
}

#[test]
fn read_descriptor_is_written_as_it_stood() {
    let place = DescriptorPlace {
        volume_blocks: 77,
        path_table_size: 10,
        pointers: [19, 0, 20, 0],
        root_extent: 21,
        root_length: 2048,
    };
    let mut block = serialize_pvd(&volume(), &place, &entry(".")).unwrap();
    block[40..72].copy_from_slice(b"OTHER                           ");
    block[1395] = 9;
    let read = parse_pvd(&block).unwrap();
    assert_eq!(read.volume_identifier, "OTHER");
    assert_eq!(serialize_pvd(&read, &place, &entry(".")).unwrap(), block);
}

#[test]
fn subheader_over_empty_data_is_read_back() {
    let subheader = XaSubheader {
        file_number: 0,
        channel: 1,
        submode: XaSubmode::single(XaSubmodeFlag::Data),
        coding_info: 0,
    };
    let mut writer = SectorWriter::new();
    let image = writer.form1(150, subheader, &[0; 2048]).unwrap();
    let (start, sectors) = parse_image(&image[..]).unwrap();
    assert_eq!(start, 150);
    assert_eq!(sectors.len(), 1);
    assert_eq!(sectors[0].kind, Kind::Form1);
    assert_eq!(sectors[0].subheader, subheader);
    assert_eq!(sectors[0].payload(), &[0; 2048][..]);
}

#[test]
fn path_tables_of_which_more_is_recorded_are_rebuilt() {
    let (mut iso, sizes) = depth_first();
    iso.path_table_size = Some(236);
    let laid_out = layout(&iso, &sizes).unwrap();
    let parsed = parse(&filled(&laid_out)).unwrap();
    assert_eq!(parsed.manifest.path_table_size, Some(236));
    assert_eq!(
        parsed.manifest.path_table_big_hex.as_ref().unwrap().len(),
        472
    );
    let again = layout(&parsed.manifest, &sizes).unwrap();
    assert_eq!(again.blocks, laid_out.blocks);

    let (mut iso, sizes) = two_trees();
    iso.path_table_size = Some(100);
    iso.supplementary_volumes[0].path_table_size = Some(2048);
    let laid_out = layout(&iso, &sizes).unwrap();
    let parsed = parse(&filled(&laid_out)).unwrap();
    assert_eq!(
        parsed.manifest.supplementary_volumes[0].path_table_size,
        Some(2048)
    );
    let again = layout(&parsed.manifest, &sizes).unwrap();
    assert_eq!(again.blocks, laid_out.blocks);
}

#[test]
fn path_tables_of_which_less_is_recorded_are_cut() {
    let (mut iso, sizes) = depth_first();
    iso.path_table_size = Some(12);
    let laid_out = layout(&iso, &sizes).unwrap();
    let parsed = parse(&laid_out.blocks).unwrap();
    assert_eq!(parsed.manifest.path_table_size, Some(12));
    let again = layout(&parsed.manifest, &sizes).unwrap();
    assert_ne!(again.blocks, laid_out.blocks);
}

#[test]
fn packing_and_times_that_show_nowhere_are_rebuilt_beside_a_joliet_volume() {
    let (mut iso, sizes) = two_trees();
    iso.directory_record_packing = DirectoryRecordPacking::AvoidExactFit;
    iso.directory_parent_recording_time = DirectoryParentRecordingTime::Current;
    let laid_out = layout(&iso, &sizes).unwrap();
    let parsed = parse(&filled(&laid_out)).unwrap();
    assert_eq!(
        parsed.manifest.directory_record_packing,
        DirectoryRecordPacking::Fill
    );
    assert_eq!(
        parsed.manifest.directory_parent_recording_time,
        DirectoryParentRecordingTime::Parent
    );
    let again = layout(&parsed.manifest, &sizes).unwrap();
    assert_eq!(again.blocks, laid_out.blocks);
}
