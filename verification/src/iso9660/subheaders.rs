//! Which sectors deviate from the canonical subheaders.
use std::collections::{HashMap, HashSet};

use vstd::prelude::*;

use crate::error::{failure, failure_of, Error, ErrorKind, Failure};
use crate::iso9660::description::{Entry, EntryModel, Iso9660, IsoModel};
use crate::iso9660::directory::{FileModel, FilePlacement};
use crate::iso9660::path_table::{
    directory_position, find_directory, DirectoryPlacement, PlacementModel,
};
use crate::iso9660::placing::{Placing, PlacingModel};
use crate::iso9660::tree::{is_file, is_file_path};
use crate::manifest::EntrySectorSubheader;
use crate::model::{ceil_div, ceil_div_u32, views};
use crate::text::same_text;
use crate::xa::XaSubheader;

verus! {

broadcast use vstd::std_specs::hash::group_hash_axioms;

/// Which sectors carry which subheader.
pub struct Subheaders {
    pub data: HashSet<u32>,
    pub end_of_file: HashSet<u32>,
    pub metadata: HashSet<u32>,
    pub framing: HashMap<u32, XaSubheader>,
    pub file_numbers: HashMap<u32, u8>,
}

/// The mathematical form of [`Subheaders`].
#[verifier::ext_equal]
pub struct SubheaderModel {
    pub data: Set<u32>,
    pub end_of_file: Set<u32>,
    pub metadata: Set<u32>,
    pub framing: Map<u32, XaSubheader>,
    pub file_numbers: Map<u32, u8>,
}

impl View for Subheaders {
    type V = SubheaderModel;

    open spec fn view(&self) -> SubheaderModel {
        SubheaderModel {
            data: self.data@,
            end_of_file: self.end_of_file@,
            metadata: self.metadata@,
            framing: self.framing@,
            file_numbers: self.file_numbers@,
        }
    }
}

/// The sectors from `start` up to, and without, `end`.
pub open spec fn sectors(start: int, end: int) -> Set<u32> {
    Set::new(|sector: u32| start <= sector < end)
}

/// A map with one value for all sectors of a run.
pub open spec fn with_run<V>(map: Map<u32, V>, start: int, end: int, value: V) -> Map<u32, V> {
    Map::new(
        |sector: u32| map.contains_key(sector) || start <= sector < end,
        |sector: u32|
            if start <= sector < end {
                value
            } else {
                map[sector]
            },
    )
}

fn insert_run(set: &mut HashSet<u32>, start: u64, end: u64)
    ensures
        final(set)@ == old(set)@.union(sectors(start as int, end as int)),
{
    let mut sector: u64 = start;
    assert(set@ =~= old(set)@.union(sectors(start as int, start as int)));
    while sector < end && sector <= 0xffff_ffff
        invariant
            start <= sector,
            sector <= end || sector == start,
            set@ == old(set)@.union(sectors(start as int, sector as int)),
        decreases end - sector,
    {
        set.insert(sector as u32);
        sector = sector + 1;
        assert(set@ =~= old(set)@.union(sectors(start as int, sector as int)));
    }
    assert(set@ =~= old(set)@.union(sectors(start as int, end as int)));
}

fn insert_framing(map: &mut HashMap<u32, XaSubheader>, start: u64, end: u64, value: XaSubheader)
    ensures
        final(map)@ == with_run(old(map)@, start as int, end as int, value),
{
    let mut sector: u64 = start;
    assert(map@ =~= with_run(old(map)@, start as int, start as int, value));
    while sector < end && sector <= 0xffff_ffff
        invariant
            start <= sector,
            sector <= end || sector == start,
            map@ == with_run(old(map)@, start as int, sector as int, value),
        decreases end - sector,
    {
        map.insert(sector as u32, value);
        sector = sector + 1;
        assert(map@ =~= with_run(old(map)@, start as int, sector as int, value));
    }
    assert(map@ =~= with_run(old(map)@, start as int, end as int, value));
}

fn insert_numbers(map: &mut HashMap<u32, u8>, start: u64, end: u64, value: u8)
    ensures
        final(map)@ == with_run(old(map)@, start as int, end as int, value),
{
    let mut sector: u64 = start;
    assert(map@ =~= with_run(old(map)@, start as int, start as int, value));
    while sector < end && sector <= 0xffff_ffff
        invariant
            start <= sector,
            sector <= end || sector == start,
            map@ == with_run(old(map)@, start as int, sector as int, value),
        decreases end - sector,
    {
        map.insert(sector as u32, value);
        sector = sector + 1;
        assert(map@ =~= with_run(old(map)@, start as int, sector as int, value));
    }
    assert(map@ =~= with_run(old(map)@, start as int, end as int, value));
}

/// How many of a run's sectors a policy frames as data.
pub open spec fn data_blocks(policy: EntrySectorSubheader, blocks: u32) -> int {
    match policy {
        EntrySectorSubheader::Canonical | EntrySectorSubheader::IsoMetadata => 0,
        EntrySectorSubheader::Data => blocks as int,
        EntrySectorSubheader::EndOfFileData | EntrySectorSubheader::DataUntilFinal => if blocks > 0 {
            blocks - 1
        } else {
            0
        },
    }
}

fn count_data_blocks(policy: EntrySectorSubheader, blocks: u32) -> (count: u32)
    ensures
        count == data_blocks(policy, blocks),
        count <= blocks,
{
    match policy {
        EntrySectorSubheader::Canonical | EntrySectorSubheader::IsoMetadata => 0,
        EntrySectorSubheader::Data => blocks,
        EntrySectorSubheader::EndOfFileData | EntrySectorSubheader::DataUntilFinal => if blocks > 0 {
            blocks - 1
        } else {
            0
        },
    }
}

/// The subheaders once a run of metadata sectors is framed by a policy: data
/// first, then metadata, and the end-of-file mark on the last sector.
pub open spec fn frame_run(
    marks: SubheaderModel,
    extent: u32,
    blocks: u32,
    policy: EntrySectorSubheader,
    framing: Option<XaSubheader>,
) -> SubheaderModel {
    let start = extent as int;
    let middle = start + data_blocks(policy, blocks);
    let end = start + blocks;
    let last = (end - 1) as u32;
    let ends = policy == EntrySectorSubheader::EndOfFileData && blocks > 0 && end - 1 <= u32::MAX;
    SubheaderModel {
        data: marks.data.union(sectors(start, middle)),
        end_of_file: if ends {
            marks.end_of_file.insert(last)
        } else {
            marks.end_of_file
        },
        metadata: if ends {
            marks.metadata.union(sectors(middle, end)).remove(last)
        } else {
            marks.metadata.union(sectors(middle, end))
        },
        framing: match framing {
            Some(subheader) => with_run(marks.framing, start, middle, subheader),
            None => marks.framing,
        },
        file_numbers: marks.file_numbers,
    }
}

impl Subheaders {
    /// Nothing deviates.
    pub fn new() -> (marks: Subheaders)
        ensures
            marks@ == (SubheaderModel {
                data: Set::empty(),
                end_of_file: Set::empty(),
                metadata: Set::empty(),
                framing: Map::empty(),
                file_numbers: Map::empty(),
            }),
    {
        Subheaders {
            data: HashSet::new(),
            end_of_file: HashSet::new(),
            metadata: HashSet::new(),
            framing: HashMap::new(),
            file_numbers: HashMap::new(),
        }
    }

    fn frame(
        &mut self,
        extent: u32,
        blocks: u32,
        policy: EntrySectorSubheader,
        framing: Option<XaSubheader>,
    )
        ensures
            final(self)@ == frame_run(old(self)@, extent, blocks, policy, framing),
    {
        let ghost before = self@;
        let start: u64 = extent as u64;
        let middle: u64 = start + count_data_blocks(policy, blocks) as u64;
        let end: u64 = start + blocks as u64;
        insert_run(&mut self.data, start, middle);
        match framing {
            Some(subheader) => {
                insert_framing(&mut self.framing, start, middle, subheader);
            },
            None => {},
        }
        insert_run(&mut self.metadata, middle, end);
        if policy == EntrySectorSubheader::EndOfFileData && blocks > 0 && end - 1 <= 0xffff_ffff {
            let last: u32 = (end - 1) as u32;
            self.metadata.remove(&last);
            self.end_of_file.insert(last);
        }
        assert(self@ =~= frame_run(before, extent, blocks, policy, framing));
    }

    fn mark_metadata(&mut self, extent: u32, blocks: u32)
        ensures
            final(self)@ == mark_run(old(self)@, extent, blocks),
    {
        let ghost before = self@;
        insert_run(&mut self.metadata, extent as u64, extent as u64 + blocks as u64);
        assert(self@ =~= mark_run(before, extent, blocks));
    }
}

/// The subheaders once a run of sectors is marked as metadata.
pub open spec fn mark_run(marks: SubheaderModel, extent: u32, blocks: u32) -> SubheaderModel {
    SubheaderModel {
        metadata: marks.metadata.union(sectors(extent as int, extent + blocks)),
        ..marks
    }
}

/// The subheaders once the path tables from `index` on are framed.
pub open spec fn frame_tables_from(
    iso: IsoModel,
    marks: SubheaderModel,
    tables: Seq<u32>,
    blocks: u32,
    index: int,
) -> SubheaderModel
    decreases tables.len() - index,
{
    if index < 0 || index >= tables.len() {
        marks
    } else if tables[index] == 0 {
        frame_tables_from(iso, marks, tables, blocks, index + 1)
    } else {
        frame_tables_from(
            iso,
            frame_run(
                marks,
                tables[index],
                blocks,
                iso.path_table_subheader,
                iso.path_table_framing_subheader,
            ),
            tables,
            blocks,
            index + 1,
        )
    }
}

/// The subheaders once the tables from `index` on are marked as metadata; one
/// that is a Joliet table has the size of a Joliet table.
pub open spec fn mark_tables_from(
    marks: SubheaderModel,
    tables: Seq<u32>,
    joliet_tables: Seq<u32>,
    blocks: u32,
    joliet_blocks: u32,
    index: int,
) -> SubheaderModel
    decreases tables.len() - index,
{
    if index < 0 || index >= tables.len() {
        marks
    } else if tables[index] == 0 {
        mark_tables_from(marks, tables, joliet_tables, blocks, joliet_blocks, index + 1)
    } else {
        mark_tables_from(
            mark_run(
                marks,
                tables[index],
                if joliet_tables.contains(tables[index]) {
                    joliet_blocks
                } else {
                    blocks
                },
            ),
            tables,
            joliet_tables,
            blocks,
            joliet_blocks,
            index + 1,
        )
    }
}

/// The subheaders once the directories from `index` on are marked as metadata.
pub open spec fn mark_directories_from(
    marks: SubheaderModel,
    directories: Seq<PlacementModel>,
    index: int,
) -> SubheaderModel
    decreases directories.len() - index,
{
    if index < 0 || index >= directories.len() {
        marks
    } else {
        mark_directories_from(
            mark_run(marks, directories[index].extent, directories[index].blocks),
            directories,
            index + 1,
        )
    }
}

/// The file that an entry with a fixed extent refers to.
pub open spec fn referenced_file(entry: EntryModel) -> FileModel {
    let length = match entry.length {
        Some(length) => length,
        None => 0u32,
    };
    FileModel {
        path: entry.path,
        extent: match entry.extent {
            Some(extent) => extent,
            None => 0,
        },
        length: length as u64,
        blocks: ceil_div(length as int, 2048) as u32,
    }
}

/// Makes the file that an entry with a fixed extent refers to.
pub fn make_referenced_file(entry: &Entry) -> (file: FilePlacement)
    ensures
        file@ == referenced_file(entry@),
{
    let length: u32 = match entry.length {
        Some(length) => length,
        None => 0,
    };
    let file = FilePlacement {
        path: entry.path.clone(),
        extent: match entry.extent {
            Some(extent) => extent,
            None => 0,
        },
        length: length as u64,
        blocks: ceil_div_u32(length, 2048),
    };
    file
}

/// The first placed file with a path, from `index` on.
pub open spec fn find_file_from(files: Seq<FileModel>, path: Seq<char>, index: int) -> Option<FileModel>
    decreases files.len() - index,
{
    if index < 0 || index >= files.len() {
        None
    } else if files[index].path == path {
        Some(files[index])
    } else {
        find_file_from(files, path, index + 1)
    }
}

/// Where the file of an entry lies.
pub open spec fn file_of(entry: EntryModel, files: Seq<FileModel>) -> Option<FileModel> {
    if entry.extent is Some {
        Some(referenced_file(entry))
    } else {
        find_file_from(files, entry.path, 0)
    }
}

/// Finds where the file of an entry lies.
pub fn find_file_of(entry: &Entry, files: &Vec<FilePlacement>) -> (file: Option<FilePlacement>)
    ensures
        match file {
            Some(file) => file_of(entry@, views(files@)) == Some(file@),
            None => file_of(entry@, views(files@)) is None,
        },
{
    if entry.extent.is_some() {
        return Some(make_referenced_file(entry));
    }
    let ghost model = views(files@);
    let mut i: usize = 0;
    while i < files.len()
        invariant
            i <= files.len(),
            model == views(files@),
            entry@.extent is None,
            find_file_from(model, entry@.path, 0) == find_file_from(model, entry@.path, i as int),
        decreases files.len() - i,
    {
        assert(model[i as int] == files@[i as int]@);
        if same_text(files[i].path.as_str(), entry.path.as_str()) {
            let file = FilePlacement {
                path: files[i].path.clone(),
                extent: files[i].extent,
                length: files[i].length,
                blocks: files[i].blocks,
            };
            return Some(file);
        }
        i = i + 1;
    }
    None
}

/// The XA file number of an entry.
pub open spec fn file_number(entry: EntryModel) -> u8 {
    match entry.xa {
        Some(xa) => xa.file_number,
        None => 0,
    }
}

/// The subheaders once a run of sectors carries a file number.
pub open spec fn number_run(marks: SubheaderModel, extent: u32, blocks: u32, number: u8) -> SubheaderModel {
    if number == 0 {
        marks
    } else {
        SubheaderModel {
            file_numbers: with_run(marks.file_numbers, extent as int, extent + blocks, number),
            ..marks
        }
    }
}

/// The subheaders once the sectors of a file are framed.
pub open spec fn frame_file(
    marks: SubheaderModel,
    file: FileModel,
    policy: EntrySectorSubheader,
) -> SubheaderModel {
    let start = file.extent as int;
    let end = start + file.blocks;
    let last = if file.blocks > 0 {
        end - 1
    } else {
        start
    };
    match policy {
        EntrySectorSubheader::Canonical => marks,
        EntrySectorSubheader::Data => SubheaderModel {
            data: marks.data.union(sectors(start, end)),
            ..marks
        },
        EntrySectorSubheader::EndOfFileData => SubheaderModel {
            data: marks.data.union(sectors(start, last)),
            end_of_file: marks.end_of_file.union(sectors(last, last + 1)),
            ..marks
        },
        EntrySectorSubheader::DataUntilFinal => SubheaderModel {
            data: marks.data.union(sectors(start, last)),
            metadata: marks.metadata.union(sectors(last, last + 1)),
            ..marks
        },
        EntrySectorSubheader::IsoMetadata => SubheaderModel {
            metadata: marks.metadata.union(sectors(start, end)),
            ..marks
        },
    }
}

/// The subheaders once the sectors of an entry are framed.
pub open spec fn frame_entry(
    iso: IsoModel,
    state: PlacingModel,
    marks: SubheaderModel,
    entry: EntryModel,
) -> Result<SubheaderModel, Failure> {
    if is_file(iso, entry.path) {
        match file_of(entry, state.files) {
            None => Err(failure_of(ErrorKind::FileNotPlaced, entry.path)),
            Some(file) => if entry.sector_subheader != EntrySectorSubheader::Canonical && file.blocks
                == 0 {
                Err(failure(ErrorKind::SubheaderOfEmpty))
            } else {
                Ok(
                    frame_file(
                        number_run(marks, file.extent, file.blocks, file_number(entry)),
                        file,
                        entry.sector_subheader,
                    ),
                )
            },
        }
    } else {
        let directories = state.primary.placements;
        let index = find_directory(directories, entry.path);
        if index >= directories.len() {
            Err(failure_of(ErrorKind::FileNotPlaced, entry.path))
        } else {
            let directory = directories[index];
            Ok(
                frame_run(
                    number_run(marks, directory.extent, directory.blocks, file_number(entry)),
                    directory.extent,
                    directory.blocks,
                    entry.sector_subheader,
                    match entry.xa {
                        Some(xa) => xa.framing_subheader,
                        None => None,
                    },
                ),
            )
        }
    }
}

/// The subheaders once the sectors of the entries from `index` on are framed.
pub open spec fn frame_entries_from(
    iso: IsoModel,
    state: PlacingModel,
    marks: SubheaderModel,
    index: int,
) -> Result<SubheaderModel, Failure>
    decreases iso.entries.len() - index,
{
    if index < 0 || index >= iso.entries.len() {
        Ok(marks)
    } else {
        match frame_entry(iso, state, marks, iso.entries[index]) {
            Err(failure) => Err(failure),
            Ok(marks) => frame_entries_from(iso, state, marks, index + 1),
        }
    }
}

/// The subheaders of an image.
pub open spec fn subheaders_of(iso: IsoModel, state: PlacingModel, blocks: u32, joliet_blocks: u32) -> Result<
    SubheaderModel,
    Failure,
> {
    let none = SubheaderModel {
        data: Set::empty(),
        end_of_file: Set::empty(),
        metadata: Set::empty(),
        framing: Map::empty(),
        file_numbers: Map::empty(),
    };
    let framed = frame_tables_from(iso, none, state.tables, blocks, 0);
    let marked = if iso.supplementary_volumes.len() > 0 {
        mark_directories_from(
            mark_tables_from(
                framed,
                state.joliet_tables + state.tables,
                state.joliet_tables,
                blocks,
                joliet_blocks,
                0,
            ),
            state.joliet.placements,
            0,
        )
    } else {
        framed
    };
    frame_entries_from(iso, state, marked, 0)
}

impl Subheaders {
    fn number(&mut self, extent: u32, blocks: u32, number: u8)
        ensures
            final(self)@ == number_run(old(self)@, extent, blocks, number),
    {
        let ghost before = self@;
        if number != 0 {
            insert_numbers(
                &mut self.file_numbers,
                extent as u64,
                extent as u64 + blocks as u64,
                number,
            );
        }
        assert(self@ =~= number_run(before, extent, blocks, number));
    }

    fn frame_one_file(&mut self, file: &FilePlacement, policy: EntrySectorSubheader)
        ensures
            final(self)@ == frame_file(old(self)@, file@, policy),
    {
        let ghost before = self@;
        let start: u64 = file.extent as u64;
        let end: u64 = start + file.blocks as u64;
        let last: u64 = if file.blocks > 0 {
            end - 1
        } else {
            start
        };
        match policy {
            EntrySectorSubheader::Canonical => {},
            EntrySectorSubheader::Data => {
                insert_run(&mut self.data, start, end);
            },
            EntrySectorSubheader::EndOfFileData => {
                insert_run(&mut self.data, start, last);
                insert_run(&mut self.end_of_file, last, last + 1);
            },
            EntrySectorSubheader::DataUntilFinal => {
                insert_run(&mut self.data, start, last);
                insert_run(&mut self.metadata, last, last + 1);
            },
            EntrySectorSubheader::IsoMetadata => {
                insert_run(&mut self.metadata, start, end);
            },
        }
        assert(self@ =~= frame_file(before, file@, policy));
    }

    fn frame_one_entry(&mut self, iso: &Iso9660, state: &Placing, entry: &Entry) -> (result: Result<
        (),
        Error,
    >)
        ensures
            match (result, frame_entry(iso@, state@, old(self)@, entry@)) {
                (Ok(_), Ok(expected)) => final(self)@ == expected,
                (Err(error), Err(failure)) => error@ == failure,
                _ => false,
            },
    {
        let number: u8 = match &entry.xa {
            Some(xa) => xa.file_number,
            None => 0,
        };
        assert(number == file_number(entry@));
        let path: &str = entry.path.as_str();
        if is_file_path(iso, path) {
            match find_file_of(entry, &state.files) {
                None => Err(Error::of(ErrorKind::FileNotPlaced, path)),
                Some(file) => {
                    if entry.sector_subheader != EntrySectorSubheader::Canonical && file.blocks
                        == 0 {
                        return Err(Error::new(ErrorKind::SubheaderOfEmpty));
                    }
                    self.number(file.extent, file.blocks, number);
                    self.frame_one_file(&file, entry.sector_subheader);
                    Ok(())
                },
            }
        } else {
            let index: usize = directory_position(&state.primary.placements, path);
            if index >= state.primary.placements.len() {
                return Err(Error::of(ErrorKind::FileNotPlaced, path));
            }
            let directory: &DirectoryPlacement = &state.primary.placements[index];
            assert(state@.primary.placements[index as int] == directory@);
            let framing: Option<XaSubheader> = match &entry.xa {
                Some(xa) => xa.framing_subheader,
                None => None,
            };
            self.number(directory.extent, directory.blocks, number);
            self.frame(directory.extent, directory.blocks, entry.sector_subheader, framing);
            Ok(())
        }
    }

    fn frame_tables(&mut self, iso: &Iso9660, tables: &[u32; 4], blocks: u32)
        ensures
            final(self)@ == frame_tables_from(iso@, old(self)@, tables@, blocks, 0),
    {
        let ghost start = self@;
        let mut i: usize = 0;
        while i < 4
            invariant
                i <= 4,
                start == old(self)@,
                frame_tables_from(iso@, start, tables@, blocks, 0) == frame_tables_from(
                    iso@,
                    self@,
                    tables@,
                    blocks,
                    i as int,
                ),
            decreases 4 - i,
        {
            if tables[i] != 0 {
                self.frame(
                    tables[i],
                    blocks,
                    iso.path_table_subheader,
                    iso.path_table_framing_subheader,
                );
            }
            i = i + 1;
        }
    }

    fn mark_tables(&mut self, tables: &Vec<u32>, joliet_tables: &[u32; 4], blocks: u32, joliet_blocks: u32)
        ensures
            final(self)@ == mark_tables_from(
                old(self)@,
                tables@,
                joliet_tables@,
                blocks,
                joliet_blocks,
                0,
            ),
    {
        let ghost start = self@;
        let mut i: usize = 0;
        while i < tables.len()
            invariant
                i <= tables.len(),
                start == old(self)@,
                mark_tables_from(start, tables@, joliet_tables@, blocks, joliet_blocks, 0)
                    == mark_tables_from(
                    self@,
                    tables@,
                    joliet_tables@,
                    blocks,
                    joliet_blocks,
                    i as int,
                ),
            decreases tables.len() - i,
        {
            let table: u32 = tables[i];
            if table != 0 {
                let joliet: bool = joliet_tables[0] == table || joliet_tables[1] == table
                    || joliet_tables[2] == table || joliet_tables[3] == table;
                assert(joliet == joliet_tables@.contains(table)) by {
                    assert(joliet_tables@.len() == 4);
                    if joliet_tables@.contains(table) {
                        let w = choose|w: int|
                            0 <= w < joliet_tables@.len() && joliet_tables@[w] == table;
                        assert(w == 0 || w == 1 || w == 2 || w == 3);
                    } else {
                        assert(joliet_tables@[0] != table);
                        assert(joliet_tables@[1] != table);
                        assert(joliet_tables@[2] != table);
                        assert(joliet_tables@[3] != table);
                    }
                }
                self.mark_metadata(
                    table,
                    if joliet {
                        joliet_blocks
                    } else {
                        blocks
                    },
                );
            }
            i = i + 1;
        }
    }

    fn mark_directories(&mut self, directories: &Vec<DirectoryPlacement>)
        ensures
            final(self)@ == mark_directories_from(old(self)@, views(directories@), 0),
    {
        let ghost start = self@;
        let ghost model = views(directories@);
        let mut i: usize = 0;
        while i < directories.len()
            invariant
                i <= directories.len(),
                start == old(self)@,
                model == views(directories@),
                mark_directories_from(start, model, 0) == mark_directories_from(
                    self@,
                    model,
                    i as int,
                ),
            decreases directories.len() - i,
        {
            assert(model[i as int] == directories@[i as int]@);
            self.mark_metadata(directories[i].extent, directories[i].blocks);
            i = i + 1;
        }
    }
}

/// Finds the subheaders of an image.
pub fn collect_subheaders(iso: &Iso9660, state: &Placing, blocks: u32, joliet_blocks: u32) -> (result: Result<
    Subheaders,
    Error,
>)
    ensures
        match (result, subheaders_of(iso@, state@, blocks, joliet_blocks)) {
            (Ok(marks), Ok(expected)) => marks@ == expected,
            (Err(error), Err(failure)) => error@ == failure,
            _ => false,
        },
{
    let mut marks: Subheaders = Subheaders::new();
    marks.frame_tables(iso, &state.tables, blocks);
    if iso.supplementary_volumes.len() > 0 {
        let mut tables: Vec<u32> = Vec::new();
        let mut i: usize = 0;
        while i < 4
            invariant
                i <= 4,
                tables@ == state.joliet_tables@.take(i as int),
            decreases 4 - i,
        {
            tables.push(state.joliet_tables[i]);
            i = i + 1;
            assert(tables@ =~= state.joliet_tables@.take(i as int));
        }
        let mut k: usize = 0;
        while k < 4
            invariant
                k <= 4,
                tables@ == state.joliet_tables@ + state.tables@.take(k as int),
            decreases 4 - k,
        {
            tables.push(state.tables[k]);
            k = k + 1;
            assert(tables@ =~= state.joliet_tables@ + state.tables@.take(k as int));
        }
        assert(tables@ =~= state@.joliet_tables + state@.tables);
        marks.mark_tables(&tables, &state.joliet_tables, blocks, joliet_blocks);
        marks.mark_directories(&state.joliet.placements);
    }
    let ghost start = marks@;
    let mut i: usize = 0;
    while i < iso.entries.len()
        invariant
            i <= iso.entries.len(),
            subheaders_of(iso@, state@, blocks, joliet_blocks) == frame_entries_from(
                iso@,
                state@,
                marks@,
                i as int,
            ),
        decreases iso.entries.len() - i,
    {
        assert(iso@.entries[i as int] == iso.entries@[i as int]@);
        match marks.frame_one_entry(iso, state, &iso.entries[i]) {
            Ok(_) => {},
            Err(error) => return Err(error),
        }
        i = i + 1;
    }
    Ok(marks)
}

} // verus!
