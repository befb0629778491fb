//! Which sectors of an image carry which subheader, sector by sector.
use vstd::prelude::*;

use crate::error::Failure;
use crate::iso9660::description::{EntryModel, IsoModel, ItemModel};
use crate::iso9660::directory::FileModel;
use crate::iso9660::file_area_laws::each_file_is_placed_once;
use crate::iso9660::layout::{all_placed, joliet_plan, layout_of, LayoutModel};
use crate::iso9660::layout_laws::{is_layout, layout_holds_parts, places_of};
use crate::iso9660::path_table::{find_directory, find_directory_from, PlacementModel};
use crate::iso9660::placing::{FileLengthModel, PlacingModel};
use crate::iso9660::placing_laws::{
    are_apart, descriptors_end, found_directory_is_there, has_place, parts_are_apart, size_of_part,
    start_of, table_blocks, tables_of, takes_blocks, Part,
};
use crate::iso9660::subheaders::{
    file_of, find_file_from, frame_entries_from, frame_entry, frame_run, frame_tables_from,
    mark_directories_from, mark_run, mark_tables_from, SubheaderModel,
};
use crate::iso9660::tree::{is_authored, is_file, is_referenced};
use crate::iso9660::validate::description_check;
use crate::iso9660::walk_laws::checked_is_tree;
use crate::manifest::{EntrySectorSubheader, MetadataVolume};
use crate::xa::XaSubheader;

verus! {

/// A run of sectors with what is said of it: where it begins, how many sectors it has, how
/// they are framed, which number they carry, and whether they are a file's.
pub struct FramedRun {
    pub extent: u32,
    pub blocks: u32,
    pub policy: EntrySectorSubheader,
    pub number: u8,
    pub framing: Option<XaSubheader>,
    pub file: bool,
}

impl FramedRun {
    /// A sector is one of the run.
    pub open spec fn has(self, sector: u32) -> bool {
        self.extent <= sector < self.extent + self.blocks
    }

    /// A sector is the last of the run.
    pub open spec fn ends_at(self, sector: u32) -> bool {
        self.blocks > 0 && sector == self.extent + self.blocks - 1
    }

    /// A sector of the run is framed as data: every one, or every one but the last.
    pub open spec fn frames_data(self, sector: u32) -> bool {
        match self.policy {
            EntrySectorSubheader::Data => self.has(sector),
            EntrySectorSubheader::EndOfFileData => self.has(sector) && !self.ends_at(sector),
            EntrySectorSubheader::DataUntilFinal => self.has(sector) && !self.ends_at(sector),
            _ => false,
        }
    }

    /// A sector of the run is framed as the end of a file.
    pub open spec fn frames_end(self, sector: u32) -> bool {
        self.policy == EntrySectorSubheader::EndOfFileData && self.ends_at(sector)
    }

    /// A sector of the run is framed as metadata.
    pub open spec fn frames_metadata(self, sector: u32) -> bool {
        match self.policy {
            EntrySectorSubheader::IsoMetadata => self.has(sector),
            EntrySectorSubheader::DataUntilFinal => self.ends_at(sector),
            EntrySectorSubheader::Canonical => !self.file && self.has(sector),
            _ => false,
        }
    }
}

/// The run of sectors of an entry.
pub open spec fn run_of(iso: IsoModel, state: PlacingModel, index: int) -> FramedRun {
    let entry = iso.entries[index];
    let number = match entry.xa {
        Some(xa) => xa.file_number,
        None => 0,
    };
    if is_file(iso, entry.path) {
        let file = file_of(entry, state.files)->Some_0;
        FramedRun {
            extent: file.extent,
            blocks: file.blocks,
            policy: entry.sector_subheader,
            number,
            framing: None,
            file: true,
        }
    } else {
        let directory = state.primary.placements[find_directory(
            state.primary.placements,
            entry.path,
        )];
        FramedRun {
            extent: directory.extent,
            blocks: directory.blocks,
            policy: entry.sector_subheader,
            number,
            framing: match entry.xa {
                Some(xa) => xa.framing_subheader,
                None => None,
            },
            file: false,
        }
    }
}

/// A run was framed: the marks that it sets are set.
spec fn run_is_framed(
    before: SubheaderModel,
    after: SubheaderModel,
    run: FramedRun,
    sector: u32,
) -> bool {
    &&& after.data.contains(sector) <==> before.data.contains(sector) || run.frames_data(sector)
    &&& after.end_of_file.contains(sector) <==> before.end_of_file.contains(sector)
        || run.frames_end(sector)
    &&& run.frames_metadata(sector) ==> after.metadata.contains(sector)
    &&& after.metadata.contains(sector) ==> before.metadata.contains(sector)
        || run.frames_metadata(sector)
    &&& before.metadata.contains(sector) && (run.file || !run.frames_end(sector))
        ==> after.metadata.contains(sector)
    &&& !run.file && run.frames_end(sector) ==> !after.metadata.contains(sector)
    &&& after.file_numbers.contains_key(sector) <==> before.file_numbers.contains_key(sector) || (
    run.number != 0 && run.has(sector))
    &&& run.number != 0 && run.has(sector) ==> after.file_numbers[sector] == run.number
    &&& !(run.number != 0 && run.has(sector)) && before.file_numbers.contains_key(sector)
        ==> after.file_numbers[sector] == before.file_numbers[sector]
    &&& after.framing.contains_key(sector) <==> before.framing.contains_key(sector) || (
    run.framing is Some && run.frames_data(sector))
    &&& run.framing is Some && run.frames_data(sector) ==> after.framing[sector]
        == run.framing->Some_0
    &&& !(run.framing is Some && run.frames_data(sector)) && before.framing.contains_key(sector)
        ==> after.framing[sector] == before.framing[sector]
}

/// Framing an entry frames its run.
proof fn entry_is_framed(
    iso: IsoModel,
    state: PlacingModel,
    marks: SubheaderModel,
    index: int,
    sector: u32,
)
    requires
        0 <= index < iso.entries.len(),
    ensures
        frame_entry(iso, state, marks, iso.entries[index]) matches Ok(after) ==> run_is_framed(
            marks,
            after,
            run_of(iso, state, index),
            sector,
        ),
{
}

/// An entry before another frames a sector as data, or as an end.
spec fn some_frames_data(iso: IsoModel, state: PlacingModel, from: int, sector: u32) -> bool {
    exists|i: int|
        from <= i < iso.entries.len() && (#[trigger] run_of(iso, state, i)).frames_data(sector)
}

spec fn some_frames_end(iso: IsoModel, state: PlacingModel, from: int, sector: u32) -> bool {
    exists|i: int|
        from <= i < iso.entries.len() && (#[trigger] run_of(iso, state, i)).frames_end(sector)
}

spec fn some_frames_metadata(iso: IsoModel, state: PlacingModel, from: int, sector: u32) -> bool {
    exists|i: int|
        from <= i < iso.entries.len() && (#[trigger] run_of(iso, state, i)).frames_metadata(sector)
}

spec fn some_numbers(iso: IsoModel, state: PlacingModel, from: int, sector: u32) -> bool {
    exists|i: int|
        from <= i < iso.entries.len() && (#[trigger] run_of(iso, state, i)).number != 0 && run_of(
            iso,
            state,
            i,
        ).has(sector)
}

spec fn some_has_framing(iso: IsoModel, state: PlacingModel, from: int, sector: u32) -> bool {
    exists|i: int|
        from <= i < iso.entries.len() && (#[trigger] run_of(iso, state, i)).framing is Some
            && run_of(iso, state, i).frames_data(sector)
}

/// No directory among the entries ends at a sector that it frames as the end of a file.
spec fn none_ends_at(iso: IsoModel, state: PlacingModel, from: int, sector: u32) -> bool {
    forall|i: int|
        from <= i < iso.entries.len() ==> (#[trigger] run_of(iso, state, i)).file || !run_of(
            iso,
            state,
            i,
        ).frames_end(sector)
}

/// Framing entries keeps the marks of data and of ends, and sets those of the entries.
proof fn entries_are_framed(
    iso: IsoModel,
    state: PlacingModel,
    marks: SubheaderModel,
    index: int,
    sector: u32,
)
    requires
        0 <= index <= iso.entries.len(),
    ensures
        frame_entries_from(iso, state, marks, index) matches Ok(after) ==> {
            &&& after.data.contains(sector) <==> marks.data.contains(sector) || some_frames_data(
                iso,
                state,
                index,
                sector,
            )
            &&& after.end_of_file.contains(sector) <==> marks.end_of_file.contains(sector)
                || some_frames_end(iso, state, index, sector)
            &&& after.metadata.contains(sector) ==> marks.metadata.contains(sector)
                || some_frames_metadata(iso, state, index, sector)
            &&& none_ends_at(iso, state, index, sector) && (marks.metadata.contains(sector)
                || some_frames_metadata(iso, state, index, sector)) ==> after.metadata.contains(
                sector,
            )
            &&& after.file_numbers.contains_key(sector) <==> marks.file_numbers.contains_key(sector)
                || some_numbers(iso, state, index, sector)
            &&& !some_numbers(iso, state, index, sector) && marks.file_numbers.contains_key(sector)
                ==> after.file_numbers[sector] == marks.file_numbers[sector]
            &&& after.framing.contains_key(sector) <==> marks.framing.contains_key(sector)
                || some_has_framing(iso, state, index, sector)
            &&& !some_has_framing(iso, state, index, sector) && marks.framing.contains_key(sector)
                ==> after.framing[sector] == marks.framing[sector]
        },
    decreases iso.entries.len() - index,
{
    if index < iso.entries.len() {
        if let Ok(next) = frame_entry(iso, state, marks, iso.entries[index]) {
            let run = run_of(iso, state, index);
            entry_is_framed(iso, state, marks, index, sector);
            entries_are_framed(iso, state, next, index + 1, sector);
            assert(some_frames_data(iso, state, index, sector) <==> run.frames_data(sector)
                || some_frames_data(iso, state, index + 1, sector));
            assert(some_frames_end(iso, state, index, sector) <==> run.frames_end(sector)
                || some_frames_end(iso, state, index + 1, sector));
            assert(some_frames_metadata(iso, state, index, sector) <==> run.frames_metadata(sector)
                || some_frames_metadata(iso, state, index + 1, sector));
            assert(some_numbers(iso, state, index, sector) <==> (run.number != 0 && run.has(sector))
                || some_numbers(iso, state, index + 1, sector));
            assert(some_has_framing(iso, state, index, sector) <==> (run.framing is Some
                && run.frames_data(sector)) || some_has_framing(iso, state, index + 1, sector));
            assert(none_ends_at(iso, state, index, sector) <==> (run.file || !run.frames_end(
                sector,
            )) && none_ends_at(iso, state, index + 1, sector));
        }
    }
}

/// The number and the framing subheader of a sector are those of the entry whose run has it,
/// where no other has it.
proof fn only_run_counts(
    iso: IsoModel,
    state: PlacingModel,
    marks: SubheaderModel,
    index: int,
    entry: int,
    sector: u32,
)
    requires
        0 <= index <= entry < iso.entries.len(),
        run_of(iso, state, entry).has(sector),
        forall|i: int|
            index <= i < iso.entries.len() && i != entry ==> !(#[trigger] run_of(
                iso,
                state,
                i,
            )).has(sector),
    ensures
        frame_entries_from(iso, state, marks, index) matches Ok(after) ==> {
            let run = run_of(iso, state, entry);
            &&& run.number != 0 ==> after.file_numbers.contains_key(sector)
                && after.file_numbers[sector] == run.number
            &&& run.framing is Some && run.frames_data(sector) ==> after.framing.contains_key(
                sector,
            ) && after.framing[sector] == run.framing->Some_0
        },
    decreases entry - index,
{
    if let Ok(next) = frame_entry(iso, state, marks, iso.entries[index]) {
        entry_is_framed(iso, state, marks, index, sector);
        if index < entry {
            only_run_counts(iso, state, next, index + 1, entry, sector);
        } else {
            entries_are_framed(iso, state, next, index + 1, sector);
            assert forall|i: int| index + 1 <= i < iso.entries.len() implies !(#[trigger] run_of(
                iso,
                state,
                i,
            )).has(sector) by {}
        }
    }
}

/// The marks of a layout before its entries are framed.
spec fn marks_of_tables(
    iso: IsoModel,
    state: PlacingModel,
    blocks: u32,
    joliet_blocks: u32,
) -> SubheaderModel {
    let none = SubheaderModel {
        data: Set::empty(),
        end_of_file: Set::empty(),
        metadata: Set::empty(),
        framing: Map::empty(),
        file_numbers: Map::empty(),
    };
    let framed = frame_tables_from(iso, none, state.tables, blocks, 0);
    if iso.supplementary_volumes.len() > 0 {
        mark_directories_from(
            mark_tables_from(
                framed,
                state.joliet_tables + state.tables,
                state.joliet_tables,
                blocks,
                joliet_blocks,
                0,
            ),
            state.joliet.placements,
            0,
        )
    } else {
        framed
    }
}

/// What a layout was made by.
proof fn layout_is_made(iso: IsoModel, lengths: Seq<FileLengthModel>, layout: LayoutModel)
    requires
        layout_of(iso, lengths) == Ok::<LayoutModel, Failure>(layout),
    ensures
        ({
            let placed = places_of(iso, lengths);
            let tables = table_blocks(placed);
            &&& description_check(iso) is Ok
            &&& iso.supplementary_volumes.len() <= 1
            &&& layout.files == placed.state.files
            &&& frame_entries_from(
                iso,
                placed.state,
                marks_of_tables(iso, placed.state, tables.primary, tables.joliet),
                0,
            ) == Ok::<SubheaderModel, Failure>(layout.marks)
            &&& is_layout(iso, lengths, layout)
        }),
{
    reveal(is_layout);
    reveal(places_of);
    layout_holds_parts(iso, lengths, layout);
}

/// A file is found by its path where no other has the path.
proof fn file_is_found_from(files: Seq<FileModel>, position: int, index: int)
    requires
        0 <= index <= position < files.len(),
        forall|i: int, j: int|
            0 <= i < j < files.len() ==> (#[trigger] files[i]).path != (#[trigger] files[j]).path,
    ensures
        find_file_from(files, files[position].path, index) == Some(files[position]),
    decreases position - index,
{
    if index < position {
        assert(files[index].path != files[position].path);
        file_is_found_from(files, position, index + 1);
    }
}

/// The run of an entry that names a file of the layout is that of the file.
proof fn run_is_that_of_file(
    iso: IsoModel,
    lengths: Seq<FileLengthModel>,
    layout: LayoutModel,
    entry: int,
    file: int,
)
    requires
        layout_of(iso, lengths) == Ok::<LayoutModel, Failure>(layout),
        0 <= entry < iso.entries.len(),
        0 <= file < layout.files.len(),
        layout.files[file].path == iso.entries[entry].path,
        iso.entries[entry].extent is None,
    ensures
        ({
            let run = run_of(iso, places_of(iso, lengths).state, entry);
            &&& run.file
            &&& run.extent == layout.files[file].extent
            &&& run.blocks == layout.files[file].blocks
        }),
{
    layout_is_made(iso, lengths, layout);
    each_file_is_placed_once(iso, lengths, layout);
    let path = layout.files[file].path;
    assert(iso.files.contains(ItemModel::Path { path }));
    let i = choose|i: int| 0 <= i < iso.files.len() && iso.files[i] == (ItemModel::Path { path });
    assert(iso.files[i] == (ItemModel::Path { path }));
    assert(is_authored(iso.files, path));
    file_is_found_from(layout.files, file, 0);
}

/// The sectors of a file that the layout places do not lie in a directory.
proof fn file_is_apart_from_directories(
    iso: IsoModel,
    lengths: Seq<FileLengthModel>,
    layout: LayoutModel,
    file: int,
    sector: u32,
)
    requires
        layout_of(iso, lengths) == Ok::<LayoutModel, Failure>(layout),
        0 <= file < layout.files.len(),
        layout.files[file].extent <= sector < layout.files[file].extent + layout.files[file].blocks,
    ensures
        none_ends_at(iso, places_of(iso, lengths).state, 0, sector),
        forall|i: int|
            0 <= i < iso.entries.len() && !(#[trigger] run_of(
                iso,
                places_of(iso, lengths).state,
                i,
            )).file ==> !run_of(iso, places_of(iso, lengths).state, i).has(sector),
{
    layout_is_made(iso, lengths, layout);
    let placed = places_of(iso, lengths);
    let state = placed.state;
    reveal(places_of);
    parts_are_apart(iso, lengths, placed);
    let own = Part::File { index: file };
    assert(takes_blocks(state, table_blocks(placed), own));
    assert forall|i: int| 0 <= i < iso.entries.len() && !(#[trigger] run_of(
        iso,
        state,
        i,
    )).file implies !run_of(iso, state, i).has(sector) by {
        entry_was_framed(iso, lengths, layout, i);
        let directories = state.primary.placements;
        found_directory_is_there(directories, iso.entries[i].path, 0);
        let at = find_directory(directories, iso.entries[i].path);
        let other = Part::Directory { volume: MetadataVolume::Primary, index: at };
        if run_of(iso, state, i).has(sector) {
            assert(state.tree(MetadataVolume::Primary) == state.primary);
            assert(takes_blocks(state, table_blocks(placed), other));
            assert(false);
        }
    }
}

/// Every entry of a layout has a run: a file that is found, or a directory that has a place.
proof fn entry_was_framed(
    iso: IsoModel,
    lengths: Seq<FileLengthModel>,
    layout: LayoutModel,
    entry: int,
)
    requires
        layout_of(iso, lengths) == Ok::<LayoutModel, Failure>(layout),
        0 <= entry < iso.entries.len(),
    ensures
        ({
            let state = places_of(iso, lengths).state;
            let path = iso.entries[entry].path;
            &&& is_file(iso, path) ==> file_of(iso.entries[entry], state.files) is Some
            &&& !is_file(iso, path) ==> 0 <= find_directory(state.primary.placements, path)
                < state.primary.placements.len()
            &&& run_of(iso, state, entry).file && run_of(iso, state, entry).policy
                != EntrySectorSubheader::Canonical ==> run_of(iso, state, entry).blocks > 0
        }),
{
    layout_is_made(iso, lengths, layout);
    let placed = places_of(iso, lengths);
    let tables = table_blocks(placed);
    found_directory_is_there(placed.state.primary.placements, iso.entries[entry].path, 0);
    framed_entry_is_there(
        iso,
        placed.state,
        marks_of_tables(iso, placed.state, tables.primary, tables.joliet),
        0,
        entry,
    );
}

proof fn framed_entry_is_there(
    iso: IsoModel,
    state: PlacingModel,
    marks: SubheaderModel,
    index: int,
    entry: int,
)
    requires
        0 <= index <= entry < iso.entries.len(),
        frame_entries_from(iso, state, marks, index) is Ok,
    ensures
        exists|before: SubheaderModel|
            (#[trigger] frame_entry(iso, state, before, iso.entries[entry])) is Ok,
    decreases entry - index,
{
    let next = frame_entry(iso, state, marks, iso.entries[index]);
    if index < entry {
        framed_entry_is_there(iso, state, next->Ok_0, index + 1, entry);
    }
}

/// How the sectors of a file are framed. With the policy `data` every sector is data; with
/// `end_of_file_data` and `data_until_final` every sector but the last is, and the last is
/// the end of the file or metadata; with `iso_metadata` every sector is metadata.
pub proof fn sectors_of_file_are_framed(
    iso: IsoModel,
    lengths: Seq<FileLengthModel>,
    layout: LayoutModel,
    entry: int,
    file: int,
    sector: u32,
)
    requires
        layout_of(iso, lengths) == Ok::<LayoutModel, Failure>(layout),
        0 <= entry < iso.entries.len(),
        iso.entries[entry].extent is None,
        0 <= file < layout.files.len(),
        layout.files[file].path == iso.entries[entry].path,
        layout.files[file].extent <= sector < layout.files[file].extent + layout.files[file].blocks,
    ensures
        ({
            let last = layout.files[file].extent + layout.files[file].blocks - 1;
            match iso.entries[entry].sector_subheader {
                EntrySectorSubheader::Data => layout.marks.data.contains(sector),
                EntrySectorSubheader::EndOfFileData => if sector < last {
                    layout.marks.data.contains(sector)
                } else {
                    layout.marks.end_of_file.contains(sector)
                },
                EntrySectorSubheader::DataUntilFinal => if sector < last {
                    layout.marks.data.contains(sector)
                } else {
                    layout.marks.metadata.contains(sector)
                },
                EntrySectorSubheader::IsoMetadata => layout.marks.metadata.contains(sector),
                EntrySectorSubheader::Canonical => true,
            }
        }),
{
    layout_is_made(iso, lengths, layout);
    let placed = places_of(iso, lengths);
    let state = placed.state;
    let tables = table_blocks(placed);
    let marks = marks_of_tables(iso, state, tables.primary, tables.joliet);
    run_is_that_of_file(iso, lengths, layout, entry, file);
    file_is_apart_from_directories(iso, lengths, layout, file, sector);
    entries_are_framed(iso, state, marks, 0, sector);
    let run = run_of(iso, state, entry);
    assert(run.policy == iso.entries[entry].sector_subheader);
    assert(run.has(sector));
    assert(run.frames_data(sector) ==> some_frames_data(iso, state, 0, sector));
    assert(run.frames_end(sector) ==> some_frames_end(iso, state, 0, sector));
    assert(run.frames_metadata(sector) ==> some_frames_metadata(iso, state, 0, sector));
}

/// The run of a path table.
spec fn table_run(iso: IsoModel, start: u32, blocks: u32) -> FramedRun {
    FramedRun {
        extent: start,
        blocks,
        policy: iso.path_table_subheader,
        number: 0,
        framing: iso.path_table_framing_subheader,
        file: false,
    }
}

/// A sector is one of a path table of the primary tree.
pub open spec fn lies_in_table(tables: Seq<u32>, blocks: u32, sector: u32) -> bool {
    exists|i: int|
        0 <= i < tables.len() && #[trigger] tables[i] != 0 && tables[i] <= sector < tables[i]
            + blocks
}

/// A sector is one of a directory.
pub open spec fn lies_in_directory(directories: Seq<PlacementModel>, sector: u32) -> bool {
    exists|i: int|
        0 <= i < directories.len() && (#[trigger] directories[i]).extent <= sector
            < directories[i].extent + directories[i].blocks
}

/// An entry refers to a sector by a fixed extent and a length.
pub open spec fn is_referred_to(iso: IsoModel, sector: u32) -> bool {
    exists|i: int|
        0 <= i < iso.entries.len() && refers_to(#[trigger] iso.entries[i], sector)
}

/// The content of an entry with a fixed extent reaches into a sector.
pub open spec fn refers_to(entry: EntryModel, sector: u32) -> bool {
    entry.extent matches Some(extent) && extent <= sector && (sector - extent) * 2048 < (
    match entry.length {
        Some(length) => length as int,
        None => 0,
    })
}

/// Framing path tables frames the run of each.
proof fn tables_are_framed(
    iso: IsoModel,
    marks: SubheaderModel,
    tables: Seq<u32>,
    blocks: u32,
    index: int,
    sector: u32,
)
    requires
        0 <= index <= tables.len(),
    ensures
        ({
            let after = frame_tables_from(iso, marks, tables, blocks, index);
            &&& marks.data.contains(sector) ==> after.data.contains(sector)
            &&& marks.end_of_file.contains(sector) ==> after.end_of_file.contains(sector)
            &&& after.file_numbers == marks.file_numbers
            &&& !lies_in_table(tables, blocks, sector) ==> {
                &&& after.data.contains(sector) == marks.data.contains(sector)
                &&& after.end_of_file.contains(sector) == marks.end_of_file.contains(sector)
                &&& after.metadata.contains(sector) == marks.metadata.contains(sector)
                &&& after.framing.contains_key(sector) == marks.framing.contains_key(sector)
            }
        }),
    decreases tables.len() - index,
{
    if index < tables.len() {
        let run = table_run(iso, tables[index], blocks);
        if tables[index] == 0 {
            tables_are_framed(iso, marks, tables, blocks, index + 1, sector);
        } else {
            let next = frame_run(
                marks,
                tables[index],
                blocks,
                iso.path_table_subheader,
                iso.path_table_framing_subheader,
            );
            assert(run_is_framed(marks, next, run, sector));
            tables_are_framed(iso, next, tables, blocks, index + 1, sector);
            if run.has(sector) {
                assert(tables[index] <= sector < tables[index] + blocks);
            }
        }
    }
}

/// Framing path tables that lie apart sets the marks of each.
proof fn table_is_framed(
    iso: IsoModel,
    marks: SubheaderModel,
    tables: Seq<u32>,
    blocks: u32,
    index: int,
    table: int,
    sector: u32,
)
    requires
        0 <= index <= table < tables.len(),
        tables[table] != 0,
        tables[table] <= sector < tables[table] + blocks,
        forall|i: int|
            0 <= i < tables.len() && i != table && #[trigger] tables[i] != 0 ==> !(tables[i]
                <= sector < tables[i] + blocks),
    ensures
        ({
            let after = frame_tables_from(iso, marks, tables, blocks, index);
            let run = table_run(iso, tables[table], blocks);
            &&& run.frames_data(sector) ==> after.data.contains(sector)
            &&& run.frames_end(sector) ==> after.end_of_file.contains(sector)
            &&& run.frames_metadata(sector) ==> after.metadata.contains(sector)
            &&& after.data.contains(sector) ==> run.frames_data(sector) || marks.data.contains(
                sector,
            )
            &&& after.end_of_file.contains(sector) ==> run.frames_end(sector)
                || marks.end_of_file.contains(sector)
            &&& after.metadata.contains(sector) ==> run.frames_metadata(sector)
                || marks.metadata.contains(sector)
            &&& run.framing is Some && run.frames_data(sector) ==> after.framing.contains_key(
                sector,
            ) && after.framing[sector] == run.framing->Some_0
        }),
    decreases table - index,
{
    let run = table_run(iso, tables[index], blocks);
    if tables[index] == 0 {
        table_is_framed(iso, marks, tables, blocks, index + 1, table, sector);
    } else {
        let next = frame_run(
            marks,
            tables[index],
            blocks,
            iso.path_table_subheader,
            iso.path_table_framing_subheader,
        );
        assert(run_is_framed(marks, next, run, sector));
        if index < table {
            assert(!run.has(sector));
            table_is_framed(iso, next, tables, blocks, index + 1, table, sector);
        } else {
            later_tables_keep(iso, next, tables, blocks, index + 1, sector);
        }
    }
}

proof fn later_tables_keep(
    iso: IsoModel,
    marks: SubheaderModel,
    tables: Seq<u32>,
    blocks: u32,
    index: int,
    sector: u32,
)
    requires
        0 <= index <= tables.len(),
        forall|i: int|
            index <= i < tables.len() && #[trigger] tables[i] != 0 ==> !(tables[i] <= sector
                < tables[i] + blocks),
    ensures
        ({
            let after = frame_tables_from(iso, marks, tables, blocks, index);
            &&& after.data.contains(sector) == marks.data.contains(sector)
            &&& after.end_of_file.contains(sector) == marks.end_of_file.contains(sector)
            &&& after.metadata.contains(sector) == marks.metadata.contains(sector)
            &&& after.framing.contains_key(sector) == marks.framing.contains_key(sector)
            &&& marks.framing.contains_key(sector) ==> after.framing[sector]
                == marks.framing[sector]
        }),
    decreases tables.len() - index,
{
    if index < tables.len() {
        let run = table_run(iso, tables[index], blocks);
        if tables[index] == 0 {
            later_tables_keep(iso, marks, tables, blocks, index + 1, sector);
        } else {
            let next = frame_run(
                marks,
                tables[index],
                blocks,
                iso.path_table_subheader,
                iso.path_table_framing_subheader,
            );
            assert(run_is_framed(marks, next, run, sector));
            assert(!run.has(sector));
            later_tables_keep(iso, next, tables, blocks, index + 1, sector);
        }
    }
}

/// Marking tables marks the sectors of each as metadata, and no other.
proof fn tables_are_marked(
    marks: SubheaderModel,
    tables: Seq<u32>,
    joliet_tables: Seq<u32>,
    blocks: u32,
    joliet_blocks: u32,
    index: int,
    sector: u32,
)
    requires
        0 <= index <= tables.len(),
    ensures
        ({
            let after = mark_tables_from(
                marks,
                tables,
                joliet_tables,
                blocks,
                joliet_blocks,
                index,
            );
            &&& after == (SubheaderModel { metadata: after.metadata, ..marks })
            &&& after.metadata.contains(sector) <==> marks.metadata.contains(sector) || exists|
                i: int,
            |
                index <= i < tables.len() && #[trigger] tables[i] != 0 && tables[i] <= sector
                    < tables[i] + (if joliet_tables.contains(tables[i]) {
                    joliet_blocks
                } else {
                    blocks
                })
        }),
    decreases tables.len() - index,
{
    if index < tables.len() {
        let size = if joliet_tables.contains(tables[index]) {
            joliet_blocks
        } else {
            blocks
        };
        let next = if tables[index] == 0 {
            marks
        } else {
            mark_run(marks, tables[index], size)
        };
        tables_are_marked(next, tables, joliet_tables, blocks, joliet_blocks, index + 1, sector);
        let later = exists|i: int|
            index + 1 <= i < tables.len() && #[trigger] tables[i] != 0 && tables[i] <= sector
                < tables[i] + (if joliet_tables.contains(tables[i]) {
                joliet_blocks
            } else {
                blocks
            });
        let any = exists|i: int|
            index <= i < tables.len() && #[trigger] tables[i] != 0 && tables[i] <= sector
                < tables[i] + (if joliet_tables.contains(tables[i]) {
                joliet_blocks
            } else {
                blocks
            });
        assert(any <==> later || (tables[index] != 0 && tables[index] <= sector < tables[index]
            + size));
    }
}

/// Marking directories marks the sectors of each as metadata, and no other.
proof fn directories_are_marked(
    marks: SubheaderModel,
    directories: Seq<PlacementModel>,
    index: int,
    sector: u32,
)
    requires
        0 <= index <= directories.len(),
    ensures
        ({
            let after = mark_directories_from(marks, directories, index);
            &&& after == (SubheaderModel { metadata: after.metadata, ..marks })
            &&& after.metadata.contains(sector) <==> marks.metadata.contains(sector) || exists|
                i: int,
            |
                index <= i < directories.len() && (#[trigger] directories[i]).extent <= sector
                    < directories[i].extent + directories[i].blocks
        }),
    decreases directories.len() - index,
{
    if index < directories.len() {
        let directory = directories[index];
        let next = mark_run(marks, directory.extent, directory.blocks);
        directories_are_marked(next, directories, index + 1, sector);
        let later = exists|i: int|
            index + 1 <= i < directories.len() && (#[trigger] directories[i]).extent <= sector
                < directories[i].extent + directories[i].blocks;
        let any = exists|i: int|
            index <= i < directories.len() && (#[trigger] directories[i]).extent <= sector
                < directories[i].extent + directories[i].blocks;
        assert(any <==> later || (directory.extent <= sector < directory.extent
            + directory.blocks));
    }
}

/// A sector that lies in no path table and in no directory of the Joliet tree is not marked
/// for one.
proof fn tables_do_not_reach(
    iso: IsoModel,
    state: PlacingModel,
    blocks: u32,
    joliet_blocks: u32,
    sector: u32,
)
    requires
        !lies_in_table(state.tables, blocks, sector),
        !lies_in_table(state.joliet_tables, joliet_blocks, sector),
        !lies_in_directory(state.joliet.placements, sector),
    ensures
        ({
            let marks = marks_of_tables(iso, state, blocks, joliet_blocks);
            &&& !marks.data.contains(sector)
            &&& !marks.end_of_file.contains(sector)
            &&& !marks.metadata.contains(sector)
            &&& !marks.framing.contains_key(sector)
            &&& !marks.file_numbers.contains_key(sector)
        }),
{
    let none = SubheaderModel {
        data: Set::empty(),
        end_of_file: Set::empty(),
        metadata: Set::empty(),
        framing: Map::empty(),
        file_numbers: Map::empty(),
    };
    tables_are_framed(iso, none, state.tables, blocks, 0, sector);
    let framed = frame_tables_from(iso, none, state.tables, blocks, 0);
    let all = state.joliet_tables + state.tables;
    tables_are_marked(framed, all, state.joliet_tables, blocks, joliet_blocks, 0, sector);
    let marked = mark_tables_from(framed, all, state.joliet_tables, blocks, joliet_blocks, 0);
    assert forall|i: int| 0 <= i < all.len() && #[trigger] all[i] != 0 implies !(all[i] <= sector
        < all[i] + (if state.joliet_tables.contains(all[i]) {
        joliet_blocks
    } else {
        blocks
    })) by {
        if state.joliet_tables.contains(all[i]) {
            let j = choose|j: int|
                0 <= j < state.joliet_tables.len() && state.joliet_tables[j] == all[i];
            assert(state.joliet_tables[j] != 0);
        } else if i < state.joliet_tables.len() {
            assert(all[i] == state.joliet_tables[i]);
            assert(false);
        } else {
            assert(state.tables[i - state.joliet_tables.len()] != 0);
        }
    }
    directories_are_marked(marked, state.joliet.placements, 0, sector);
}

/// The part of an image that an entry without a fixed extent names.
proof fn part_of_entry(
    iso: IsoModel,
    lengths: Seq<FileLengthModel>,
    layout: LayoutModel,
    entry: int,
) -> (part: Part)
    requires
        layout_of(iso, lengths) == Ok::<LayoutModel, Failure>(layout),
        0 <= entry < iso.entries.len(),
        iso.entries[entry].extent is None,
    ensures
        ({
            let placed = places_of(iso, lengths);
            let state = placed.state;
            let run = run_of(iso, state, entry);
            &&& start_of(state, part) == run.extent
            &&& size_of_part(state, table_blocks(placed), part) == run.blocks
            &&& has_place(state, part)
            &&& match part {
                Part::File { index } => 0 <= index < state.files.len() && state.files[index].path
                    == iso.entries[entry].path,
                Part::Directory { volume, index } => volume == MetadataVolume::Primary && 0 <= index
                    < state.primary.placements.len() && state.primary.placements[index].path
                    == iso.entries[entry].path,
                _ => false,
            }
            &&& part is File <==> run.file
        }),
{
    layout_is_made(iso, lengths, layout);
    entry_was_framed(iso, lengths, layout, entry);
    let placed = places_of(iso, lengths);
    let state = placed.state;
    let path = iso.entries[entry].path;
    reveal(places_of);
    parts_are_apart(iso, lengths, placed);
    if is_file(iso, path) {
        found_file_is_placed(state.files, path, 0);
        let index = choose|f: int|
            0 <= f < state.files.len() && (#[trigger] state.files[f]).path == path && find_file_from(
                state.files,
                path,
                0,
            ) == Some(state.files[f]);
        Part::File { index }
    } else {
        let index = find_directory(state.primary.placements, path);
        found_directory_is_there(state.primary.placements, path, 0);
        assert(state.tree(MetadataVolume::Primary) == state.primary);
        Part::Directory { volume: MetadataVolume::Primary, index }
    }
}

proof fn found_file_is_placed(files: Seq<FileModel>, path: Seq<char>, index: int)
    requires
        find_file_from(files, path, index) is Some,
    ensures
        exists|f: int|
            0 <= f < files.len() && (#[trigger] files[f]).path == path && find_file_from(
                files,
                path,
                index,
            ) == Some(files[f]),
    decreases files.len() - index,
{
    if files[index].path != path {
        found_file_is_placed(files, path, index + 1);
        let f = choose|f: int|
            0 <= f < files.len() && (#[trigger] files[f]).path == path && find_file_from(
                files,
                path,
                index + 1,
            ) == Some(files[f]);
        assert(files[f].path == path);
    } else {
        assert(files[index].path == path);
    }
}

/// An entry with a fixed extent has the sectors that its content reaches into.
proof fn run_of_reference(iso: IsoModel, state: PlacingModel, entry: int, sector: u32)
    requires
        0 <= entry < iso.entries.len(),
        iso.entries[entry].extent is Some,
    ensures
        run_of(iso, state, entry).has(sector) <==> refers_to(iso.entries[entry], sector),
        run_of(iso, state, entry).extent == iso.entries[entry].extent->Some_0,
        run_of(iso, state, entry).file,
{
    assert(is_referenced(iso.entries, iso.entries[entry].path));
}

/// Where no entry refers to a sector by a fixed extent, the sector is in the run of one
/// entry at most, and where it is, in no path table and in no directory of the Joliet tree.
proof fn run_is_alone(
    iso: IsoModel,
    lengths: Seq<FileLengthModel>,
    layout: LayoutModel,
    entry: int,
    sector: u32,
)
    requires
        layout_of(iso, lengths) == Ok::<LayoutModel, Failure>(layout),
        0 <= entry < iso.entries.len(),
        !is_referred_to(iso, sector),
        run_of(iso, places_of(iso, lengths).state, entry).has(sector),
    ensures
        forall|i: int|
            0 <= i < iso.entries.len() && i != entry ==> !(#[trigger] run_of(
                iso,
                places_of(iso, lengths).state,
                i,
            )).has(sector),
        ({
            let placed = places_of(iso, lengths);
            let tables = table_blocks(placed);
            &&& !lies_in_table(placed.state.tables, tables.primary, sector)
            &&& !lies_in_table(placed.state.joliet_tables, tables.joliet, sector)
            &&& !lies_in_directory(placed.state.joliet.placements, sector)
        }),
{
    layout_is_made(iso, lengths, layout);
    checked_is_tree(iso);
    let placed = places_of(iso, lengths);
    let state = placed.state;
    let tables = table_blocks(placed);
    reveal(places_of);
    parts_are_apart(iso, lengths, placed);
    if iso.entries[entry].extent is Some {
        run_of_reference(iso, state, entry, sector);
        assert(refers_to(iso.entries[entry], sector));
        assert(false);
    }
    let own = part_of_entry(iso, lengths, layout, entry);
    assert(takes_blocks(state, tables, own));
    assert forall|i: int| 0 <= i < iso.entries.len() && i != entry implies !(#[trigger] run_of(
        iso,
        state,
        i,
    )).has(sector) by {
        if run_of(iso, state, i).has(sector) {
            if iso.entries[i].extent is Some {
                run_of_reference(iso, state, i, sector);
                assert(refers_to(iso.entries[i], sector));
            } else {
                let other = part_of_entry(iso, lengths, layout, i);
                assert(takes_blocks(state, tables, other));
                if i < entry {
                    assert(iso.entries[i].path != iso.entries[entry].path);
                } else {
                    assert(iso.entries[entry].path != iso.entries[i].path);
                }
                assert(own != other);
            }
            assert(false);
        }
    }
    assert forall|i: int| 0 <= i < state.tables.len() && #[trigger] state.tables[i] != 0 implies !(
    state.tables[i] <= sector < state.tables[i] + tables.primary) by {
        let other = Part::Table { volume: MetadataVolume::Primary, index: i };
        if state.tables[i] <= sector < state.tables[i] + tables.primary {
            assert(takes_blocks(state, tables, other));
        }
    }
    assert forall|i: int|
        0 <= i < state.joliet_tables.len() && #[trigger] state.joliet_tables[i] != 0 implies !(
    state.joliet_tables[i] <= sector < state.joliet_tables[i] + tables.joliet) by {
        let other = Part::Table { volume: MetadataVolume::Joliet, index: i };
        if state.joliet_tables[i] <= sector < state.joliet_tables[i] + tables.joliet {
            assert(takes_blocks(state, tables, other));
        }
    }
    joliet_directories_have_places(iso, lengths, layout);
    assert forall|i: int| 0 <= i < state.joliet.placements.len() implies !((
    #[trigger] state.joliet.placements[i]).extent <= sector < state.joliet.placements[i].extent
        + state.joliet.placements[i].blocks) by {
        let directory = state.joliet.placements[i];
        let other = Part::Directory { volume: MetadataVolume::Joliet, index: i };
        assert(state.tree(MetadataVolume::Joliet) == state.joliet);
        if directory.extent <= sector < directory.extent + directory.blocks {
            assert(takes_blocks(state, tables, other));
        }
    }
}

/// Every directory of the Joliet tree has a place.
proof fn joliet_directories_have_places(
    iso: IsoModel,
    lengths: Seq<FileLengthModel>,
    layout: LayoutModel,
)
    requires
        layout_of(iso, lengths) == Ok::<LayoutModel, Failure>(layout),
    ensures
        ({
            let joliet = places_of(iso, lengths).state.joliet;
            &&& joliet.placements.len() == joliet.placed.len()
            &&& all_placed(joliet.placed)
        }),
{
    layout_is_made(iso, lengths, layout);
    let placed = places_of(iso, lengths);
    reveal(places_of);
    parts_are_apart(iso, lengths, placed);
}

/// The marks of a sector that one run alone has are those that the run sets.
proof fn marks_are_those_of_run(
    iso: IsoModel,
    lengths: Seq<FileLengthModel>,
    layout: LayoutModel,
    entry: int,
    sector: u32,
)
    requires
        layout_of(iso, lengths) == Ok::<LayoutModel, Failure>(layout),
        0 <= entry < iso.entries.len(),
        !is_referred_to(iso, sector),
        run_of(iso, places_of(iso, lengths).state, entry).has(sector),
    ensures
        ({
            let run = run_of(iso, places_of(iso, lengths).state, entry);
            let marks = layout.marks;
            &&& marks.data.contains(sector) <==> run.frames_data(sector)
            &&& marks.end_of_file.contains(sector) <==> run.frames_end(sector)
            &&& marks.metadata.contains(sector) <==> run.frames_metadata(sector)
            &&& marks.file_numbers.contains_key(sector) <==> run.number != 0
            &&& run.number != 0 ==> marks.file_numbers[sector] == run.number
            &&& marks.framing.contains_key(sector) <==> run.framing is Some && run.frames_data(
                sector,
            )
            &&& run.framing is Some && run.frames_data(sector) ==> marks.framing[sector]
                == run.framing->Some_0
        }),
{
    layout_is_made(iso, lengths, layout);
    let placed = places_of(iso, lengths);
    let state = placed.state;
    let tables = table_blocks(placed);
    let marks = marks_of_tables(iso, state, tables.primary, tables.joliet);
    let run = run_of(iso, state, entry);
    run_is_alone(iso, lengths, layout, entry, sector);
    tables_do_not_reach(iso, state, tables.primary, tables.joliet, sector);
    entries_are_framed(iso, state, marks, 0, sector);
    only_run_counts(iso, state, marks, 0, entry, sector);
    assert(some_frames_data(iso, state, 0, sector) <==> run.frames_data(sector));
    assert(some_frames_end(iso, state, 0, sector) <==> run.frames_end(sector));
    assert(some_frames_metadata(iso, state, 0, sector) <==> run.frames_metadata(sector));
    assert(some_numbers(iso, state, 0, sector) <==> run.number != 0);
    assert(some_has_framing(iso, state, 0, sector) <==> run.framing is Some && run.frames_data(
        sector,
    ));
    if run.frames_metadata(sector) {
        assert(none_ends_at(iso, state, 0, sector));
    }
}

/// The sectors of a file carry no mark but those that its policy and its number give them,
/// where no entry refers to them by a fixed extent.
pub proof fn marks_of_file_are_its_own(
    iso: IsoModel,
    lengths: Seq<FileLengthModel>,
    layout: LayoutModel,
    entry: int,
    file: int,
    sector: u32,
)
    requires
        layout_of(iso, lengths) == Ok::<LayoutModel, Failure>(layout),
        0 <= entry < iso.entries.len(),
        iso.entries[entry].extent is None,
        0 <= file < layout.files.len(),
        layout.files[file].path == iso.entries[entry].path,
        layout.files[file].extent <= sector < layout.files[file].extent + layout.files[file].blocks,
        !is_referred_to(iso, sector),
    ensures
        ({
            let last = layout.files[file].extent + layout.files[file].blocks - 1;
            let policy = iso.entries[entry].sector_subheader;
            let marks = layout.marks;
            &&& marks.data.contains(sector) <==> policy == EntrySectorSubheader::Data || ((policy
                == EntrySectorSubheader::EndOfFileData || policy
                == EntrySectorSubheader::DataUntilFinal) && sector < last)
            &&& marks.end_of_file.contains(sector) <==> policy
                == EntrySectorSubheader::EndOfFileData && sector == last
            &&& marks.metadata.contains(sector) <==> policy == EntrySectorSubheader::IsoMetadata
                || (policy == EntrySectorSubheader::DataUntilFinal && sector == last)
            &&& !marks.framing.contains_key(sector)
            &&& match iso.entries[entry].xa {
                Some(xa) => if xa.file_number == 0 {
                    !marks.file_numbers.contains_key(sector)
                } else {
                    marks.file_numbers.contains_key(sector) && marks.file_numbers[sector]
                        == xa.file_number
                },
                None => !marks.file_numbers.contains_key(sector),
            }
        }),
{
    run_is_that_of_file(iso, lengths, layout, entry, file);
    marks_are_those_of_run(iso, lengths, layout, entry, sector);
}

/// How the sectors of a directory are marked, where no entry refers to them by a fixed
/// extent: as metadata, but for those that the policy of the directory frames as data or as
/// the end of a file. Those framed as data carry the framing subheader of the directory.
pub proof fn marks_of_directory_are_its_own(
    iso: IsoModel,
    lengths: Seq<FileLengthModel>,
    layout: LayoutModel,
    entry: int,
    directory: int,
    sector: u32,
)
    requires
        layout_of(iso, lengths) == Ok::<LayoutModel, Failure>(layout),
        0 <= entry < iso.entries.len(),
        !is_file(iso, iso.entries[entry].path),
        0 <= directory < places_of(iso, lengths).state.primary.placements.len(),
        places_of(iso, lengths).state.primary.placements[directory].path
            == iso.entries[entry].path,
        forall|i: int|
            0 <= i < directory ==> (#[trigger] places_of(
                iso,
                lengths,
            ).state.primary.placements[i]).path != iso.entries[entry].path,
        places_of(iso, lengths).state.primary.placements[directory].extent <= sector < places_of(
            iso,
            lengths,
        ).state.primary.placements[directory].extent + places_of(
            iso,
            lengths,
        ).state.primary.placements[directory].blocks,
        !is_referred_to(iso, sector),
    ensures
        ({
            let place = places_of(iso, lengths).state.primary.placements[directory];
            let last = place.extent + place.blocks - 1;
            let policy = iso.entries[entry].sector_subheader;
            let marks = layout.marks;
            &&& marks.data.contains(sector) <==> policy == EntrySectorSubheader::Data || ((policy
                == EntrySectorSubheader::EndOfFileData || policy
                == EntrySectorSubheader::DataUntilFinal) && sector < last)
            &&& marks.end_of_file.contains(sector) <==> policy
                == EntrySectorSubheader::EndOfFileData && sector == last
            &&& marks.metadata.contains(sector) <==> policy == EntrySectorSubheader::Canonical
                || policy == EntrySectorSubheader::IsoMetadata || (policy
                == EntrySectorSubheader::DataUntilFinal && sector == last)
            &&& match iso.entries[entry].xa {
                Some(xa) => {
                    &&& if xa.file_number == 0 {
                        !marks.file_numbers.contains_key(sector)
                    } else {
                        marks.file_numbers.contains_key(sector) && marks.file_numbers[sector]
                            == xa.file_number
                    }
                    &&& if xa.framing_subheader is Some && marks.data.contains(sector) {
                        marks.framing.contains_key(sector) && marks.framing[sector]
                            == xa.framing_subheader->Some_0
                    } else {
                        !marks.framing.contains_key(sector)
                    }
                },
                None => !marks.file_numbers.contains_key(sector) && !marks.framing.contains_key(
                    sector,
                ),
            }
        }),
{
    let directories = places_of(iso, lengths).state.primary.placements;
    first_directory_is_found(directories, iso.entries[entry].path, directory, 0);
    marks_are_those_of_run(iso, lengths, layout, entry, sector);
}

proof fn first_directory_is_found(
    directories: Seq<PlacementModel>,
    path: Seq<char>,
    at: int,
    index: int,
)
    requires
        0 <= index <= at < directories.len(),
        directories[at].path == path,
        forall|i: int| 0 <= i < at ==> (#[trigger] directories[i]).path != path,
    ensures
        find_directory_from(directories, path, index) == at,
    decreases at - index,
{
    if index < at {
        assert(directories[index].path != path);
        first_directory_is_found(directories, path, at, index + 1);
    }
}

/// The sectors that an entry refers to by a fixed extent are framed by its policy as data
/// and as the end of a file, whatever lies there.
pub proof fn sectors_of_reference_are_framed(
    iso: IsoModel,
    lengths: Seq<FileLengthModel>,
    layout: LayoutModel,
    entry: int,
    extent: u32,
    length: u32,
    sector: u32,
)
    requires
        layout_of(iso, lengths) == Ok::<LayoutModel, Failure>(layout),
        0 <= entry < iso.entries.len(),
        iso.entries[entry].extent == Some(extent),
        iso.entries[entry].length == Some(length),
        extent <= sector,
        (sector - extent) * 2048 < length,
    ensures
        ({
            let last = (sector + 1 - extent) * 2048 >= length;
            match iso.entries[entry].sector_subheader {
                EntrySectorSubheader::Data => layout.marks.data.contains(sector),
                EntrySectorSubheader::EndOfFileData => if last {
                    layout.marks.end_of_file.contains(sector)
                } else {
                    layout.marks.data.contains(sector)
                },
                EntrySectorSubheader::DataUntilFinal => last || layout.marks.data.contains(sector),
                _ => true,
            }
        }),
{
    layout_is_made(iso, lengths, layout);
    let placed = places_of(iso, lengths);
    let state = placed.state;
    let tables = table_blocks(placed);
    let marks = marks_of_tables(iso, state, tables.primary, tables.joliet);
    run_of_reference(iso, state, entry, sector);
    let run = run_of(iso, state, entry);
    entries_are_framed(iso, state, marks, 0, sector);
    assert(run.ends_at(sector) <==> (sector + 1 - extent) * 2048 >= length);
    assert(run.frames_data(sector) ==> some_frames_data(iso, state, 0, sector));
    assert(run.frames_end(sector) ==> some_frames_end(iso, state, 0, sector));
}

/// A sector that is neither a file's nor a directory's nor a path table's carries no mark.
pub proof fn other_sectors_carry_no_mark(
    iso: IsoModel,
    lengths: Seq<FileLengthModel>,
    layout: LayoutModel,
    sector: u32,
)
    requires
        layout_of(iso, lengths) == Ok::<LayoutModel, Failure>(layout),
        !is_referred_to(iso, sector),
        forall|f: int|
            0 <= f < layout.files.len() ==> !((#[trigger] layout.files[f]).extent <= sector
                < layout.files[f].extent + layout.files[f].blocks),
        ({
            let placed = places_of(iso, lengths);
            let tables = table_blocks(placed);
            &&& !lies_in_directory(placed.state.primary.placements, sector)
            &&& !lies_in_directory(placed.state.joliet.placements, sector)
            &&& !lies_in_table(placed.state.tables, tables.primary, sector)
            &&& !lies_in_table(placed.state.joliet_tables, tables.joliet, sector)
        }),
    ensures
        !layout.marks.data.contains(sector),
        !layout.marks.end_of_file.contains(sector),
        !layout.marks.metadata.contains(sector),
        !layout.marks.file_numbers.contains_key(sector),
        !layout.marks.framing.contains_key(sector),
{
    layout_is_made(iso, lengths, layout);
    let placed = places_of(iso, lengths);
    let state = placed.state;
    let tables = table_blocks(placed);
    let marks = marks_of_tables(iso, state, tables.primary, tables.joliet);
    tables_do_not_reach(iso, state, tables.primary, tables.joliet, sector);
    entries_are_framed(iso, state, marks, 0, sector);
    assert forall|i: int| 0 <= i < iso.entries.len() implies !(#[trigger] run_of(
        iso,
        state,
        i,
    )).has(sector) by {
        if iso.entries[i].extent is Some {
            run_of_reference(iso, state, i, sector);
            assert(!refers_to(iso.entries[i], sector));
        } else {
            let part = part_of_entry(iso, lengths, layout, i);
            match part {
                Part::File { index } => {
                    assert(layout.files[index].extent == run_of(iso, state, i).extent);
                },
                Part::Directory { volume, index } => {
                    assert(state.tree(MetadataVolume::Primary) == state.primary);
                    assert(state.primary.placements[index].extent == run_of(iso, state, i).extent);
                },
                _ => {},
            }
        }
    }
}

/// How the sectors of a path table of the primary tree are marked, where no entry refers to
/// them by a fixed extent: by the policy for path tables, and in an image with a Joliet tree
/// as metadata too.
pub proof fn marks_of_table_are_its_own(
    iso: IsoModel,
    lengths: Seq<FileLengthModel>,
    layout: LayoutModel,
    table: int,
    sector: u32,
)
    requires
        layout_of(iso, lengths) == Ok::<LayoutModel, Failure>(layout),
        !is_referred_to(iso, sector),
        0 <= table < places_of(iso, lengths).state.tables.len(),
        places_of(iso, lengths).state.tables[table] != 0,
        places_of(iso, lengths).state.tables[table] <= sector < places_of(
            iso,
            lengths,
        ).state.tables[table] + places_of(iso, lengths).table.blocks,
    ensures
        ({
            let placed = places_of(iso, lengths);
            let last = placed.state.tables[table] + placed.table.blocks - 1;
            let policy = iso.path_table_subheader;
            let marks = layout.marks;
            &&& marks.data.contains(sector) <==> policy == EntrySectorSubheader::Data || ((policy
                == EntrySectorSubheader::EndOfFileData || policy
                == EntrySectorSubheader::DataUntilFinal) && sector < last)
            &&& marks.end_of_file.contains(sector) <==> policy
                == EntrySectorSubheader::EndOfFileData && sector == last
            &&& marks.metadata.contains(sector) <==> iso.supplementary_volumes.len() > 0 || policy
                == EntrySectorSubheader::Canonical || policy == EntrySectorSubheader::IsoMetadata
                || (policy == EntrySectorSubheader::DataUntilFinal && sector == last)
            &&& !marks.file_numbers.contains_key(sector)
            &&& iso.path_table_framing_subheader matches Some(framing) ==> (marks.data.contains(
                sector,
            ) ==> marks.framing.contains_key(sector) && marks.framing[sector] == framing)
        }),
{
    layout_is_made(iso, lengths, layout);
    let placed = places_of(iso, lengths);
    let state = placed.state;
    let tables = table_blocks(placed);
    let none = SubheaderModel {
        data: Set::empty(),
        end_of_file: Set::empty(),
        metadata: Set::empty(),
        framing: Map::empty(),
        file_numbers: Map::empty(),
    };
    let marks = marks_of_tables(iso, state, tables.primary, tables.joliet);
    table_runs_are_alone(iso, lengths, layout, MetadataVolume::Primary, table, sector);
    assert(tables_of(state, MetadataVolume::Primary) == state.tables);
    table_is_framed(iso, none, state.tables, tables.primary, 0, table, sector);
    tables_are_framed(iso, none, state.tables, tables.primary, 0, sector);
    let framed = frame_tables_from(iso, none, state.tables, tables.primary, 0);
    let all = state.joliet_tables + state.tables;
    if iso.supplementary_volumes.len() > 0 {
        tables_are_marked(
            framed,
            all,
            state.joliet_tables,
            tables.primary,
            tables.joliet,
            0,
            sector,
        );
        let marked = mark_tables_from(
            framed,
            all,
            state.joliet_tables,
            tables.primary,
            tables.joliet,
            0,
        );
        assert(all[state.joliet_tables.len() + table] == state.tables[table]);
        primary_table_is_no_joliet_table(iso, lengths, layout, table);
        directories_are_marked(marked, state.joliet.placements, 0, sector);
    }
    entries_are_framed(iso, state, marks, 0, sector);
    assert(none_ends_at(iso, state, 0, sector));
}

/// The sectors of the path tables of the Joliet tree and of its directories are metadata.
pub proof fn joliet_sectors_are_metadata(
    iso: IsoModel,
    lengths: Seq<FileLengthModel>,
    layout: LayoutModel,
    sector: u32,
)
    requires
        layout_of(iso, lengths) == Ok::<LayoutModel, Failure>(layout),
        iso.supplementary_volumes.len() > 0,
        !is_referred_to(iso, sector),
        ({
            let placed = places_of(iso, lengths);
            ||| lies_in_table(
                placed.state.joliet_tables,
                table_blocks(placed).joliet,
                sector,
            )
            ||| lies_in_directory(placed.state.joliet.placements, sector)
        }),
    ensures
        layout.marks.metadata.contains(sector),
{
    layout_is_made(iso, lengths, layout);
    let placed = places_of(iso, lengths);
    let state = placed.state;
    let tables = table_blocks(placed);
    let none = SubheaderModel {
        data: Set::empty(),
        end_of_file: Set::empty(),
        metadata: Set::empty(),
        framing: Map::empty(),
        file_numbers: Map::empty(),
    };
    let marks = marks_of_tables(iso, state, tables.primary, tables.joliet);
    let framed = frame_tables_from(iso, none, state.tables, tables.primary, 0);
    let all = state.joliet_tables + state.tables;
    tables_are_marked(
        framed,
        all,
        state.joliet_tables,
        tables.primary,
        tables.joliet,
        0,
        sector,
    );
    let marked = mark_tables_from(
        framed,
        all,
        state.joliet_tables,
        tables.primary,
        tables.joliet,
        0,
    );
    directories_are_marked(marked, state.joliet.placements, 0, sector);
    if lies_in_table(state.joliet_tables, tables.joliet, sector) {
        let i = choose|i: int|
            0 <= i < state.joliet_tables.len() && #[trigger] state.joliet_tables[i] != 0
                && state.joliet_tables[i] <= sector < state.joliet_tables[i] + tables.joliet;
        assert(all[i] == state.joliet_tables[i]);
        assert(state.joliet_tables.contains(all[i]));
        table_runs_are_alone(iso, lengths, layout, MetadataVolume::Joliet, i, sector);
    } else {
        let i = choose|i: int|
            0 <= i < state.joliet.placements.len() && (#[trigger] state.joliet.placements[i]).extent
                <= sector < state.joliet.placements[i].extent + state.joliet.placements[i].blocks;
        if exists|j: int|
            0 <= j < iso.entries.len() && (#[trigger] run_of(iso, state, j)).has(sector) {
            let j = choose|j: int|
                0 <= j < iso.entries.len() && (#[trigger] run_of(iso, state, j)).has(sector);
            run_is_alone(iso, lengths, layout, j, sector);
            assert(false);
        }
    }
    entries_are_framed(iso, state, marks, 0, sector);
    assert(none_ends_at(iso, state, 0, sector));
}

/// A sector of a path table lies in no other table of its tree and in no run of an entry.
proof fn table_runs_are_alone(
    iso: IsoModel,
    lengths: Seq<FileLengthModel>,
    layout: LayoutModel,
    volume: MetadataVolume,
    table: int,
    sector: u32,
)
    requires
        layout_of(iso, lengths) == Ok::<LayoutModel, Failure>(layout),
        !is_referred_to(iso, sector),
        ({
            let placed = places_of(iso, lengths);
            let tables = tables_of(placed.state, volume);
            let blocks = if volume == MetadataVolume::Primary {
                table_blocks(placed).primary
            } else {
                table_blocks(placed).joliet
            };
            &&& 0 <= table < tables.len()
            &&& tables[table] != 0
            &&& tables[table] <= sector < tables[table] + blocks
        }),
    ensures
        ({
            let placed = places_of(iso, lengths);
            let tables = tables_of(placed.state, volume);
            let blocks = if volume == MetadataVolume::Primary {
                table_blocks(placed).primary
            } else {
                table_blocks(placed).joliet
            };
            &&& forall|i: int|
                0 <= i < tables.len() && i != table && #[trigger] tables[i] != 0 ==> !(tables[i]
                    <= sector < tables[i] + blocks)
            &&& forall|i: int|
                0 <= i < iso.entries.len() ==> !(#[trigger] run_of(iso, placed.state, i)).has(
                    sector,
                )
        }),
{
    let placed = places_of(iso, lengths);
    let state = placed.state;
    let sizes = table_blocks(placed);
    let tables = tables_of(state, volume);
    let blocks = if volume == MetadataVolume::Primary {
        sizes.primary
    } else {
        sizes.joliet
    };
    layout_is_made(iso, lengths, layout);
    assert(are_apart(state, sizes, descriptors_end(iso))) by {
        reveal(places_of);
        parts_are_apart(iso, lengths, placed);
    }
    let own = Part::Table { volume, index: table };
    assert(takes_blocks(state, sizes, own));
    assert forall|i: int| 0 <= i < tables.len() && i != table && #[trigger] tables[i]
        != 0 implies !(tables[i] <= sector < tables[i] + blocks) by {
        let other = Part::Table { volume, index: i };
        if tables[i] <= sector < tables[i] + blocks {
            assert(takes_blocks(state, sizes, other));
        }
    }
    assert forall|i: int| 0 <= i < iso.entries.len() implies !(#[trigger] run_of(
        iso,
        state,
        i,
    )).has(sector) by {
        if run_of(iso, state, i).has(sector) {
            run_is_alone(iso, lengths, layout, i, sector);
            assert(lies_in_table(tables, blocks, sector));
            assert(false);
        }
    }
}

proof fn primary_table_is_no_joliet_table(
    iso: IsoModel,
    lengths: Seq<FileLengthModel>,
    layout: LayoutModel,
    table: int,
)
    requires
        layout_of(iso, lengths) == Ok::<LayoutModel, Failure>(layout),
        0 <= table < places_of(iso, lengths).state.tables.len(),
        places_of(iso, lengths).state.tables[table] != 0,
        places_of(iso, lengths).table.blocks > 0,
        iso.supplementary_volumes.len() > 0,
    ensures
        !places_of(iso, lengths).state.joliet_tables.contains(
            places_of(iso, lengths).state.tables[table],
        ),
{
    let placed = places_of(iso, lengths);
    let state = placed.state;
    let sizes = table_blocks(placed);
    layout_is_made(iso, lengths, layout);
    assert(are_apart(state, sizes, descriptors_end(iso))) by {
        reveal(places_of);
        parts_are_apart(iso, lengths, placed);
    }
    assert(sizes.joliet > 0) by {
        reveal(places_of);
        assert(joliet_plan(iso) is Ok);
    }
    let own = Part::Table { volume: MetadataVolume::Primary, index: table };
    assert(takes_blocks(state, sizes, own));
    assert forall|i: int| 0 <= i < state.joliet_tables.len() implies state.joliet_tables[i]
        != state.tables[table] by {
        let other = Part::Table { volume: MetadataVolume::Joliet, index: i };
        if state.joliet_tables[i] == state.tables[table] {
            assert(takes_blocks(state, sizes, other));
        }
    }
}

} // verus!
