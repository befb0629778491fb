//! Giving every part of a filesystem its place in the image.
use vstd::prelude::*;

use crate::error::{failure, failure_of, Error, ErrorKind, Failure};
use crate::iso9660::description::{
    Entry, EntryModel, FileLayoutItem, GapItem, Iso9660, IsoModel, ItemModel, MetadataLayoutItem,
    MetadataPathTable,
};
use crate::iso9660::directory::{FileModel, FilePlacement};
use crate::iso9660::path_table::{
    directory_position, find_directory, DirectoryPlacement, PlacementModel,
};
use crate::iso9660::tree::well_placed;
use crate::iso9660::validate::{directory_before, failure_in, find_directory_before};
use crate::manifest::{GapKind, MetadataVolume};
use crate::model::{ceil_div, ceil_div_u64, views, views_push};
use crate::text::{is_root, last_index_of_is_last, parent_of, parent_path, root_path, same_text};
use crate::xa::XaSubheader;

verus! {

/// The size of a file's data.
#[derive(Debug)]
pub struct FileLength {
    pub path: String,
    pub length: u64,
}

/// The mathematical form of a [`FileLength`].
#[verifier::ext_equal]
pub struct FileLengthModel {
    pub path: Seq<char>,
    pub length: u64,
}

impl View for FileLength {
    type V = FileLengthModel;

    open spec fn view(&self) -> FileLengthModel {
        FileLengthModel { path: self.path@, length: self.length }
    }
}

/// The first length given for a path, from `index` on.
pub open spec fn length_from(lengths: Seq<FileLengthModel>, path: Seq<char>, index: int) -> Option<u64>
    decreases lengths.len() - index,
{
    if index < 0 || index >= lengths.len() {
        None
    } else if lengths[index].path == path {
        Some(lengths[index].length)
    } else {
        length_from(lengths, path, index + 1)
    }
}

fn find_length(lengths: &[FileLength], path: &str) -> (length: Option<u64>)
    ensures
        length == length_from(views(lengths@), path@, 0),
{
    let ghost model = views(lengths@);
    let mut i: usize = 0;
    while i < lengths.len()
        invariant
            i <= lengths.len(),
            model == views(lengths@),
            length_from(model, path@, 0) == length_from(model, path@, i as int),
        decreases lengths.len() - i,
    {
        assert(model[i as int] == lengths@[i as int]@);
        if same_text(lengths[i].path.as_str(), path) {
            return Some(lengths[i].length);
        }
        i = i + 1;
    }
    None
}

/// A gap and where it lies.
#[derive(Clone, Copy, Debug, PartialEq, Eq, Structural)]
pub struct GapPlacement {
    pub start: u32,
    pub sectors: u32,
    pub kind: GapKind,
    pub subheader: Option<XaSubheader>,
    pub form2_edc: Option<bool>,
}

/// An XA extent that no entry names, and where it lies.
#[derive(Debug)]
pub struct XaExtentPlacement {
    pub index: String,
    pub start: u32,
    pub sectors: u32,
}

/// The mathematical form of an [`XaExtentPlacement`].
#[verifier::ext_equal]
pub struct XaExtentModel {
    pub index: Seq<char>,
    pub start: u32,
    pub sectors: u32,
}

impl View for XaExtentPlacement {
    type V = XaExtentModel;

    open spec fn view(&self) -> XaExtentModel {
        XaExtentModel { index: self.index@, start: self.start, sectors: self.sectors }
    }
}

/// The directories of a tree, and which of them have a place.
pub struct Tree {
    pub placements: Vec<DirectoryPlacement>,
    pub placed: Vec<bool>,
}

/// The mathematical form of a [`Tree`].
#[verifier::ext_equal]
pub struct TreeModel {
    pub placements: Seq<PlacementModel>,
    pub placed: Seq<bool>,
}

impl View for Tree {
    type V = TreeModel;

    open spec fn view(&self) -> TreeModel {
        TreeModel { placements: views(self.placements@), placed: self.placed@ }
    }
}

impl TreeModel {
    /// Every directory has its mark, and names one of `count` entries.
    pub open spec fn shaped(self, count: int) -> bool {
        self.placements.len() == self.placed.len() && well_placed(self.placements, count)
    }
}

/// What has been placed so far.
pub struct Placing {
    pub next: u32,
    pub primary: Tree,
    pub joliet: Tree,
    /// Where the primary path tables lie: little-endian and its copy, then big-endian.
    pub tables: [u32; 4],
    pub joliet_tables: [u32; 4],
    pub files: Vec<FilePlacement>,
    pub xa_extents: Vec<XaExtentPlacement>,
    pub gaps: Vec<GapPlacement>,
    /// Gaps that wait for what follows them.
    pub pending: Vec<GapItem>,
    /// The gap that ends the image.
    pub trailing: Option<GapItem>,
}

/// The mathematical form of a [`Placing`].
#[verifier::ext_equal]
pub struct PlacingModel {
    pub next: u32,
    pub primary: TreeModel,
    pub joliet: TreeModel,
    pub tables: Seq<u32>,
    pub joliet_tables: Seq<u32>,
    pub files: Seq<FileModel>,
    pub xa_extents: Seq<XaExtentModel>,
    pub gaps: Seq<GapPlacement>,
    pub pending: Seq<GapItem>,
    pub trailing: Option<GapItem>,
}

impl View for Placing {
    type V = PlacingModel;

    open spec fn view(&self) -> PlacingModel {
        PlacingModel {
            next: self.next,
            primary: self.primary@,
            joliet: self.joliet@,
            tables: self.tables@,
            joliet_tables: self.joliet_tables@,
            files: views(self.files@),
            xa_extents: views(self.xa_extents@),
            gaps: self.gaps@,
            pending: self.pending@,
            trailing: self.trailing,
        }
    }
}

impl PlacingModel {
    /// One of the two trees.
    pub open spec fn tree(self, volume: MetadataVolume) -> TreeModel {
        if volume == MetadataVolume::Primary {
            self.primary
        } else {
            self.joliet
        }
    }

    /// The same with one tree replaced.
    pub open spec fn with_tree(self, volume: MetadataVolume, tree: TreeModel) -> PlacingModel {
        if volume == MetadataVolume::Primary {
            PlacingModel { primary: tree, ..self }
        } else {
            PlacingModel { joliet: tree, ..self }
        }
    }

    /// Both trees are in shape, and have their roots.
    pub open spec fn shaped(self, count: int, joliet_count: int) -> bool {
        &&& self.primary.shaped(count)
        &&& self.joliet.shaped(joliet_count)
        &&& self.primary.placements.len() > 0
        &&& joliet_count > 0 ==> self.joliet.placements.len() > 0
    }
}

/// The outcome of a step on what has been placed.
pub open spec fn stepped(
    result: Result<(), Error>,
    after: PlacingModel,
    expected: Result<PlacingModel, Failure>,
) -> bool {
    match (result, expected) {
        (Ok(_), Ok(state)) => after == state,
        (Err(error), Err(failure)) => error@ == failure,
        _ => false,
    }
}

/// The extent after one that starts at `next`.
pub open spec fn advance(next: u32, blocks: int, kind: ErrorKind) -> Result<u32, Failure> {
    if next + blocks > u32::MAX {
        Err(failure(kind))
    } else {
        Ok((next + blocks) as u32)
    }
}

fn advanced(next: u32, blocks: u32, kind: ErrorKind) -> (result: Result<u32, Error>)
    ensures
        match (result, advance(next, blocks as int, kind)) {
            (Ok(value), Ok(expected)) => value == expected,
            (Err(error), Err(failure)) => error@ == failure,
            _ => false,
        },
{
    match next.checked_add(blocks) {
        Some(value) => Ok(value),
        None => Err(Error::new(kind)),
    }
}

/// A directory put at the next free extent.
pub open spec fn place_directory(
    state: PlacingModel,
    volume: MetadataVolume,
    index: int,
    overflow: ErrorKind,
) -> Result<PlacingModel, Failure> {
    let tree = state.tree(volume);
    let directory = tree.placements[index];
    match advance(state.next, directory.blocks as int, overflow) {
        Err(failure) => Err(failure),
        Ok(next) => Ok(
            PlacingModel { next, ..state }.with_tree(
                volume,
                TreeModel {
                    placements: tree.placements.update(
                        index,
                        PlacementModel { extent: state.next, ..directory },
                    ),
                    placed: tree.placed.update(index, true),
                },
            ),
        ),
    }
}

fn put_directory(tree: &mut Tree, index: usize, extent: u32)
    requires
        index < old(tree).placements.len(),
        index < old(tree).placed.len(),
    ensures
        final(tree)@.placements == old(tree)@.placements.update(
            index as int,
            PlacementModel { extent, ..old(tree)@.placements[index as int] },
        ),
        final(tree)@.placed == old(tree)@.placed.update(index as int, true),
{
    let ghost before = views(tree.placements@);
    assert(before[index as int] == tree.placements@[index as int]@);
    tree.placements[index].extent = extent;
    tree.placed.set(index, true);
    assert(views(tree.placements@) =~= before.update(
        index as int,
        PlacementModel { extent, ..before[index as int] },
    ));
}

impl Placing {
    pub(crate) fn place(
        &mut self,
        volume: MetadataVolume,
        index: usize,
        overflow: ErrorKind,
        count: Ghost<int>,
        joliet_count: Ghost<int>,
    ) -> (result: Result<(), Error>)
        requires
            old(self)@.shaped(count@, joliet_count@),
            index < old(self)@.tree(volume).placements.len(),
        ensures
            stepped(
                result,
                final(self)@,
                place_directory(old(self)@, volume, index as int, overflow),
            ),
            result is Ok ==> final(self)@.shaped(count@, joliet_count@),
    {
        let start: u32 = self.next;
        let blocks: u32 = if volume == MetadataVolume::Primary {
            self.primary.placements[index].blocks
        } else {
            self.joliet.placements[index].blocks
        };
        assert(blocks == self@.tree(volume).placements[index as int].blocks);
        match advanced(start, blocks, overflow) {
            Err(error) => Err(error),
            Ok(next) => {
                self.next = next;
                if volume == MetadataVolume::Primary {
                    put_directory(&mut self.primary, index, start);
                } else {
                    put_directory(&mut self.joliet, index, start);
                }
                proof {
                    let expected = place_directory(old(self)@, volume, index as int, overflow);
                    assert(self@ =~= expected->Ok_0);
                    let before = old(self)@.tree(volume).placements;
                    let after = self@.tree(volume).placements;
                    assert forall|i: int| 0 <= i < after.len() implies (#[trigger] after[i]).entry
                        == before[i].entry && after[i].parent == before[i].parent by {}
                    let n = if volume == MetadataVolume::Primary {
                        count@
                    } else {
                        joliet_count@
                    };
                    assert(well_placed(after, n)) by {
                        assert forall|i: int| 0 <= i < after.len() implies 0 <= (
                        #[trigger] after[i]).entry < n && 0 <= after[i].parent < after.len() by {
                            assert(0 <= before[i].entry < n && 0 <= before[i].parent < before.len());
                        }
                    }
                }
                Ok(())
            },
        }
    }
}

/// The file area places the directory itself.
pub open spec fn is_explicit(iso: IsoModel, volume: MetadataVolume, path: Seq<char>) -> bool {
    directory_before(iso.files, iso.files.len() as int, volume, path)
}

/// A directory put at the next free extent, unless it has a place or is given one
/// later.
pub open spec fn place_if_free(
    iso: IsoModel,
    state: PlacingModel,
    volume: MetadataVolume,
    index: int,
) -> Result<PlacingModel, Failure> {
    let tree = state.tree(volume);
    if !tree.placed[index] && !is_explicit(iso, volume, tree.placements[index].path) {
        place_directory(state, volume, index, ErrorKind::PlacementOverflow)
    } else {
        Ok(state)
    }
}

/// The directories that hold a path, put at the next free extents, the outermost
/// first.
pub open spec fn place_ancestors(
    iso: IsoModel,
    state: PlacingModel,
    volume: MetadataVolume,
    path: Seq<char>,
) -> Result<PlacingModel, Failure>
    decreases path.len(),
{
    let parent = parent_of(path);
    if parent == root_path() || parent.len() >= path.len() {
        Ok(state)
    } else {
        match place_ancestors(iso, state, volume, parent) {
            Err(failure) => Err(failure),
            Ok(state) => {
                let index = find_directory(state.tree(volume).placements, parent);
                if index >= state.tree(volume).placements.len() {
                    Err(failure_in(ErrorKind::DirectoryNotPlaced, volume, parent))
                } else {
                    place_if_free(iso, state, volume, index)
                }
            },
        }
    }
}

/// Only the root holds a path that is no longer than itself.
pub proof fn parent_is_shorter(path: Seq<char>)
    ensures
        parent_of(path) == root_path() || parent_of(path).len() < path.len(),
{
    last_index_of_is_last(path, '/');
}

/// `state`, and then the waiting gaps from `index` on.
pub open spec fn flush_from(state: PlacingModel, index: int) -> Result<PlacingModel, Failure>
    decreases state.pending.len() - index,
{
    if index < 0 || index >= state.pending.len() {
        Ok(PlacingModel { pending: Seq::empty(), ..state })
    } else {
        let gap = state.pending[index];
        match advance(state.next, gap.sectors as int, ErrorKind::GapOverflow) {
            Err(failure) => Err(failure),
            Ok(next) => flush_from(
                PlacingModel {
                    next,
                    gaps: state.gaps.push(
                        GapPlacement {
                            start: state.next,
                            sectors: gap.sectors,
                            kind: gap.kind,
                            subheader: gap.subheader,
                            form2_edc: gap.form2_edc,
                        },
                    ),
                    ..state
                },
                index + 1,
            ),
        }
    }
}

/// The waiting gaps, put at the next free extents.
pub open spec fn flush(state: PlacingModel) -> Result<PlacingModel, Failure> {
    flush_from(state, 0)
}

impl Placing {
    /// Places the waiting gaps.
    pub(crate) fn flush_pending(&mut self) -> (result: Result<(), Error>)
        ensures
            stepped(result, final(self)@, flush(old(self)@)),
            final(self)@.primary == old(self)@.primary,
            final(self)@.joliet == old(self)@.joliet,
    {
        let ghost start = self@;
        let mut i: usize = 0;
        while i < self.pending.len()
            invariant
                start == old(self)@,
                i <= self.pending.len(),
                flush(start) == flush_from(self@, i as int),
                self@.primary == start.primary,
                self@.joliet == start.joliet,
            decreases self.pending.len() - i,
        {
            let gap: GapItem = self.pending[i];
            let ghost before = self@;
            match advanced(self.next, gap.sectors, ErrorKind::GapOverflow) {
                Err(error) => return Err(error),
                Ok(next) => {
                    self.gaps.push(
                        GapPlacement {
                            start: self.next,
                            sectors: gap.sectors,
                            kind: gap.kind,
                            subheader: gap.subheader,
                            form2_edc: gap.form2_edc,
                        },
                    );
                    self.next = next;
                },
            }
            proof {
                let expected = PlacingModel {
                    next: self.next,
                    gaps: self.gaps@,
                    ..before
                };
                assert(self@ =~= expected);
            }
            i = i + 1;
        }
        let ghost last = self@;
        self.pending = Vec::new();
        proof {
            assert(self@ =~= PlacingModel { pending: Seq::empty(), ..last });
        }
        Ok(())
    }

    /// Places the directories that hold a path.
    pub(crate) fn place_parents(
        &mut self,
        iso: &Iso9660,
        volume: MetadataVolume,
        path: &str,
        count: Ghost<int>,
        joliet_count: Ghost<int>,
    ) -> (result: Result<(), Error>)
        requires
            old(self)@.shaped(count@, joliet_count@),
        ensures
            stepped(result, final(self)@, place_ancestors(iso@, old(self)@, volume, path@)),
            result is Ok ==> final(self)@.shaped(count@, joliet_count@),
        decreases path@.len(),
    {
        let parent: String = parent_path(path);
        proof {
            parent_is_shorter(path@);
        }
        if is_root(parent.as_str()) {
            return Ok(());
        }
        match self.place_parents(iso, volume, parent.as_str(), count, joliet_count) {
            Err(error) => return Err(error),
            Ok(_) => {},
        }
        let index: usize = if volume == MetadataVolume::Primary {
            directory_position(&self.primary.placements, parent.as_str())
        } else {
            directory_position(&self.joliet.placements, parent.as_str())
        };
        let ghost tree = self@.tree(volume);
        let size: usize = if volume == MetadataVolume::Primary {
            self.primary.placements.len()
        } else {
            self.joliet.placements.len()
        };
        if index >= size {
            return Err(error_for(ErrorKind::DirectoryNotPlaced, volume, parent.as_str()));
        }
        let placed: bool = if volume == MetadataVolume::Primary {
            self.primary.placed[index]
        } else {
            self.joliet.placed[index]
        };
        let explicit: bool = if volume == MetadataVolume::Primary {
            find_directory_before(
                &iso.files,
                iso.files.len(),
                volume,
                self.primary.placements[index].path.as_str(),
            )
        } else {
            find_directory_before(
                &iso.files,
                iso.files.len(),
                volume,
                self.joliet.placements[index].path.as_str(),
            )
        };
        if !placed && !explicit {
            return self.place(volume, index, ErrorKind::PlacementOverflow, count, joliet_count);
        }
        Ok(())
    }
}

fn error_for(kind: ErrorKind, volume: MetadataVolume, path: &str) -> (error: Error)
    ensures
        error@ == failure_in(kind, volume, path@),
{
    Error {
        kind,
        subject: path.to_owned(),
        number: if volume == MetadataVolume::Primary {
            0
        } else {
            1
        },
        cause: None,
    }
}

/// A directory put where an item of the file area says.
pub open spec fn place_item_directory(
    iso: IsoModel,
    state: PlacingModel,
    volume: MetadataVolume,
    path: Seq<char>,
) -> Result<PlacingModel, Failure> {
    match place_ancestors(iso, state, volume, path) {
        Err(failure) => Err(failure),
        Ok(state) => match flush(state) {
            Err(failure) => Err(failure),
            Ok(state) => {
                let tree = state.tree(volume);
                let index = find_directory(tree.placements, path);
                if index >= tree.placements.len() {
                    Err(failure_in(ErrorKind::DirectoryNotPlaced, volume, path))
                } else if tree.placed[index] {
                    Err(failure_in(ErrorKind::DirectoryPlacedTwice, volume, path))
                } else {
                    place_directory(state, volume, index, ErrorKind::PlacementOverflow)
                }
            },
        },
    }
}

/// An XA extent put at the next free extent.
pub open spec fn place_item_extent(
    lengths: Seq<FileLengthModel>,
    state: PlacingModel,
    name: Seq<char>,
) -> Result<PlacingModel, Failure> {
    match flush(state) {
        Err(failure) => Err(failure),
        Ok(state) => match length_from(lengths, name, 0) {
            None => Err(failure_of(ErrorKind::ExtentData, name)),
            Some(length) => if length == 0 || length % 2048 != 0 {
                Err(failure(ErrorKind::ExtentSectors))
            } else if length / 2048 > u32::MAX {
                Err(failure(ErrorKind::IntegerConversion))
            } else {
                let sectors = (length / 2048) as u32;
                match advance(state.next, sectors as int, ErrorKind::ExtentOverflow) {
                    Err(failure) => Err(failure),
                    Ok(next) => Ok(
                        PlacingModel {
                            next,
                            xa_extents: state.xa_extents.push(
                                XaExtentModel { index: name, start: state.next, sectors },
                            ),
                            ..state
                        },
                    ),
                }
            },
        },
    }
}

/// A file put at the next free extent.
pub open spec fn place_item_file(
    iso: IsoModel,
    lengths: Seq<FileLengthModel>,
    state: PlacingModel,
    path: Seq<char>,
) -> Result<PlacingModel, Failure> {
    match place_ancestors(iso, state, MetadataVolume::Primary, path) {
        Err(failure) => Err(failure),
        Ok(state) => match flush(state) {
            Err(failure) => Err(failure),
            Ok(state) => match length_from(lengths, path, 0) {
                None => Err(failure_of(ErrorKind::FileData, path)),
                Some(length) => {
                    let blocks = ceil_div(length as int, 2048);
                    if blocks > u32::MAX {
                        Err(failure(ErrorKind::IntegerConversion))
                    } else {
                        match advance(state.next, blocks, ErrorKind::PlacementOverflow) {
                            Err(failure) => Err(failure),
                            Ok(next) => Ok(
                                PlacingModel {
                                    next,
                                    files: state.files.push(
                                        FileModel {
                                            path,
                                            extent: state.next,
                                            length,
                                            blocks: blocks as u32,
                                        },
                                    ),
                                    ..state
                                },
                            ),
                        }
                    }
                },
            },
        },
    }
}

/// What has been placed once an item of the file area is.
pub open spec fn place_item(
    iso: IsoModel,
    lengths: Seq<FileLengthModel>,
    state: PlacingModel,
    item: ItemModel,
) -> Result<PlacingModel, Failure> {
    match item {
        ItemModel::Directory { volume, path } => place_item_directory(iso, state, volume, path),
        ItemModel::XaExtent { assets } => place_item_extent(lengths, state, assets.index),
        ItemModel::Path { path } => place_item_file(iso, lengths, state, path),
        ItemModel::Gap { gap } => if gap.kind == GapKind::Xa || gap.kind == GapKind::RawZero {
            Ok(PlacingModel { trailing: Some(gap), ..state })
        } else {
            Ok(PlacingModel { pending: state.pending.push(gap), ..state })
        },
    }
}

/// `state`, and then the items of the file area from `index` on.
pub open spec fn place_items_from(
    iso: IsoModel,
    lengths: Seq<FileLengthModel>,
    state: PlacingModel,
    index: int,
) -> Result<PlacingModel, Failure>
    decreases iso.files.len() - index,
{
    if index < 0 || index >= iso.files.len() {
        Ok(state)
    } else {
        match place_item(iso, lengths, state, iso.files[index]) {
            Err(failure) => Err(failure),
            Ok(state) => place_items_from(iso, lengths, state, index + 1),
        }
    }
}

impl Placing {
    fn place_one_directory(
        &mut self,
        iso: &Iso9660,
        volume: MetadataVolume,
        path: &str,
        count: Ghost<int>,
        joliet_count: Ghost<int>,
    ) -> (result: Result<(), Error>)
        requires
            old(self)@.shaped(count@, joliet_count@),
        ensures
            stepped(result, final(self)@, place_item_directory(iso@, old(self)@, volume, path@)),
            result is Ok ==> final(self)@.shaped(count@, joliet_count@),
    {
        match self.place_parents(iso, volume, path, count, joliet_count) {
            Err(error) => return Err(error),
            Ok(_) => {},
        }
        match self.flush_pending() {
            Err(error) => return Err(error),
            Ok(_) => {},
        }
        let index: usize = if volume == MetadataVolume::Primary {
            directory_position(&self.primary.placements, path)
        } else {
            directory_position(&self.joliet.placements, path)
        };
        let size: usize = if volume == MetadataVolume::Primary {
            self.primary.placements.len()
        } else {
            self.joliet.placements.len()
        };
        if index >= size {
            return Err(error_for(ErrorKind::DirectoryNotPlaced, volume, path));
        }
        let placed: bool = if volume == MetadataVolume::Primary {
            self.primary.placed[index]
        } else {
            self.joliet.placed[index]
        };
        if placed {
            return Err(error_for(ErrorKind::DirectoryPlacedTwice, volume, path));
        }
        self.place(volume, index, ErrorKind::PlacementOverflow, count, joliet_count)
    }

    fn place_one_extent(&mut self, lengths: &[FileLength], name: &str) -> (result: Result<(), Error>)
        ensures
            stepped(result, final(self)@, place_item_extent(views(lengths@), old(self)@, name@)),
            result is Ok ==> final(self)@.primary == old(self)@.primary && final(self)@.joliet
                == old(self)@.joliet,
    {
        match self.flush_pending() {
            Err(error) => return Err(error),
            Ok(_) => {},
        }
        let length: u64 = match find_length(lengths, name) {
            Some(length) => length,
            None => return Err(Error::of(ErrorKind::ExtentData, name)),
        };
        if length == 0 || length % 2048 != 0 {
            return Err(Error::new(ErrorKind::ExtentSectors));
        }
        if length / 2048 > 0xffff_ffff {
            return Err(Error::new(ErrorKind::IntegerConversion));
        }
        let sectors: u32 = (length / 2048) as u32;
        match advanced(self.next, sectors, ErrorKind::ExtentOverflow) {
            Err(error) => Err(error),
            Ok(next) => {
                let ghost before = self@;
                let extent = XaExtentPlacement { index: name.to_owned(), start: self.next, sectors };
                proof {
                    views_push(self.xa_extents@, extent);
                }
                self.xa_extents.push(extent);
                self.next = next;
                proof {
                    assert(extent@ =~= XaExtentModel { index: name@, start: before.next, sectors });
                    assert(self@ =~= PlacingModel {
                        next,
                        xa_extents: before.xa_extents.push(extent@),
                        ..before
                    });
                }
                Ok(())
            },
        }
    }

    fn place_one_file(
        &mut self,
        iso: &Iso9660,
        lengths: &[FileLength],
        path: &str,
        count: Ghost<int>,
        joliet_count: Ghost<int>,
    ) -> (result: Result<(), Error>)
        requires
            old(self)@.shaped(count@, joliet_count@),
        ensures
            stepped(
                result,
                final(self)@,
                place_item_file(iso@, views(lengths@), old(self)@, path@),
            ),
            result is Ok ==> final(self)@.shaped(count@, joliet_count@),
    {
        match self.place_parents(iso, MetadataVolume::Primary, path, count, joliet_count) {
            Err(error) => return Err(error),
            Ok(_) => {},
        }
        match self.flush_pending() {
            Err(error) => return Err(error),
            Ok(_) => {},
        }
        let length: u64 = match find_length(lengths, path) {
            Some(length) => length,
            None => return Err(Error::of(ErrorKind::FileData, path)),
        };
        let blocks: u64 = ceil_div_u64(length, 2048);
        if blocks > 0xffff_ffff {
            return Err(Error::new(ErrorKind::IntegerConversion));
        }
        match advanced(self.next, blocks as u32, ErrorKind::PlacementOverflow) {
            Err(error) => Err(error),
            Ok(next) => {
                let ghost before = self@;
                let file = FilePlacement {
                    path: path.to_owned(),
                    extent: self.next,
                    length,
                    blocks: blocks as u32,
                };
                proof {
                    views_push(self.files@, file);
                }
                self.files.push(file);
                self.next = next;
                proof {
                    assert(file@ =~= FileModel {
                        path: path@,
                        extent: before.next,
                        length,
                        blocks: blocks as u32,
                    });
                    assert(self@ =~= PlacingModel {
                        next,
                        files: before.files.push(file@),
                        ..before
                    });
                }
                Ok(())
            },
        }
    }

    fn place_one_item(
        &mut self,
        iso: &Iso9660,
        lengths: &[FileLength],
        item: &FileLayoutItem,
        count: Ghost<int>,
        joliet_count: Ghost<int>,
    ) -> (result: Result<(), Error>)
        requires
            old(self)@.shaped(count@, joliet_count@),
        ensures
            stepped(result, final(self)@, place_item(iso@, views(lengths@), old(self)@, item@)),
            result is Ok ==> final(self)@.shaped(count@, joliet_count@),
    {
        match item {
            FileLayoutItem::Directory { volume, path } => self.place_one_directory(
                iso,
                *volume,
                path.as_str(),
                count,
                joliet_count,
            ),
            FileLayoutItem::XaExtent { assets } => self.place_one_extent(
                lengths,
                assets.index.as_str(),
            ),
            FileLayoutItem::Path { path } => self.place_one_file(
                iso,
                lengths,
                path.as_str(),
                count,
                joliet_count,
            ),
            FileLayoutItem::Gap { gap } => {
                let ghost before = self@;
                if gap.kind == GapKind::Xa || gap.kind == GapKind::RawZero {
                    self.trailing = Some(*gap);
                    assert(self@ =~= PlacingModel { trailing: Some(*gap), ..before });
                } else {
                    self.pending.push(*gap);
                    assert(self@ =~= PlacingModel { pending: before.pending.push(*gap), ..before });
                }
                Ok(())
            },
        }
    }

    /// Places the file area.
    pub(crate) fn place_items(
        &mut self,
        iso: &Iso9660,
        lengths: &[FileLength],
        count: Ghost<int>,
        joliet_count: Ghost<int>,
    ) -> (result: Result<(), Error>)
        requires
            old(self)@.shaped(count@, joliet_count@),
        ensures
            stepped(
                result,
                final(self)@,
                place_items_from(iso@, views(lengths@), old(self)@, 0),
            ),
            result is Ok ==> final(self)@.shaped(count@, joliet_count@),
    {
        let ghost start = self@;
        let ghost model = views(lengths@);
        let mut i: usize = 0;
        while i < iso.files.len()
            invariant
                start == old(self)@,
                i <= iso.files.len(),
                model == views(lengths@),
                self@.shaped(count@, joliet_count@),
                place_items_from(iso@, model, start, 0) == place_items_from(
                    iso@,
                    model,
                    self@,
                    i as int,
                ),
            decreases iso.files.len() - i,
        {
            assert(iso@.files[i as int] == iso.files@[i as int]@);
            match self.place_one_item(iso, lengths, &iso.files[i], count, joliet_count) {
                Err(error) => return Err(error),
                Ok(_) => {},
            }
            i = i + 1;
        }
        Ok(())
    }
}

/// The directory holds the path, directly or not.
pub open spec fn is_ancestor(directory: Seq<char>, path: Seq<char>) -> bool
    decreases path.len(),
{
    let parent = parent_of(path);
    if parent == root_path() || parent.len() >= path.len() {
        false
    } else {
        parent == directory || is_ancestor(directory, parent)
    }
}

fn holds_path(directory: &str, path: &str) -> (found: bool)
    ensures
        found == is_ancestor(directory@, path@),
    decreases path@.len(),
{
    let parent: String = parent_path(path);
    proof {
        parent_is_shorter(path@);
    }
    if is_root(parent.as_str()) {
        return false;
    }
    same_text(parent.as_str(), directory) || holds_path(directory, parent.as_str())
}

/// The directory holds an entry with a fixed extent.
pub open spec fn holds_reference(entries: Seq<EntryModel>, directory: Seq<char>) -> bool {
    exists|i: int|
        0 <= i < entries.len() && (#[trigger] entries[i]).extent is Some && is_ancestor(
            directory,
            entries[i].path,
        )
}

fn finds_reference(entries: &Vec<Entry>, directory: &str) -> (found: bool)
    ensures
        found == holds_reference(views(entries@), directory@),
{
    let ghost model = views(entries@);
    let mut i: usize = 0;
    while i < entries.len()
        invariant
            i <= entries.len(),
            model == views(entries@),
            forall|j: int|
                0 <= j < i ==> !((#[trigger] model[j]).extent is Some && is_ancestor(
                    directory@,
                    model[j].path,
                )),
        decreases entries.len() - i,
    {
        assert(model[i as int] == entries@[i as int]@);
        if entries[i].extent.is_some() && holds_path(directory, entries[i].path.as_str()) {
            return true;
        }
        i = i + 1;
    }
    false
}

/// `state`, and then the directories from `index` on that hold an entry with a
/// fixed extent.
pub open spec fn place_reference_parents_from(iso: IsoModel, state: PlacingModel, index: int) -> Result<
    PlacingModel,
    Failure,
>
    decreases state.primary.placements.len() - index,
{
    let directories = state.primary.placements;
    if index < 0 || index >= directories.len() {
        Ok(state)
    } else if holds_reference(iso.entries, directories[index].path) {
        match place_if_free(iso, state, MetadataVolume::Primary, index) {
            Err(failure) => Err(failure),
            Ok(after) => if after.primary.placements.len() != directories.len() {
                Ok(after)
            } else {
                place_reference_parents_from(iso, after, index + 1)
            },
        }
    } else {
        place_reference_parents_from(iso, state, index + 1)
    }
}

/// `state`, and then the directories from `index` on that have no place.
pub open spec fn place_rest_from(state: PlacingModel, index: int) -> Result<PlacingModel, Failure>
    decreases state.primary.placements.len() - index,
{
    let directories = state.primary.placements;
    if index < 0 || index >= directories.len() {
        Ok(state)
    } else if !state.primary.placed[index] {
        match place_directory(state, MetadataVolume::Primary, index, ErrorKind::PlacementOverflow) {
            Err(failure) => Err(failure),
            Ok(after) => if after.primary.placements.len() != directories.len() {
                Ok(after)
            } else {
                place_rest_from(after, index + 1)
            },
        }
    } else {
        place_rest_from(state, index + 1)
    }
}

impl Placing {
    /// Places the directories that hold entries with fixed extents.
    pub(crate) fn place_reference_parents(
        &mut self,
        iso: &Iso9660,
        count: Ghost<int>,
        joliet_count: Ghost<int>,
    ) -> (result: Result<(), Error>)
        requires
            old(self)@.shaped(count@, joliet_count@),
        ensures
            stepped(result, final(self)@, place_reference_parents_from(iso@, old(self)@, 1)),
            result is Ok ==> final(self)@.shaped(count@, joliet_count@),
    {
        let ghost start = self@;
        let size: usize = self.primary.placements.len();
        let mut i: usize = 1;
        while i < size
            invariant
                start == old(self)@,
                1 <= i,
                size == self@.primary.placements.len(),
                i <= size || size == 0,
                self@.shaped(count@, joliet_count@),
                place_reference_parents_from(iso@, start, 1) == place_reference_parents_from(
                    iso@,
                    self@,
                    i as int,
                ),
            decreases size - i,
        {
            assert(self@.primary.placements[i as int] == self.primary.placements@[i as int]@);
            if !self.primary.placed[i] && finds_reference(
                &iso.entries,
                self.primary.placements[i].path.as_str(),
            ) && !find_directory_before(
                &iso.files,
                iso.files.len(),
                MetadataVolume::Primary,
                self.primary.placements[i].path.as_str(),
            ) {
                match self.place(
                    MetadataVolume::Primary,
                    i,
                    ErrorKind::PlacementOverflow,
                    count,
                    joliet_count,
                ) {
                    Err(error) => return Err(error),
                    Ok(_) => {},
                }
            }
            i = i + 1;
        }
        Ok(())
    }

    /// Places the directories that have no place yet.
    pub(crate) fn place_rest(&mut self, count: Ghost<int>, joliet_count: Ghost<int>) -> (result: Result<
        (),
        Error,
    >)
        requires
            old(self)@.shaped(count@, joliet_count@),
        ensures
            stepped(result, final(self)@, place_rest_from(old(self)@, 0)),
            result is Ok ==> final(self)@.shaped(count@, joliet_count@),
    {
        let ghost start = self@;
        let size: usize = self.primary.placements.len();
        let mut i: usize = 0;
        while i < size
            invariant
                start == old(self)@,
                i <= size,
                size == self@.primary.placements.len(),
                self@.shaped(count@, joliet_count@),
                place_rest_from(start, 0) == place_rest_from(self@, i as int),
            decreases size - i,
        {
            if !self.primary.placed[i] {
                match self.place(
                    MetadataVolume::Primary,
                    i,
                    ErrorKind::PlacementOverflow,
                    count,
                    joliet_count,
                ) {
                    Err(error) => return Err(error),
                    Ok(_) => {},
                }
            }
            i = i + 1;
        }
        Ok(())
    }
}

/// `state`, and then all directories of a tree from `index` on that wait for a
/// place; the Joliet tree is placed as a whole.
pub open spec fn place_group_from(state: PlacingModel, volume: MetadataVolume, index: int) -> Result<
    PlacingModel,
    Failure,
>
    decreases state.tree(volume).placements.len() - index,
{
    let tree = state.tree(volume);
    if index < 0 || index >= tree.placements.len() {
        Ok(state)
    } else if volume == MetadataVolume::Joliet || !tree.placed[index] {
        match place_directory(state, volume, index, ErrorKind::MetadataDirectoryOverflow) {
            Err(failure) => Err(failure),
            Ok(after) => if after.tree(volume).placements.len() != tree.placements.len() {
                Ok(after)
            } else {
                place_group_from(after, volume, index + 1)
            },
        }
    } else {
        place_group_from(state, volume, index + 1)
    }
}

/// A path table put at the next free extent.
pub open spec fn place_table(
    state: PlacingModel,
    table: MetadataPathTable,
    blocks: u32,
    joliet_blocks: u32,
) -> Result<PlacingModel, Failure> {
    let primary = table == MetadataPathTable::PrimaryLittle || table == MetadataPathTable::PrimaryBig;
    let index = if table == MetadataPathTable::PrimaryLittle || table
        == MetadataPathTable::JolietLittle {
        0int
    } else {
        2
    };
    match advance(
        state.next,
        (if primary {
            blocks
        } else {
            joliet_blocks
        }) as int,
        ErrorKind::MetadataTableOverflow,
    ) {
        Err(failure) => Err(failure),
        Ok(next) => Ok(
            if primary {
                PlacingModel { next, tables: state.tables.update(index, state.next), ..state }
            } else {
                PlacingModel {
                    next,
                    joliet_tables: state.joliet_tables.update(index, state.next),
                    ..state
                }
            },
        ),
    }
}

/// What has been placed once an item of the metadata area is.
pub open spec fn place_metadata_item(
    state: PlacingModel,
    item: MetadataLayoutItem,
    blocks: u32,
    joliet_blocks: u32,
) -> Result<PlacingModel, Failure> {
    match item {
        MetadataLayoutItem::PathTable(table) => place_table(state, table, blocks, joliet_blocks),
        MetadataLayoutItem::Directories(volume) => place_group_from(state, volume, 0),
        MetadataLayoutItem::Gap { gap, kind } => match advance(
            state.next,
            gap as int,
            ErrorKind::MetadataGapOverflow,
        ) {
            Err(failure) => Err(failure),
            Ok(next) => Ok(
                PlacingModel {
                    next,
                    gaps: state.gaps.push(
                        GapPlacement {
                            start: state.next,
                            sectors: gap,
                            kind,
                            subheader: None,
                            form2_edc: None,
                        },
                    ),
                    ..state
                },
            ),
        },
    }
}

/// `state`, and then the items of the metadata area from `index` on.
pub open spec fn place_metadata_from(
    items: Seq<MetadataLayoutItem>,
    state: PlacingModel,
    blocks: u32,
    joliet_blocks: u32,
    index: int,
) -> Result<PlacingModel, Failure>
    decreases items.len() - index,
{
    if index < 0 || index >= items.len() {
        Ok(state)
    } else {
        match place_metadata_item(state, items[index], blocks, joliet_blocks) {
            Err(failure) => Err(failure),
            Ok(state) => place_metadata_from(items, state, blocks, joliet_blocks, index + 1),
        }
    }
}

impl Placing {
    fn place_group(
        &mut self,
        volume: MetadataVolume,
        count: Ghost<int>,
        joliet_count: Ghost<int>,
    ) -> (result: Result<(), Error>)
        requires
            old(self)@.shaped(count@, joliet_count@),
        ensures
            stepped(result, final(self)@, place_group_from(old(self)@, volume, 0)),
            result is Ok ==> final(self)@.shaped(count@, joliet_count@),
    {
        let ghost start = self@;
        let size: usize = if volume == MetadataVolume::Primary {
            self.primary.placements.len()
        } else {
            self.joliet.placements.len()
        };
        let mut i: usize = 0;
        while i < size
            invariant
                start == old(self)@,
                i <= size,
                size == self@.tree(volume).placements.len(),
                self@.shaped(count@, joliet_count@),
                place_group_from(start, volume, 0) == place_group_from(self@, volume, i as int),
            decreases size - i,
        {
            if volume == MetadataVolume::Joliet || !self.primary.placed[i] {
                match self.place(volume, i, ErrorKind::MetadataDirectoryOverflow, count, joliet_count) {
                    Err(error) => return Err(error),
                    Ok(_) => {},
                }
            }
            i = i + 1;
        }
        Ok(())
    }

    fn place_one_table(&mut self, table: MetadataPathTable, blocks: u32, joliet_blocks: u32) -> (result: Result<
        (),
        Error,
    >)
        ensures
            stepped(result, final(self)@, place_table(old(self)@, table, blocks, joliet_blocks)),
            final(self)@.primary == old(self)@.primary,
            final(self)@.joliet == old(self)@.joliet,
    {
        let ghost before = self@;
        let primary: bool = table == MetadataPathTable::PrimaryLittle || table
            == MetadataPathTable::PrimaryBig;
        let index: usize = if table == MetadataPathTable::PrimaryLittle || table
            == MetadataPathTable::JolietLittle {
            0
        } else {
            2
        };
        let start: u32 = self.next;
        match advanced(
            start,
            if primary {
                blocks
            } else {
                joliet_blocks
            },
            ErrorKind::MetadataTableOverflow,
        ) {
            Err(error) => Err(error),
            Ok(next) => {
                self.next = next;
                if primary {
                    self.tables[index] = start;
                } else {
                    self.joliet_tables[index] = start;
                }
                proof {
                    assert(self@ =~= place_table(before, table, blocks, joliet_blocks)->Ok_0);
                }
                Ok(())
            },
        }
    }

    /// Places the metadata area.
    pub(crate) fn place_metadata(
        &mut self,
        items: &Vec<MetadataLayoutItem>,
        blocks: u32,
        joliet_blocks: u32,
        count: Ghost<int>,
        joliet_count: Ghost<int>,
    ) -> (result: Result<(), Error>)
        requires
            old(self)@.shaped(count@, joliet_count@),
        ensures
            stepped(
                result,
                final(self)@,
                place_metadata_from(items@, old(self)@, blocks, joliet_blocks, 0),
            ),
            result is Ok ==> final(self)@.shaped(count@, joliet_count@),
    {
        let ghost start = self@;
        let mut i: usize = 0;
        while i < items.len()
            invariant
                start == old(self)@,
                i <= items.len(),
                self@.shaped(count@, joliet_count@),
                place_metadata_from(items@, start, blocks, joliet_blocks, 0)
                    == place_metadata_from(items@, self@, blocks, joliet_blocks, i as int),
            decreases items.len() - i,
        {
            match items[i] {
                MetadataLayoutItem::PathTable(table) => match self.place_one_table(
                    table,
                    blocks,
                    joliet_blocks,
                ) {
                    Err(error) => return Err(error),
                    Ok(_) => {},
                },
                MetadataLayoutItem::Directories(volume) => match self.place_group(
                    volume,
                    count,
                    joliet_count,
                ) {
                    Err(error) => return Err(error),
                    Ok(_) => {},
                },
                MetadataLayoutItem::Gap { gap, kind } => match advanced(
                    self.next,
                    gap,
                    ErrorKind::MetadataGapOverflow,
                ) {
                    Err(error) => return Err(error),
                    Ok(next) => {
                        let ghost before = self@;
                        self.gaps.push(
                            GapPlacement {
                                start: self.next,
                                sectors: gap,
                                kind,
                                subheader: None,
                                form2_edc: None,
                            },
                        );
                        self.next = next;
                        proof {
                            assert(self@ =~= PlacingModel { next, gaps: self.gaps@, ..before });
                        }
                    },
                },
            }
            i = i + 1;
        }
        Ok(())
    }
}

} // verus!
