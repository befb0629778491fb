//! Reading the Joliet volume of an image.
use vstd::prelude::*;
use vstd::slice::slice_subrange;

use crate::bytes::{all_are, all_bytes_are};
use crate::error::{failure, failure_at, Error, ErrorKind, Failure};
use crate::hexcode::{encode, hex_text};
use crate::iso9660::description::{
    EntryXa, JolietEntry, JolietEntryModel, PrimaryVolume, VolumeModel,
};
use crate::iso9660::joliet::{
    decode_joliet_identifier, encode_joliet_identifier, joliet_identifier, joliet_text,
};
use crate::iso9660::path_table::{DirectoryPlacement, PlacementModel};
use crate::iso9660::read::{directory_contents, read_directory, DirectoryContents};
use crate::iso9660::record::{
    entry_xa, parsed_xa, record_check, validate_standard_record_fields, Record, RecordModel,
};
use crate::iso9660::time::{parse_recording_time, recording_time_text};
use crate::iso9660::walk::{
    copy_directory, is_directory_record, is_visited, visits_again, FoundModel, ParsedDirectory,
    ParsedFile,
};
use crate::model::{accepts, ceil_div, ceil_div_u32, first_failure, opt_view, views, views_push};
use crate::raw_cd::Block;
use crate::text::{
    cut_last, file_name, is_root, join, join_path, name_of, parent_of, parent_path, root_path,
    same_text, split_last,
};

verus! {

/// What a walk of the Joliet tree has found so far.
pub struct JolietWalk {
    pub entries: Vec<JolietEntry>,
    pub directories: Vec<ParsedDirectory>,
}

/// The mathematical form of a [`JolietWalk`].
#[verifier::ext_equal]
pub struct JolietWalkModel {
    pub entries: Seq<JolietEntryModel>,
    pub directories: Seq<FoundModel>,
}

impl View for JolietWalk {
    type V = JolietWalkModel;

    open spec fn view(&self) -> JolietWalkModel {
        JolietWalkModel {
            entries: views(self.entries@),
            directories: views(self.directories@),
        }
    }
}

/// The version of a Joliet file.
pub open spec fn joliet_version() -> Seq<char> {
    seq!['1']
}

/// The name of a Joliet record's file or directory, and whether a file's version
/// is missing.
pub open spec fn joliet_name(record: RecordModel) -> Result<(Seq<char>, bool), Failure> {
    match joliet_text(record.name) {
        Err(failure) => Err(failure),
        Ok(text) => if is_directory_record(record) {
            Ok((text, false))
        } else {
            match split_last(text, ';') {
                None => Ok((text, true)),
                Some((name, version)) => if version == joliet_version() {
                    Ok((name, false))
                } else {
                    Err(failure(ErrorKind::JolietVersion))
                },
            }
        },
    }
}

fn read_joliet_name(record: &Record) -> (result: Result<(String, bool), Error>)
    ensures
        match (result, joliet_name(record@)) {
            (Ok((name, omit)), Ok(expected)) => (name@, omit) == expected,
            (Err(error), Err(failure)) => error@ == failure,
            _ => false,
        },
{
    let text: String = match decode_joliet_identifier(record.name.as_slice()) {
        Ok(value) => value,
        Err(error) => return Err(error),
    };
    if record.flags & 2 != 0 {
        return Ok((text, false));
    }
    match cut_last(text.as_str(), ';') {
        None => Ok((text, true)),
        Some((name, version)) => {
            proof {
                reveal_strlit("1");
                assert("1"@ =~= joliet_version());
            }
            if same_text(version.as_str(), "1") {
                Ok((name, false))
            } else {
                Err(Error::new(ErrorKind::JolietVersion))
            }
        },
    }
}

/// `found`, and then the paths of the files from `index` on that lie where a
/// record says.
pub open spec fn sources_from(
    files: Seq<FoundModel>,
    record: RecordModel,
    index: int,
    found: Seq<Seq<char>>,
) -> Seq<Seq<char>>
    decreases files.len() - index,
{
    if index < 0 || index >= files.len() {
        found
    } else if files[index].extent == record.extent && files[index].length == record.length {
        sources_from(files, record, index + 1, found.push(files[index].path))
    } else {
        sources_from(files, record, index + 1, found)
    }
}

/// The one primary file that a Joliet record names.
pub open spec fn joliet_source(files: Seq<FoundModel>, record: RecordModel) -> Result<
    Option<Seq<char>>,
    Failure,
> {
    let sources = sources_from(files, record, 0, Seq::empty());
    if is_directory_record(record) {
        Ok(None)
    } else if sources.len() == 0 {
        Err(failure(ErrorKind::JolietSourceMissing))
    } else if sources.len() > 1 {
        Err(failure(ErrorKind::JolietSourceAmbiguous))
    } else {
        Ok(Some(sources[0]))
    }
}

fn find_source(files: &Vec<ParsedFile>, record: &Record) -> (result: Result<Option<String>, Error>)
    ensures
        match (result, joliet_source(views(files@), record@)) {
            (Ok(source), Ok(expected)) => opt_view(source) == expected,
            (Err(error), Err(failure)) => error@ == failure,
            _ => false,
        },
{
    if record.flags & 2 != 0 {
        return Ok(None);
    }
    let ghost model = views(files@);
    let mut sources: Vec<String> = Vec::new();
    let mut i: usize = 0;
    assert(views(sources@) =~= Seq::<Seq<char>>::empty());
    while i < files.len()
        invariant
            i <= files.len(),
            model == views(files@),
            sources_from(model, record@, 0, Seq::empty()) == sources_from(
                model,
                record@,
                i as int,
                views(sources@),
            ),
        decreases files.len() - i,
    {
        assert(model[i as int] == files@[i as int]@);
        if files[i].extent == record.extent && files[i].length == record.length {
            proof {
                views_push(sources@, files@[i as int].path);
            }
            sources.push(files[i].path.clone());
            assert(views(sources@) =~= views(sources@.drop_last()).push(files@[i as int].path@));
        }
        i = i + 1;
    }
    if sources.len() == 0 {
        return Err(Error::new(ErrorKind::JolietSourceMissing));
    }
    if sources.len() > 1 {
        return Err(Error::new(ErrorKind::JolietSourceAmbiguous));
    }
    assert(views(sources@)[0] == sources@[0]@);
    Ok(Some(sources[0].clone()))
}

/// What is known after one more record of a Joliet directory.
pub open spec fn with_joliet_child(
    files: Seq<FoundModel>,
    xa_system_use: bool,
    parent: Seq<char>,
    walk: JolietWalkModel,
    record: RecordModel,
) -> Result<JolietWalkModel, Failure> {
    let directory = is_directory_record(record);
    match joliet_name(record) {
        Err(failure) => Err(failure),
        Ok((name, omit_version)) => match joliet_source(files, record) {
            Err(failure) => Err(failure),
            Ok(source) => match parsed_xa(record.system_use, directory, xa_system_use) {
                Err(failure) => Err(failure),
                Ok(xa) => {
                    let path = join(parent, name);
                    Ok(
                        JolietWalkModel {
                            entries: walk.entries.push(
                                JolietEntryModel {
                                    path,
                                    source,
                                    omit_version,
                                    recording_time: recording_time_text(record.recording_time),
                                    hidden: record.flags & 1 != 0,
                                    associated: record.flags & 4 != 0,
                                    xa,
                                },
                            ),
                            directories: if directory {
                                walk.directories.push(
                                    FoundModel {
                                        path,
                                        extent: record.extent,
                                        length: record.length,
                                    },
                                )
                            } else {
                                walk.directories
                            },
                        },
                    )
                },
            },
        },
    }
}

/// What is known after the records of a Joliet directory from `index` on.
pub open spec fn with_joliet_children_from(
    files: Seq<FoundModel>,
    xa_system_use: bool,
    parent: Seq<char>,
    walk: JolietWalkModel,
    records: Seq<RecordModel>,
    index: int,
) -> Result<JolietWalkModel, Failure>
    decreases records.len() - index,
{
    if index < 0 || index >= records.len() {
        Ok(walk)
    } else {
        match with_joliet_child(files, xa_system_use, parent, walk, records[index]) {
            Err(failure) => Err(failure),
            Ok(next) => with_joliet_children_from(
                files,
                xa_system_use,
                parent,
                next,
                records,
                index + 1,
            ),
        }
    }
}

/// The checks of the records of a Joliet directory.
pub open spec fn joliet_record_checks(records: Seq<RecordModel>, xa_system_use: bool) -> spec_fn(
    int,
) -> Result<(), Failure> {
    |i: int| record_check(records[i], is_directory_record(records[i]), xa_system_use)
}

/// What is known after a Joliet directory whose entries are joined to `parent`.
#[verifier::opaque]
pub open spec fn with_joliet_directory(
    blocks: Seq<Block>,
    files: Seq<FoundModel>,
    xa_system_use: bool,
    walk: JolietWalkModel,
    directory: FoundModel,
    parent: Seq<char>,
) -> Result<JolietWalkModel, Failure> {
    match directory_contents(blocks, directory.extent, directory.length) {
        Err(failure) => Err(failure),
        Ok(contents) => {
            let records = contents.records;
            if contents.slack is Some {
                Err(failure(ErrorKind::JolietSlack))
            } else if records.len() < 2 {
                Err(failure(ErrorKind::JolietDotRecordsMissing))
            } else {
                match first_failure(
                    joliet_record_checks(records, xa_system_use),
                    0,
                    records.len() as int,
                ) {
                    Err(failure) => Err(failure),
                    Ok(_) => with_joliet_children_from(
                        files,
                        xa_system_use,
                        parent,
                        walk,
                        records,
                        2,
                    ),
                }
            }
        },
    }
}

/// The path that the entries of the directory found at `index` are joined to: nothing
/// for the first, which is the root, whatever the names of the others.
pub open spec fn joliet_parent(directory: FoundModel, index: int) -> Seq<char> {
    if index == 0 {
        Seq::empty()
    } else {
        directory.path
    }
}

/// What is known after the Joliet directories from `index` on, in the order in
/// which they are found. A walk that has visited more directories than there are
/// blocks has come to some extent again.
pub open spec fn joliet_walked_from(
    blocks: Seq<Block>,
    files: Seq<FoundModel>,
    xa_system_use: bool,
    walk: JolietWalkModel,
    index: int,
) -> Result<JolietWalkModel, Failure>
    decreases blocks.len() + 1 - index,
{
    if index < 0 || index >= walk.directories.len() {
        Ok(walk)
    } else {
        let directory = walk.directories[index];
        if visits_again(walk.directories, index) || index > blocks.len() {
            Err(failure_at(ErrorKind::JolietDirectoryCycle, directory.extent as int))
        } else {
            match with_joliet_directory(
                blocks,
                files,
                xa_system_use,
                walk,
                directory,
                joliet_parent(directory, index),
            ) {
                Err(failure) => Err(failure),
                Ok(next) => joliet_walked_from(blocks, files, xa_system_use, next, index + 1),
            }
        }
    }
}

fn check_joliet_records(records: &Vec<Record>, xa_system_use: bool) -> (result: Result<(), Error>)
    ensures
        accepts(
            result,
            first_failure(
                joliet_record_checks(views(records@), xa_system_use),
                0,
                records@.len() as int,
            ),
        ),
{
    let ghost checks = joliet_record_checks(views(records@), xa_system_use);
    let ghost count = records@.len() as int;
    let mut i: usize = 0;
    while i < records.len()
        invariant
            i <= records.len(),
            count == records@.len(),
            checks == joliet_record_checks(views(records@), xa_system_use),
            first_failure(checks, 0, count) == first_failure(checks, i as int, count),
        decreases records.len() - i,
    {
        let record: &Record = &records[i];
        assert(views(records@)[i as int] == record@);
        match validate_standard_record_fields(record, record.flags & 2 != 0, xa_system_use) {
            Ok(_) => {},
            Err(error) => return Err(error),
        }
        i = i + 1;
    }
    Ok(())
}

impl JolietWalk {
    fn add_child(
        &mut self,
        files: &Vec<ParsedFile>,
        xa_system_use: bool,
        parent: &str,
        record: &Record,
    ) -> (result: Result<(), Error>)
        ensures
            match (
                result,
                with_joliet_child(views(files@), xa_system_use, parent@, old(self)@, record@),
            ) {
                (Ok(_), Ok(expected)) => final(self)@ == expected,
                (Err(error), Err(failure)) => error@ == failure,
                _ => false,
            },
    {
        let ghost before = self@;
        let directory: bool = record.flags & 2 != 0;
        let (name, omit_version) = match read_joliet_name(record) {
            Ok(value) => value,
            Err(error) => return Err(error),
        };
        let path: String = join_path(parent, name.as_str());
        let source: Option<String> = match find_source(files, record) {
            Ok(value) => value,
            Err(error) => return Err(error),
        };
        let xa: Option<EntryXa> = match entry_xa(record, directory, xa_system_use) {
            Ok(value) => value,
            Err(error) => return Err(error),
        };
        let entry = JolietEntry {
            path: path.clone(),
            source,
            omit_version,
            recording_time: parse_recording_time(record.recording_time),
            hidden: record.flags & 1 != 0,
            associated: record.flags & 4 != 0,
            xa,
        };
        proof {
            views_push(self.entries@, entry);
        }
        self.entries.push(entry);
        if directory {
            let found = ParsedDirectory { path, extent: record.extent, length: record.length };
            proof {
                views_push(self.directories@, found);
            }
            self.directories.push(found);
        }
        proof {
            let expected = with_joliet_child(
                views(files@),
                xa_system_use,
                parent@,
                before,
                record@,
            )->Ok_0;
            assert(self@.entries.last() =~= expected.entries.last());
            assert(self@ =~= expected);
        }
        Ok(())
    }

    fn add_children(
        &mut self,
        files: &Vec<ParsedFile>,
        xa_system_use: bool,
        parent: &str,
        records: &Vec<Record>,
    ) -> (result: Result<(), Error>)
        requires
            records.len() >= 2,
        ensures
            match (
                result,
                with_joliet_children_from(
                    views(files@),
                    xa_system_use,
                    parent@,
                    old(self)@,
                    views(records@),
                    2,
                ),
            ) {
                (Ok(_), Ok(expected)) => final(self)@ == expected,
                (Err(error), Err(failure)) => error@ == failure,
                _ => false,
            },
    {
        let ghost start = self@;
        let ghost model = views(records@);
        let ghost sources = views(files@);
        let mut i: usize = 2;
        while i < records.len()
            invariant
                2 <= i <= records.len(),
                start == old(self)@,
                model == views(records@),
                sources == views(files@),
                with_joliet_children_from(sources, xa_system_use, parent@, start, model, 2)
                    == with_joliet_children_from(
                    sources,
                    xa_system_use,
                    parent@,
                    self@,
                    model,
                    i as int,
                ),
            decreases records.len() - i,
        {
            assert(model[i as int] == records@[i as int]@);
            match self.add_child(files, xa_system_use, parent, &records[i]) {
                Ok(_) => {},
                Err(error) => return Err(error),
            }
            i = i + 1;
        }
        Ok(())
    }

    fn add_directory(
        &mut self,
        blocks: &[Block],
        files: &Vec<ParsedFile>,
        xa_system_use: bool,
        directory: &ParsedDirectory,
        parent: &str,
    ) -> (result: Result<(), Error>)
        ensures
            match (
                result,
                with_joliet_directory(
                    blocks@,
                    views(files@),
                    xa_system_use,
                    old(self)@,
                    directory@,
                    parent@,
                ),
            ) {
                (Ok(_), Ok(expected)) => final(self)@ == expected,
                (Err(error), Err(failure)) => error@ == failure,
                _ => false,
            },
    {
        reveal(with_joliet_directory);
        let contents: DirectoryContents = match read_directory(
            blocks,
            directory.extent,
            directory.length,
        ) {
            Ok(value) => value,
            Err(error) => return Err(error),
        };
        if contents.slack.is_some() {
            return Err(Error::new(ErrorKind::JolietSlack));
        }
        if contents.records.len() < 2 {
            return Err(Error::new(ErrorKind::JolietDotRecordsMissing));
        }
        match check_joliet_records(&contents.records, xa_system_use) {
            Ok(_) => {},
            Err(error) => return Err(error),
        }
        self.add_children(files, xa_system_use, parent, &contents.records)
    }

    /// Visits every Joliet directory that the walk has found and those found on
    /// the way.
    pub(crate) fn visit_all(&mut self, blocks: &[Block], files: &Vec<ParsedFile>, xa_system_use: bool) -> (result: Result<
        (),
        Error,
    >)
        ensures
            match (
                result,
                joliet_walked_from(blocks@, views(files@), xa_system_use, old(self)@, 0),
            ) {
                (Ok(_), Ok(expected)) => final(self)@ == expected,
                (Err(error), Err(failure)) => error@ == failure,
                _ => false,
            },
    {
        let ghost start = self@;
        let ghost sources = views(files@);
        let mut index: usize = 0;
        while index < self.directories.len()
            invariant
                start == old(self)@,
                sources == views(files@),
                index <= blocks.len() + 1,
                joliet_walked_from(blocks@, sources, xa_system_use, start, 0)
                    == joliet_walked_from(blocks@, sources, xa_system_use, self@, index as int),
            decreases blocks.len() + 1 - index,
        {
            assert(self@.directories[index as int] == self.directories@[index as int]@);
            let directory = copy_directory(&self.directories[index]);
            if is_visited(&self.directories, index) || index > blocks.len() {
                return Err(Error::at(ErrorKind::JolietDirectoryCycle, directory.extent as u64));
            }
            let nothing: String = String::new();
            let parent: &str = if index == 0 {
                nothing.as_str()
            } else {
                directory.path.as_str()
            };
            assert(parent@ =~= joliet_parent(directory@, index as int));
            match self.add_directory(blocks, files, xa_system_use, &directory, parent) {
                Ok(_) => {},
                Err(error) => return Err(error),
            }
            index = index + 1;
        }
        Ok(())
    }
}

/// The last of the first `count` directories that has a path, or -1.
pub open spec fn last_found(directories: Seq<FoundModel>, path: Seq<char>, count: int) -> int
    decreases count,
{
    if count <= 0 {
        -1
    } else if directories[count - 1].path == path {
        count - 1
    } else {
        last_found(directories, path, count - 1)
    }
}

pub(crate) fn find_last_directory(directories: &Vec<ParsedDirectory>, path: &str) -> (index: Option<usize>)
    ensures
        match index {
            Some(index) => index < directories.len() && index == last_found(
                views(directories@),
                path@,
                directories.len() as int,
            ),
            None => last_found(views(directories@), path@, directories.len() as int) == -1,
        },
{
    let ghost model = views(directories@);
    let mut count: usize = directories.len();
    while count > 0
        invariant
            count <= directories.len(),
            model == views(directories@),
            last_found(model, path@, directories.len() as int) == last_found(
                model,
                path@,
                count as int,
            ),
        decreases count,
    {
        assert(model[count - 1] == directories@[count - 1]@);
        if same_text(directories[count - 1].path.as_str(), path) {
            return Some(count - 1);
        }
        count = count - 1;
    }
    None
}

/// The place of a directory that was found at `index`, with its identifier.
pub open spec fn found_placement(
    directories: Seq<FoundModel>,
    index: int,
    name: Seq<u8>,
    missing: ErrorKind,
) -> Result<PlacementModel, Failure> {
    let found = directories[index];
    let parent = if found.path == root_path() {
        0
    } else {
        last_found(directories, parent_of(found.path), directories.len() as int)
    };
    if parent < 0 {
        Err(failure(missing))
    } else {
        Ok(
            PlacementModel {
                path: found.path,
                name: if found.path == root_path() {
                    seq![0u8]
                } else {
                    name
                },
                parent,
                entry: index,
                extent: found.extent,
                blocks: ceil_div(found.length as int, 2048) as u32,
                length: found.length,
            },
        )
    }
}

pub(crate) fn place_found(
    directories: &Vec<ParsedDirectory>,
    index: usize,
    name: Vec<u8>,
    missing: ErrorKind,
) -> (result: Result<DirectoryPlacement, Error>)
    requires
        index < directories.len(),
    ensures
        match (result, found_placement(views(directories@), index as int, name@, missing)) {
            (Ok(placement), Ok(expected)) => placement@ == expected,
            (Err(error), Err(failure)) => error@ == failure,
            _ => false,
        },
{
    let found: &ParsedDirectory = &directories[index];
    assert(views(directories@)[index as int] == found@);
    let blocks: u32 = ceil_div_u32(found.length, 2048);
    if is_root(found.path.as_str()) {
        let mut root: Vec<u8> = Vec::new();
        root.push(0);
        assert(root@ =~= seq![0u8]);
        return Ok(
            DirectoryPlacement {
                path: found.path.clone(),
                name: root,
                parent: 0,
                entry: index,
                extent: found.extent,
                blocks,
                length: found.length,
            },
        );
    }
    match find_last_directory(directories, parent_path(found.path.as_str()).as_str()) {
        None => Err(Error::new(missing)),
        Some(parent) => Ok(
            DirectoryPlacement {
                path: found.path.clone(),
                name,
                parent,
                entry: index,
                extent: found.extent,
                blocks,
                length: found.length,
            },
        ),
    }
}

/// The identifier of a Joliet directory in the path table.
pub open spec fn joliet_table_name(path: Seq<char>) -> Result<Seq<u8>, Failure> {
    if path == root_path() {
        Ok(Seq::empty())
    } else {
        joliet_identifier(name_of(path))
    }
}

/// `placed`, and then the places of the Joliet directories from `index` on.
pub open spec fn joliet_placements_from(
    directories: Seq<FoundModel>,
    index: int,
    placed: Seq<PlacementModel>,
) -> Result<Seq<PlacementModel>, Failure>
    decreases directories.len() - index,
{
    if index < 0 || index >= directories.len() {
        Ok(placed)
    } else {
        match joliet_table_name(directories[index].path) {
            Err(failure) => Err(failure),
            Ok(name) => match found_placement(directories, index, name, ErrorKind::JolietTableParent) {
                Err(failure) => Err(failure),
                Ok(placement) => joliet_placements_from(
                    directories,
                    index + 1,
                    placed.push(placement),
                ),
            },
        }
    }
}

/// Places the Joliet directories that were found.
pub fn parsed_joliet_placements(directories: &Vec<ParsedDirectory>) -> (result: Result<
    Vec<DirectoryPlacement>,
    Error,
>)
    ensures
        match (result, joliet_placements_from(views(directories@), 0, Seq::empty())) {
            (Ok(placements), Ok(expected)) => views(placements@) == expected,
            (Err(error), Err(failure)) => error@ == failure,
            _ => false,
        },
{
    let ghost model = views(directories@);
    let mut placements: Vec<DirectoryPlacement> = Vec::new();
    let mut i: usize = 0;
    assert(views(placements@) =~= Seq::<PlacementModel>::empty());
    while i < directories.len()
        invariant
            i <= directories.len(),
            model == views(directories@),
            joliet_placements_from(model, 0, Seq::empty()) == joliet_placements_from(
                model,
                i as int,
                views(placements@),
            ),
        decreases directories.len() - i,
    {
        let path: &str = directories[i].path.as_str();
        assert(model[i as int] == directories@[i as int]@);
        let name: Vec<u8> = if is_root(path) {
            Vec::new()
        } else {
            match encode_joliet_identifier(file_name(path).as_str()) {
                Ok(value) => value,
                Err(error) => return Err(error),
            }
        };
        assert(joliet_table_name(path@) == Ok::<Seq<u8>, Failure>(name@)) by {
            if path@ == root_path() {
                assert(name@ =~= Seq::empty());
            }
        }
        let placement: DirectoryPlacement = match place_found(
            directories,
            i,
            name,
            ErrorKind::JolietTableParent,
        ) {
            Ok(value) => value,
            Err(error) => return Err(error),
        };
        proof {
            views_push(placements@, placement);
        }
        placements.push(placement);
        i = i + 1;
    }
    Ok(placements)
}

/// How the strings of a Joliet descriptor are padded, as far as it is known.
#[verifier::ext_equal]
pub struct PaddingModel {
    /// Zeros fill the fields without text; spaces otherwise.
    pub empty: Option<bool>,
    /// Zeros fill the rest of the fields with text.
    pub rest: Option<bool>,
    pub raw: Option<Seq<char>>,
}

struct StringPadding {
    empty: Option<bool>,
    rest: Option<bool>,
    raw: Option<String>,
}

impl StringPadding {
    spec fn model(&self) -> PaddingModel {
        PaddingModel { empty: self.empty, rest: self.rest, raw: opt_view(self.raw) }
    }
}

/// Bytes are spaces in big-endian units.
pub open spec fn all_spaces(bytes: Seq<u8>) -> bool {
    forall|k: int|
        0 <= k < bytes.len() / 2 ==> #[trigger] bytes[2 * k] == 0 && bytes[2 * k + 1] == 32
}

fn are_spaces(bytes: &[u8]) -> (spaces: bool)
    ensures
        spaces == all_spaces(bytes@),
{
    let mut k: usize = 0;
    while k < bytes.len() / 2
        invariant
            k <= bytes.len() / 2,
            forall|j: int| 0 <= j < k ==> #[trigger] bytes@[2 * j] == 0 && bytes@[2 * j + 1] == 32,
        decreases bytes.len() / 2 - k,
    {
        if bytes[2 * k] != 0 || bytes[2 * k + 1] != 32 {
            assert(!(bytes@[2 * (k as int)] == 0 && bytes@[2 * k + 1] == 32));
            return false;
        }
        k = k + 1;
    }
    true
}

/// The text of a descriptor field as it is stored.
pub open spec fn stored_text(value: Seq<char>) -> Result<Seq<u8>, Failure> {
    if value.len() == 0 {
        Ok(Seq::empty())
    } else {
        joliet_identifier(value)
    }
}

/// What is known of the padding after a field.
pub open spec fn padding_with(
    block: Seq<u8>,
    known: PaddingModel,
    offset: int,
    length: int,
    value: Seq<char>,
) -> Result<PaddingModel, Failure> {
    match stored_text(value) {
        Err(failure) => Err(failure),
        Ok(stored) => {
            let padding = block.subrange(offset + stored.len(), offset + length);
            let zero = all_are(padding, 0);
            let empty = value.len() == 0;
            let detected = if empty {
                known.empty
            } else {
                known.rest
            };
            if stored.len() >= length {
                Ok(known)
            } else if !zero && !all_spaces(padding) {
                if offset == 190 && empty {
                    Ok(
                        PaddingModel {
                            raw: Some(hex_text(block.subrange(offset, offset + length))),
                            ..known
                        },
                    )
                } else {
                    Err(failure(ErrorKind::JolietPadding))
                }
            } else if detected is Some && detected != Some(zero) {
                Err(failure(ErrorKind::JolietPaddingMixed))
            } else if empty {
                Ok(PaddingModel { empty: Some(zero), ..known })
            } else {
                Ok(PaddingModel { rest: Some(zero), ..known })
            }
        },
    }
}

/// The padding of a Joliet descriptor's strings.
pub open spec fn string_padding(block: Seq<u8>, descriptor: VolumeModel) -> Result<
    PaddingModel,
    Failure,
> {
    let known = PaddingModel { empty: None, rest: None, raw: None };
    match padding_with(block, known, 8, 32, descriptor.system_identifier) {
        Err(failure) => Err(failure),
        Ok(known) => match padding_with(block, known, 40, 32, descriptor.volume_identifier) {
            Err(failure) => Err(failure),
            Ok(known) => match padding_with(
                block,
                known,
                190,
                128,
                descriptor.volume_set_identifier,
            ) {
                Err(failure) => Err(failure),
                Ok(known) => match padding_with(
                    block,
                    known,
                    318,
                    128,
                    descriptor.publisher_identifier,
                ) {
                    Err(failure) => Err(failure),
                    Ok(known) => match padding_with(
                        block,
                        known,
                        446,
                        128,
                        descriptor.data_preparer_identifier,
                    ) {
                        Err(failure) => Err(failure),
                        Ok(known) => padding_with(
                            block,
                            known,
                            574,
                            128,
                            descriptor.application_identifier,
                        ),
                    },
                },
            },
        },
    }
}

/// The setting that an observation gives; spaces are the default.
pub open spec fn or_spaces(observed: Option<bool>) -> bool {
    observed == Some(true)
}

impl StringPadding {
    fn observe(&mut self, block: &[u8], offset: usize, length: usize, value: &str) -> (result: Result<
        (),
        Error,
    >)
        requires
            offset + length <= block.len(),
        ensures
            match (
                result,
                padding_with(block@, old(self).model(), offset as int, length as int, value@),
            ) {
                (Ok(_), Ok(expected)) => final(self).model() == expected,
                (Err(error), Err(failure)) => error@ == failure,
                _ => false,
            },
    {
        let empty: bool = value.is_empty();
        let stored: Vec<u8> = if empty {
            Vec::new()
        } else {
            match encode_joliet_identifier(value) {
                Ok(value) => value,
                Err(error) => return Err(error),
            }
        };
        assert(stored_text(value@) == Ok::<Seq<u8>, Failure>(stored@)) by {
            if empty {
                assert(stored@ =~= Seq::empty());
            }
        }
        if stored.len() >= length {
            return Ok(());
        }
        let padding: &[u8] = slice_subrange(block, offset + stored.len(), offset + length);
        let zero: bool = all_bytes_are(padding, 0);
        if !zero && !are_spaces(padding) {
            if offset == 190 && empty {
                self.raw = Some(encode(slice_subrange(block, offset, offset + length)));
                return Ok(());
            }
            return Err(Error::new(ErrorKind::JolietPadding));
        }
        if empty {
            if self.empty.is_some() && self.empty != Some(zero) {
                return Err(Error::new(ErrorKind::JolietPaddingMixed));
            }
            self.empty = Some(zero);
        } else {
            if self.rest.is_some() && self.rest != Some(zero) {
                return Err(Error::new(ErrorKind::JolietPaddingMixed));
            }
            self.rest = Some(zero);
        }
        Ok(())
    }
}

/// Finds how the strings of a Joliet descriptor are padded: whether zeros fill
/// those without text, whether zeros follow the others, and the bytes of a volume
/// set identifier that is neither.
pub fn joliet_string_padding(block: &Block, descriptor: &PrimaryVolume) -> (result: Result<
    (bool, bool, Option<String>),
    Error,
>)
    ensures
        match (result, string_padding(block@, descriptor@)) {
            (Ok((empty, rest, raw)), Ok(expected)) => {
                &&& empty == or_spaces(expected.empty)
                &&& rest == or_spaces(expected.rest)
                &&& opt_view(raw) == expected.raw
            },
            (Err(error), Err(failure)) => error@ == failure,
            _ => false,
        },
{
    let bytes: &[u8] = block.as_slice();
    let mut known = StringPadding { empty: None, rest: None, raw: None };
    match known.observe(bytes, 8, 32, descriptor.system_identifier.as_str()) {
        Ok(_) => {},
        Err(error) => return Err(error),
    }
    match known.observe(bytes, 40, 32, descriptor.volume_identifier.as_str()) {
        Ok(_) => {},
        Err(error) => return Err(error),
    }
    match known.observe(bytes, 190, 128, descriptor.volume_set_identifier.as_str()) {
        Ok(_) => {},
        Err(error) => return Err(error),
    }
    match known.observe(bytes, 318, 128, descriptor.publisher_identifier.as_str()) {
        Ok(_) => {},
        Err(error) => return Err(error),
    }
    match known.observe(bytes, 446, 128, descriptor.data_preparer_identifier.as_str()) {
        Ok(_) => {},
        Err(error) => return Err(error),
    }
    match known.observe(bytes, 574, 128, descriptor.application_identifier.as_str()) {
        Ok(_) => {},
        Err(error) => return Err(error),
    }
    let StringPadding { empty, rest, raw } = known;
    Ok((empty == Some(true), rest == Some(true), raw))
}

} // verus!
