//! Walking the primary tree of an image.
use vstd::prelude::*;

use crate::bytes::copy_of;
use crate::error::{
    failure, failure_about, failure_at, failure_of, failure_over, Error, ErrorKind, Failure,
};
use crate::iso9660::description::{
    DirectoryReference, Entry, EntryModel, EntryXa, EntryXaModel, IdentifierPolicy,
};
use crate::iso9660::paths::{
    identifier_is_iso_level1, is_level1, is_nonstandard_identifier,
    valid_nonstandard_ascii_identifier,
};
use crate::iso9660::read::{
    allocation_padding, directory_contents, file_allocation_padding_hex, merged, read_directory,
    ContentsModel, DirectoryContents, DirectoryPackingObservation,
};
use crate::iso9660::record::{
    entry_xa, entry_xa_is_cdda, is_cdda, parsed_xa, record_check, validate_standard_record_fields,
    Record, RecordModel,
};
use crate::iso9660::time::{parse_recording_time, recording_time_text};
use crate::manifest::{DirectoryParentRecordingTime, EntrySectorSubheader};
use crate::model::{accepts, first_failure, opt_view, views, views_push};
use crate::raw_cd::Block;
use crate::text::{
    cut_last, file_name, from_utf8, is_root, join, join_path, name_of, parent_of, parent_path,
    parse_byte, parsed_byte, root_path, root_text, same_text, split_last,
};

verus! {

/// A file that was found in an image.
#[derive(Clone, Debug)]
pub struct ParsedFile {
    pub path: String,
    pub extent: u32,
    pub length: u32,
}

/// A directory that was found in an image.
#[derive(Clone, Debug)]
pub struct ParsedDirectory {
    pub path: String,
    pub extent: u32,
    pub length: u32,
}

/// The mathematical form of a [`ParsedFile`] or a [`ParsedDirectory`].
#[verifier::ext_equal]
pub struct FoundModel {
    pub path: Seq<char>,
    pub extent: u32,
    pub length: u32,
}

impl View for ParsedFile {
    type V = FoundModel;

    open spec fn view(&self) -> FoundModel {
        FoundModel { path: self.path@, extent: self.extent, length: self.length }
    }
}

impl View for ParsedDirectory {
    type V = FoundModel;

    open spec fn view(&self) -> FoundModel {
        FoundModel { path: self.path@, extent: self.extent, length: self.length }
    }
}

/// What a walk has found so far.
pub struct Walk {
    pub entries: Vec<Entry>,
    pub files: Vec<ParsedFile>,
    /// The files whose records lack the XA system-use data that others have.
    pub omissions: Vec<String>,
    pub directories: Vec<ParsedDirectory>,
    pub identifier_policy: IdentifierPolicy,
    pub parent_time: Option<DirectoryParentRecordingTime>,
    pub observation: DirectoryPackingObservation,
}

/// The mathematical form of a [`Walk`].
#[verifier::ext_equal]
pub struct WalkModel {
    pub entries: Seq<EntryModel>,
    pub files: Seq<FoundModel>,
    pub omissions: Seq<Seq<char>>,
    pub directories: Seq<FoundModel>,
    pub identifier_policy: IdentifierPolicy,
    pub parent_time: Option<DirectoryParentRecordingTime>,
    pub observation: DirectoryPackingObservation,
}

impl View for Walk {
    type V = WalkModel;

    open spec fn view(&self) -> WalkModel {
        WalkModel {
            entries: views(self.entries@),
            files: views(self.files@),
            omissions: views(self.omissions@),
            directories: views(self.directories@),
            identifier_policy: self.identifier_policy,
            parent_time: self.parent_time,
            observation: self.observation,
        }
    }
}

/// A record of a directory names a directory.
pub open spec fn is_directory_record(record: RecordModel) -> bool {
    record.flags & 2 != 0
}

/// A record carries XA system-use data.
pub open spec fn uses_xa(record: RecordModel, xa_system_use: bool) -> bool {
    xa_system_use && record.system_use.len() > 0
}

/// The name of a record's file or directory, without the version of a file.
pub open spec fn recorded_name(record: RecordModel) -> Result<Seq<char>, Failure> {
    if !vstd::utf8::valid_utf8(record.name) {
        Err(failure(ErrorKind::IdentifierUtf8))
    } else {
        let text = vstd::utf8::decode_utf8(record.name);
        if is_directory_record(record) {
            Ok(text)
        } else {
            match split_last(text, ';') {
                None => Err(failure(ErrorKind::VersionMissing)),
                Some((name, version)) => match parsed_byte(version, 10) {
                    None => Err(failure(ErrorKind::VersionInvalid)),
                    Some(number) => if number == 1 {
                        Ok(name)
                    } else {
                        Err(failure(ErrorKind::VersionUnsupported))
                    },
                },
            }
        }
    }
}

fn read_name(record: &Record) -> (result: Result<String, Error>)
    ensures
        match (result, recorded_name(record@)) {
            (Ok(name), Ok(expected)) => name@ == expected,
            (Err(error), Err(failure)) => error@ == failure,
            _ => false,
        },
{
    let bytes: Vec<u8> = copy_of(record.name.as_slice(), 0, record.name.len());
    assert(bytes@ =~= record.name@);
    let text: String = match from_utf8(bytes) {
        Some(text) => text,
        None => return Err(Error::new(ErrorKind::IdentifierUtf8)),
    };
    if record.flags & 2 != 0 {
        return Ok(text);
    }
    match cut_last(text.as_str(), ';') {
        None => Err(Error::new(ErrorKind::VersionMissing)),
        Some((name, version)) => match parse_byte(version.as_str(), 10) {
            None => Err(Error::new(ErrorKind::VersionInvalid)),
            Some(number) => if number == 1 {
                Ok(name)
            } else {
                Err(Error::new(ErrorKind::VersionUnsupported))
            },
        },
    }
}

/// The policy that an identifier needs.
pub open spec fn policy_with(policy: IdentifierPolicy, component: Seq<char>, file: bool) -> Result<
    IdentifierPolicy,
    Failure,
> {
    if is_level1(component, file) {
        Ok(policy)
    } else if is_nonstandard_identifier(component) {
        Ok(IdentifierPolicy::NonstandardAscii)
    } else {
        Err(failure_of(ErrorKind::IdentifierNotAscii, component))
    }
}

/// The entry of a record that is found in a directory.
pub open spec fn found_entry(
    blocks: Seq<Block>,
    record: RecordModel,
    path: Seq<char>,
    xa: Option<EntryXaModel>,
) -> EntryModel {
    let directory = is_directory_record(record);
    let external = !directory && is_cdda(xa);
    EntryModel {
        path,
        recording_time: recording_time_text(record.recording_time),
        hidden: record.flags & 1 != 0,
        associated: record.flags & 4 != 0,
        unbacked: false,
        directory_reference: if directory && record.length == 0 {
            Some(DirectoryReference { extent: record.extent, length: record.length })
        } else {
            None
        },
        directory_slack: None,
        allocation_padding_hex: if !directory && !external {
            allocation_padding(blocks, record)
        } else {
            None
        },
        sector_subheader: EntrySectorSubheader::Canonical,
        xa,
        extent: if external {
            Some(record.extent)
        } else {
            None
        },
        length: if external {
            Some(record.length)
        } else {
            None
        },
    }
}

/// What is known after one more record of a directory.
pub open spec fn with_child(
    blocks: Seq<Block>,
    xa_system_use: bool,
    parent: Seq<char>,
    walk: WalkModel,
    record: RecordModel,
) -> Result<WalkModel, Failure> {
    match recorded_name(record) {
        Err(failure) => Err(failure),
        Ok(name) => {
            let directory = is_directory_record(record);
            let path = join(parent, name);
            match policy_with(walk.identifier_policy, name_of(path), !directory) {
                Err(failure) => Err(failure),
                Ok(identifier_policy) => match parsed_xa(
                    record.system_use,
                    directory,
                    uses_xa(record, xa_system_use),
                ) {
                    Err(failure) => Err(failure),
                    Ok(xa) => {
                        let found = FoundModel {
                            path,
                            extent: record.extent,
                            length: record.length,
                        };
                        Ok(
                            WalkModel {
                                entries: walk.entries.push(found_entry(blocks, record, path, xa)),
                                files: if !directory && !is_cdda(xa) {
                                    walk.files.push(found)
                                } else {
                                    walk.files
                                },
                                omissions: if xa_system_use && !uses_xa(record, xa_system_use) {
                                    walk.omissions.push(path)
                                } else {
                                    walk.omissions
                                },
                                directories: if directory {
                                    walk.directories.push(found)
                                } else {
                                    walk.directories
                                },
                                identifier_policy,
                                ..walk
                            },
                        )
                    },
                },
            }
        },
    }
}

/// What is known after the records of a directory from `index` on.
pub open spec fn with_children_from(
    blocks: Seq<Block>,
    xa_system_use: bool,
    parent: Seq<char>,
    walk: WalkModel,
    records: Seq<RecordModel>,
    index: int,
) -> Result<WalkModel, Failure>
    decreases records.len() - index,
{
    if index < 0 || index >= records.len() {
        Ok(walk)
    } else {
        match with_child(blocks, xa_system_use, parent, walk, records[index]) {
            Err(failure) => Err(failure),
            Ok(next) => with_children_from(
                blocks,
                xa_system_use,
                parent,
                next,
                records,
                index + 1,
            ),
        }
    }
}

/// What is wrong with a record of a directory.
pub open spec fn listed_record_check(record: RecordModel, index: int, xa_system_use: bool) -> Result<
    (),
    Failure,
> {
    let directory = is_directory_record(record);
    if xa_system_use && !uses_xa(record, xa_system_use) && (index < 2 || directory) {
        Err(failure(ErrorKind::XaOmission))
    } else {
        record_check(record, directory, uses_xa(record, xa_system_use))
    }
}

/// The checks of the records of a directory.
pub open spec fn listed_record_checks(records: Seq<RecordModel>, xa_system_use: bool) -> spec_fn(
    int,
) -> Result<(), Failure> {
    |i: int| listed_record_check(records[i], i, xa_system_use)
}

/// The first entry with a path, from `index` on, or the number of entries.
pub open spec fn entry_at(entries: Seq<EntryModel>, path: Seq<char>, index: int) -> int
    decreases entries.len() - index,
{
    if index < 0 || index >= entries.len() {
        entries.len() as int
    } else if entries[index].path == path {
        index
    } else {
        entry_at(entries, path, index + 1)
    }
}

/// Whose time the parent records of directories carry, once a directory's own
/// parent record is seen.
pub open spec fn parent_time_with(
    entries: Seq<EntryModel>,
    directory: FoundModel,
    recorded: Seq<char>,
    known: Option<DirectoryParentRecordingTime>,
) -> Result<Option<DirectoryParentRecordingTime>, Failure> {
    let own = entry_at(entries, directory.path, 0);
    let parent = entry_at(entries, parent_of(directory.path), 0);
    if directory.path == root_path() {
        Ok(known)
    } else if own >= entries.len() {
        Err(failure(ErrorKind::DirectoryEntryMissing))
    } else if parent >= entries.len() {
        Err(failure(ErrorKind::ParentEntryMissing))
    } else {
        let own_time = entries[own].recording_time;
        let parent_time = entries[parent].recording_time;
        if own_time == parent_time {
            Ok(known)
        } else if recorded != parent_time && recorded != own_time {
            Err(failure_about(ErrorKind::ParentTimeUnsupported, directory.path, directory.extent as int))
        } else {
            let observed = if recorded == parent_time {
                DirectoryParentRecordingTime::Parent
            } else {
                DirectoryParentRecordingTime::Current
            };
            match known {
                None => Ok(Some(observed)),
                Some(value) => if value == observed {
                    Ok(known)
                } else {
                    Err(failure(ErrorKind::ParentTimesInconsistent))
                },
            }
        }
    }
}

/// The path that the entries of a directory are joined to.
pub open spec fn joined_parent(path: Seq<char>) -> Seq<char> {
    if path == root_path() {
        Seq::empty()
    } else {
        path
    }
}

/// What is known after a directory whose contents have been read.
pub open spec fn with_contents(
    blocks: Seq<Block>,
    xa_system_use: bool,
    walk: WalkModel,
    directory: FoundModel,
    contents: ContentsModel,
) -> Result<WalkModel, Failure> {
    let records = contents.records;
    let at = entry_at(walk.entries, directory.path, 0);
    if at >= walk.entries.len() {
        Err(failure(ErrorKind::DirectoryEntryMissing))
    } else if records.len() < 2 {
        Err(failure(ErrorKind::DotRecordsMissing))
    } else {
        let entries = walk.entries.update(
            at,
            EntryModel { directory_slack: contents.slack, ..walk.entries[at] },
        );
        match parent_time_with(
            entries,
            directory,
            recording_time_text(records[1].recording_time),
            walk.parent_time,
        ) {
            Err(failure) => Err(failure),
            Ok(parent_time) => match first_failure(
                listed_record_checks(records, xa_system_use),
                0,
                records.len() as int,
            ) {
                Err(failure) => Err(failure),
                Ok(_) => with_children_from(
                    blocks,
                    xa_system_use,
                    joined_parent(directory.path),
                    WalkModel {
                        entries,
                        parent_time,
                        observation: merged(walk.observation, contents.observation),
                        ..walk
                    },
                    records,
                    2,
                ),
            },
        }
    }
}

/// What is known after a directory.
#[verifier::opaque]
pub open spec fn with_directory(
    blocks: Seq<Block>,
    xa_system_use: bool,
    walk: WalkModel,
    directory: FoundModel,
) -> Result<WalkModel, Failure> {
    match directory_contents(blocks, directory.extent, directory.length) {
        Err(under) => Err(
            failure_over(
                ErrorKind::ReadingDirectory,
                directory.path,
                directory.extent as int,
                under,
            ),
        ),
        Ok(contents) => with_contents(blocks, xa_system_use, walk, directory, contents),
    }
}

/// A directory before `index` has the same extent; references to directories,
/// which have no length, do not count.
pub open spec fn visits_again(directories: Seq<FoundModel>, index: int) -> bool {
    exists|j: int|
        0 <= j < index && (#[trigger] directories[j]).length != 0 && directories[j].extent
            == directories[index].extent
}

/// A directory as it is looked up: one without a path is the root.
pub open spec fn addressed(directory: FoundModel) -> FoundModel {
    FoundModel {
        path: if directory.path.len() == 0 {
            root_path()
        } else {
            directory.path
        },
        ..directory
    }
}

/// What is known after the directories from `index` on, in the order in which they
/// are found. A walk that has visited more directories than there are blocks has
/// come to some extent again.
pub open spec fn walked_from(
    blocks: Seq<Block>,
    xa_system_use: bool,
    walk: WalkModel,
    index: int,
    visited: int,
) -> Result<WalkModel, Failure>
    decreases blocks.len() + 1 - visited, walk.directories.len() - index,
{
    if index < 0 || index >= walk.directories.len() {
        Ok(walk)
    } else {
        let directory = walk.directories[index];
        if index > 0 && directory.length == 0 {
            walked_from(blocks, xa_system_use, walk, index + 1, visited)
        } else if visits_again(walk.directories, index) || visited > blocks.len() {
            Err(failure_at(ErrorKind::DirectoryCycle, directory.extent as int))
        } else {
            match with_directory(blocks, xa_system_use, walk, addressed(directory)) {
                Err(failure) => Err(failure),
                Ok(next) => walked_from(blocks, xa_system_use, next, index + 1, visited + 1),
            }
        }
    }
}

fn find_entry_at(entries: &Vec<Entry>, path: &str) -> (index: usize)
    ensures
        index == entry_at(views(entries@), path@, 0),
        index <= entries.len(),
{
    let ghost model = views(entries@);
    let mut index: usize = 0;
    while index < entries.len()
        invariant
            index <= entries.len(),
            model == views(entries@),
            entry_at(model, path@, 0) == entry_at(model, path@, index as int),
        decreases entries.len() - index,
    {
        assert(model[index as int] == entries@[index as int]@);
        if same_text(entries[index].path.as_str(), path) {
            return index;
        }
        index = index + 1;
    }
    index
}

fn find_parent_time(
    entries: &Vec<Entry>,
    directory: &ParsedDirectory,
    recorded: &str,
    known: Option<DirectoryParentRecordingTime>,
) -> (result: Result<Option<DirectoryParentRecordingTime>, Error>)
    ensures
        match (result, parent_time_with(views(entries@), directory@, recorded@, known)) {
            (Ok(time), Ok(expected)) => time == expected,
            (Err(error), Err(failure)) => error@ == failure,
            _ => false,
        },
{
    let path: &str = directory.path.as_str();
    if is_root(path) {
        return Ok(known);
    }
    let own: usize = find_entry_at(entries, path);
    if own >= entries.len() {
        return Err(Error::new(ErrorKind::DirectoryEntryMissing));
    }
    let parent: usize = find_entry_at(entries, parent_path(path).as_str());
    if parent >= entries.len() {
        return Err(Error::new(ErrorKind::ParentEntryMissing));
    }
    assert(views(entries@)[own as int] == entries@[own as int]@);
    assert(views(entries@)[parent as int] == entries@[parent as int]@);
    let own_time: &str = entries[own].recording_time.as_str();
    let parent_time: &str = entries[parent].recording_time.as_str();
    if same_text(own_time, parent_time) {
        return Ok(known);
    }
    let observed: DirectoryParentRecordingTime = if same_text(recorded, parent_time) {
        DirectoryParentRecordingTime::Parent
    } else if same_text(recorded, own_time) {
        DirectoryParentRecordingTime::Current
    } else {
        return Err(Error::about(ErrorKind::ParentTimeUnsupported, path, directory.extent as u64));
    };
    match known {
        None => Ok(Some(observed)),
        Some(value) => if value == observed {
            Ok(known)
        } else {
            Err(Error::new(ErrorKind::ParentTimesInconsistent))
        },
    }
}

fn check_listed_records(records: &Vec<Record>, xa_system_use: bool) -> (result: Result<(), Error>)
    ensures
        accepts(
            result,
            first_failure(
                listed_record_checks(views(records@), xa_system_use),
                0,
                records@.len() as int,
            ),
        ),
{
    let ghost checks = listed_record_checks(views(records@), xa_system_use);
    let ghost count = records@.len() as int;
    let mut i: usize = 0;
    while i < records.len()
        invariant
            i <= records.len(),
            count == records@.len(),
            checks == listed_record_checks(views(records@), xa_system_use),
            first_failure(checks, 0, count) == first_failure(checks, i as int, count),
        decreases records.len() - i,
    {
        let record: &Record = &records[i];
        assert(views(records@)[i as int] == record@);
        let directory: bool = record.flags & 2 != 0;
        let record_uses_xa: bool = xa_system_use && record.system_use.len() > 0;
        if xa_system_use && !record_uses_xa && (i < 2 || directory) {
            return Err(Error::new(ErrorKind::XaOmission));
        }
        match validate_standard_record_fields(record, directory, record_uses_xa) {
            Ok(_) => {},
            Err(error) => return Err(error),
        }
        i = i + 1;
    }
    Ok(())
}

fn make_entry(blocks: &[Block], record: &Record, path: &str, xa: Option<EntryXa>) -> (entry: Entry)
    ensures
        entry@ == found_entry(blocks@, record@, path@, opt_view(xa)),
{
    let directory: bool = record.flags & 2 != 0;
    let external: bool = !directory && match &xa {
        Some(xa) => entry_xa_is_cdda(xa),
        None => false,
    };
    let allocation_padding_hex: Option<String> = if !directory && !external {
        file_allocation_padding_hex(blocks, record)
    } else {
        None
    };
    let directory_reference: Option<DirectoryReference> = if directory && record.length == 0 {
        Some(DirectoryReference { extent: record.extent, length: record.length })
    } else {
        None
    };
    let extent: Option<u32> = if external {
        Some(record.extent)
    } else {
        None
    };
    let length: Option<u32> = if external {
        Some(record.length)
    } else {
        None
    };
    let entry = Entry {
        path: path.to_owned(),
        recording_time: parse_recording_time(record.recording_time),
        hidden: record.flags & 1 != 0,
        associated: record.flags & 4 != 0,
        unbacked: false,
        directory_reference,
        directory_slack: None,
        allocation_padding_hex,
        sector_subheader: EntrySectorSubheader::Canonical,
        xa,
        extent,
        length,
    };
    assert(entry@ =~= found_entry(blocks@, record@, path@, opt_view(xa)));
    entry
}

impl Walk {
    fn add_child(
        &mut self,
        blocks: &[Block],
        xa_system_use: bool,
        parent: &str,
        record: &Record,
    ) -> (result: Result<(), Error>)
        ensures
            match (result, with_child(blocks@, xa_system_use, parent@, old(self)@, record@)) {
                (Ok(_), Ok(expected)) => final(self)@ == expected,
                (Err(error), Err(failure)) => error@ == failure,
                _ => false,
            },
    {
        let ghost before = self@;
        let directory: bool = record.flags & 2 != 0;
        let name: String = match read_name(record) {
            Ok(value) => value,
            Err(error) => return Err(error),
        };
        let path: String = join_path(parent, name.as_str());
        let component: String = file_name(path.as_str());
        if !identifier_is_iso_level1(component.as_str(), !directory) {
            if !valid_nonstandard_ascii_identifier(component.as_str()) {
                return Err(Error::of(ErrorKind::IdentifierNotAscii, component.as_str()));
            }
            self.identifier_policy = IdentifierPolicy::NonstandardAscii;
        }
        let record_uses_xa: bool = xa_system_use && record.system_use.len() > 0;
        let xa: Option<EntryXa> = match entry_xa(record, directory, record_uses_xa) {
            Ok(value) => value,
            Err(error) => return Err(error),
        };
        let external: bool = !directory && match &xa {
            Some(xa) => entry_xa_is_cdda(xa),
            None => false,
        };
        if xa_system_use && !record_uses_xa {
            proof {
                views_push(self.omissions@, path);
            }
            self.omissions.push(path.clone());
        }
        let entry: Entry = make_entry(blocks, record, path.as_str(), xa);
        proof {
            views_push(self.entries@, entry);
        }
        self.entries.push(entry);
        if directory {
            let found = ParsedDirectory { path, extent: record.extent, length: record.length };
            proof {
                views_push(self.directories@, found);
            }
            self.directories.push(found);
        } else if !external {
            let found = ParsedFile { path, extent: record.extent, length: record.length };
            proof {
                views_push(self.files@, found);
            }
            self.files.push(found);
        }
        proof {
            let expected = with_child(blocks@, xa_system_use, parent@, before, record@);
            assert(self@ =~= expected->Ok_0);
        }
        Ok(())
    }

    fn add_children(
        &mut self,
        blocks: &[Block],
        xa_system_use: bool,
        parent: &str,
        records: &Vec<Record>,
    ) -> (result: Result<(), Error>)
        requires
            records.len() >= 2,
        ensures
            match (
                result,
                with_children_from(
                    blocks@,
                    xa_system_use,
                    parent@,
                    old(self)@,
                    views(records@),
                    2,
                ),
            ) {
                (Ok(_), Ok(expected)) => final(self)@ == expected,
                (Err(error), Err(failure)) => error@ == failure,
                _ => false,
            },
    {
        let ghost start = self@;
        let ghost model = views(records@);
        let mut i: usize = 2;
        while i < records.len()
            invariant
                2 <= i <= records.len(),
                start == old(self)@,
                model == views(records@),
                with_children_from(blocks@, xa_system_use, parent@, start, model, 2)
                    == with_children_from(
                    blocks@,
                    xa_system_use,
                    parent@,
                    self@,
                    model,
                    i as int,
                ),
            decreases records.len() - i,
        {
            assert(model[i as int] == records@[i as int]@);
            match self.add_child(blocks, xa_system_use, parent, &records[i]) {
                Ok(_) => {},
                Err(error) => return Err(error),
            }
            i = i + 1;
        }
        Ok(())
    }

    fn add_contents(
        &mut self,
        blocks: &[Block],
        xa_system_use: bool,
        directory: &ParsedDirectory,
        contents: DirectoryContents,
    ) -> (result: Result<(), Error>)
        ensures
            match (
                result,
                with_contents(blocks@, xa_system_use, old(self)@, directory@, contents@),
            ) {
                (Ok(_), Ok(expected)) => final(self)@ == expected,
                (Err(error), Err(failure)) => error@ == failure,
                _ => false,
            },
    {
        let ghost before = self@;
        let path: &str = directory.path.as_str();
        let at: usize = find_entry_at(&self.entries, path);
        if at >= self.entries.len() {
            return Err(Error::new(ErrorKind::DirectoryEntryMissing));
        }
        let DirectoryContents { records, observation, slack } = contents;
        if records.len() < 2 {
            return Err(Error::new(ErrorKind::DotRecordsMissing));
        }
        assert(before.entries[at as int] == self.entries@[at as int]@);
        assert(contents@.records[1] == records@[1]@);
        self.entries[at].directory_slack = slack;
        assert(views(self.entries@) =~= before.entries.update(
            at as int,
            EntryModel { directory_slack: contents@.slack, ..before.entries[at as int] },
        ));
        let recorded: String = parse_recording_time(records[1].recording_time);
        self.parent_time = match find_parent_time(
            &self.entries,
            directory,
            recorded.as_str(),
            self.parent_time,
        ) {
            Ok(value) => value,
            Err(error) => return Err(error),
        };
        match check_listed_records(&records, xa_system_use) {
            Ok(_) => {},
            Err(error) => return Err(error),
        }
        self.observation.merge(observation);
        proof {
            let entries = before.entries.update(
                at as int,
                EntryModel { directory_slack: contents@.slack, ..before.entries[at as int] },
            );
            assert(self@ =~= (WalkModel {
                entries,
                parent_time: self.parent_time,
                observation: merged(before.observation, contents@.observation),
                ..before
            }));
        }
        let nothing: String = String::new();
        let parent: &str = if is_root(path) {
            nothing.as_str()
        } else {
            path
        };
        assert(parent@ =~= joined_parent(path@));
        self.add_children(blocks, xa_system_use, parent, &records)
    }

    fn add_directory(
        &mut self,
        blocks: &[Block],
        xa_system_use: bool,
        directory: &ParsedDirectory,
    ) -> (result: Result<(), Error>)
        ensures
            match (result, with_directory(blocks@, xa_system_use, old(self)@, directory@)) {
                (Ok(_), Ok(expected)) => final(self)@ == expected,
                (Err(error), Err(failure)) => error@ == failure,
                _ => false,
            },
    {
        reveal(with_directory);
        match read_directory(blocks, directory.extent, directory.length) {
            Err(error) => Err(
                Error::over(
                    ErrorKind::ReadingDirectory,
                    directory.path.as_str(),
                    directory.extent as u64,
                    error,
                ),
            ),
            Ok(contents) => self.add_contents(blocks, xa_system_use, directory, contents),
        }
    }

    /// Visits every directory that the walk has found and those found on the way.
    pub(crate) fn visit_all(&mut self, blocks: &[Block], xa_system_use: bool) -> (result: Result<(), Error>)
        ensures
            match (result, walked_from(blocks@, xa_system_use, old(self)@, 0, 0)) {
                (Ok(_), Ok(expected)) => final(self)@ == expected,
                (Err(error), Err(failure)) => error@ == failure,
                _ => false,
            },
    {
        let ghost start = self@;
        let mut index: usize = 0;
        let mut visited: u128 = 0;
        while index < self.directories.len()
            invariant
                start == old(self)@,
                visited <= blocks.len() + 1,
                walked_from(blocks@, xa_system_use, start, 0, 0) == walked_from(
                    blocks@,
                    xa_system_use,
                    self@,
                    index as int,
                    visited as int,
                ),
            decreases blocks.len() + 1 - visited, self.directories.len() - index,
        {
            assert(self@.directories[index as int] == self.directories@[index as int]@);
            let directory = copy_directory(&self.directories[index]);
            if index > 0 && directory.length == 0 {
                index = index + 1;
            } else {
                if is_visited(&self.directories, index) || visited > blocks.len() as u128 {
                    return Err(Error::at(ErrorKind::DirectoryCycle, directory.extent as u64));
                }
                let directory: ParsedDirectory = address(directory);
                match self.add_directory(blocks, xa_system_use, &directory) {
                    Ok(_) => {},
                    Err(error) => return Err(error),
                }
                index = index + 1;
                visited = visited + 1;
            }
        }
        Ok(())
    }
}

fn address(directory: ParsedDirectory) -> (addressed_directory: ParsedDirectory)
    ensures
        addressed_directory@ == addressed(directory@),
{
    if directory.path.as_str().is_empty() {
        ParsedDirectory {
            path: root_text(),
            extent: directory.extent,
            length: directory.length,
        }
    } else {
        directory
    }
}

pub(crate) fn copy_directory(directory: &ParsedDirectory) -> (copy: ParsedDirectory)
    ensures
        copy@ == directory@,
{
    ParsedDirectory {
        path: directory.path.clone(),
        extent: directory.extent,
        length: directory.length,
    }
}

pub(crate) fn is_visited(directories: &Vec<ParsedDirectory>, index: usize) -> (again: bool)
    requires
        index < directories.len(),
    ensures
        again == visits_again(views(directories@), index as int),
{
    let ghost model = views(directories@);
    assert(model[index as int] == directories@[index as int]@);
    let mut j: usize = 0;
    while j < index
        invariant
            j <= index < directories.len(),
            model == views(directories@),
            model[index as int] == directories@[index as int]@,
            forall|k: int|
                0 <= k < j ==> !((#[trigger] model[k]).length != 0 && model[k].extent
                    == model[index as int].extent),
        decreases index - j,
    {
        assert(model[j as int] == directories@[j as int]@);
        if directories[j].length != 0 && directories[j].extent == directories[index].extent {
            return true;
        }
        j = j + 1;
    }
    false
}

} // verus!
