//! Reading directories out of an image.
use vstd::prelude::*;
use vstd::slice::slice_subrange;

use crate::bytes::{all_are, all_bytes_are, measure_used, used_length, used_length_is_last};
use crate::error::{failure, Error, ErrorKind, Failure};
use crate::hexcode::{encode, hex_text};
use crate::iso9660::description::{DirectorySlack, SlackModel};
use crate::iso9660::path_table::{extent_bytes, extent_inside, read_extent};
use crate::iso9660::record::{parse_record, parsed_record, Record, RecordModel};
use crate::model::{opt_view, views, views_push};
use crate::raw_cd::Block;

verus! {

/// What the records of directories show of how they are packed into blocks.
#[derive(Clone, Copy, Debug, PartialEq, Eq, Structural)]
pub struct DirectoryPackingObservation {
    /// A record that would have filled a block to its end stands in the next one.
    pub skipped_exact_fit: bool,
    /// A record fills a block to its end.
    pub packed_exact_fit: bool,
}

/// Nothing has been seen yet.
pub open spec fn nothing_observed() -> DirectoryPackingObservation {
    DirectoryPackingObservation { skipped_exact_fit: false, packed_exact_fit: false }
}

/// What two observations show together.
pub open spec fn merged(
    left: DirectoryPackingObservation,
    right: DirectoryPackingObservation,
) -> DirectoryPackingObservation {
    DirectoryPackingObservation {
        skipped_exact_fit: left.skipped_exact_fit || right.skipped_exact_fit,
        packed_exact_fit: left.packed_exact_fit || right.packed_exact_fit,
    }
}

impl Default for DirectoryPackingObservation {
    fn default() -> (observation: DirectoryPackingObservation)
        ensures
            observation == nothing_observed(),
    {
        DirectoryPackingObservation { skipped_exact_fit: false, packed_exact_fit: false }
    }
}

impl DirectoryPackingObservation {
    pub fn merge(&mut self, other: DirectoryPackingObservation)
        ensures
            *final(self) == merged(*old(self), other),
    {
        self.skipped_exact_fit = self.skipped_exact_fit || other.skipped_exact_fit;
        self.packed_exact_fit = self.packed_exact_fit || other.packed_exact_fit;
    }
}

/// What a directory holds: its records, how they are packed, and what follows them.
pub struct DirectoryContents {
    pub records: Vec<Record>,
    pub observation: DirectoryPackingObservation,
    pub slack: Option<DirectorySlack>,
}

/// The mathematical form of [`DirectoryContents`].
#[verifier::ext_equal]
pub struct ContentsModel {
    pub records: Seq<RecordModel>,
    pub observation: DirectoryPackingObservation,
    pub slack: Option<SlackModel>,
}

impl View for DirectoryContents {
    type V = ContentsModel;

    open spec fn view(&self) -> ContentsModel {
        ContentsModel {
            records: views(self.records@),
            observation: self.observation,
            slack: opt_view(self.slack),
        }
    }
}

/// The records that have been read, how they are packed, and where the last ends.
#[verifier::ext_equal]
pub struct RecordRun {
    pub records: Seq<RecordModel>,
    pub observation: DirectoryPackingObservation,
    pub end: int,
}

/// Where the block after the one at an offset begins.
pub open spec fn next_block(offset: int) -> int {
    (offset / 2048 + 1) * 2048
}

/// The rest of a block is empty though the first record of the next would have
/// filled it exactly.
pub open spec fn skips_exact_fit(bytes: Seq<u8>, offset: int) -> bool {
    let next = next_block(offset);
    &&& next < bytes.len()
    &&& bytes[next] != 0
    &&& next - offset == bytes[next]
    &&& all_are(bytes.subrange(offset, next), 0)
}

/// `run`, and then the records from `offset` on.
pub open spec fn record_run_from(bytes: Seq<u8>, offset: int, run: RecordRun) -> Result<
    RecordRun,
    Failure,
>
    decreases
        if offset < bytes.len() {
            bytes.len() - offset
        } else {
            0
        },
{
    if offset < 0 || offset >= bytes.len() {
        Ok(run)
    } else if bytes[offset] == 0 {
        record_run_from(
            bytes,
            next_block(offset),
            RecordRun {
                observation: DirectoryPackingObservation {
                    skipped_exact_fit: run.observation.skipped_exact_fit || skips_exact_fit(
                        bytes,
                        offset,
                    ),
                    ..run.observation
                },
                ..run
            },
        )
    } else {
        let end = offset + bytes[offset];
        if end > bytes.len() {
            Err(failure(ErrorKind::RecordTruncated))
        } else {
            match parsed_record(bytes.subrange(offset, end)) {
                Err(failure) => Err(failure),
                Ok(record) => record_run_from(
                    bytes,
                    end,
                    RecordRun {
                        records: run.records.push(record),
                        observation: DirectoryPackingObservation {
                            packed_exact_fit: run.observation.packed_exact_fit || end % 2048 == 0,
                            ..run.observation
                        },
                        end,
                    },
                ),
            }
        }
    }
}

/// The records of a directory.
pub open spec fn record_run(bytes: Seq<u8>) -> Result<RecordRun, Failure> {
    record_run_from(
        bytes,
        0,
        RecordRun { records: Seq::empty(), observation: nothing_observed(), end: 0 },
    )
}

/// The number of zeros that bytes begin with, from `index` on.
pub open spec fn leading_zeros(bytes: Seq<u8>, index: int) -> int
    decreases bytes.len() - index,
{
    if index < 0 || index >= bytes.len() || bytes[index] != 0 {
        0
    } else {
        1 + leading_zeros(bytes, index + 1)
    }
}

/// What follows the records of a directory, if it is not all zero.
pub open spec fn slack_after(bytes: Seq<u8>, end: int) -> Option<SlackModel> {
    let rest = bytes.skip(end);
    let used = used_length(rest, 0) as int;
    if used == 0 {
        None
    } else {
        let first = leading_zeros(rest, 0);
        Some(
            SlackModel { offset: (end + first) as u32, hex: hex_text(rest.subrange(first, used)) },
        )
    }
}

/// The contents of the directory at an extent.
pub open spec fn directory_contents(blocks: Seq<Block>, extent: u32, length: u32) -> Result<
    ContentsModel,
    Failure,
> {
    let bytes = extent_bytes(blocks, extent as int, length as int);
    if !extent_inside(blocks, extent as int, length as int) {
        Err(failure(ErrorKind::DirectoryOutside))
    } else {
        match record_run(bytes) {
            Err(failure) => Err(failure),
            Ok(run) => Ok(
                ContentsModel {
                    records: run.records,
                    observation: run.observation,
                    slack: slack_after(bytes, run.end),
                },
            ),
        }
    }
}

/// Bytes begin with no more zeros than there are bytes; the first byte after them
/// is none.
pub proof fn leading_zeros_bound(bytes: Seq<u8>, index: int)
    requires
        0 <= index <= bytes.len(),
    ensures
        0 <= leading_zeros(bytes, index) <= bytes.len() - index,
        forall|i: int| index <= i < index + leading_zeros(bytes, index) ==> bytes[i] == 0,
    decreases bytes.len() - index,
{
    if index < bytes.len() && bytes[index] == 0 {
        leading_zeros_bound(bytes, index + 1);
    }
}

fn count_leading_zeros(bytes: &[u8]) -> (count: usize)
    ensures
        count == leading_zeros(bytes@, 0),
        count <= bytes.len(),
{
    let mut count: usize = 0;
    while count < bytes.len() && bytes[count] == 0
        invariant
            count <= bytes.len(),
            leading_zeros(bytes@, 0) == count + leading_zeros(bytes@, count as int),
        decreases bytes.len() - count,
    {
        count = count + 1;
    }
    count
}

fn find_slack(bytes: &[u8], end: usize) -> (slack: Option<DirectorySlack>)
    requires
        end <= bytes.len() <= u32::MAX,
    ensures
        opt_view(slack) == slack_after(bytes@, end as int),
{
    let rest: &[u8] = slice_subrange(bytes, end, bytes.len());
    assert(rest@ =~= bytes@.skip(end as int));
    let used: usize = measure_used(rest, 0);
    if used == 0 {
        return None;
    }
    let first: usize = count_leading_zeros(rest);
    proof {
        used_length_is_last(rest@, 0);
        leading_zeros_bound(rest@, 0);
        assert(first < used);
    }
    let hex: String = encode(slice_subrange(rest, first, used));
    let slack = DirectorySlack { offset: (end + first) as u32, hex };
    assert(slack@ =~= slack_after(bytes@, end as int)->Some_0);
    Some(slack)
}

/// Reads the directory at an extent.
#[verifier::rlimit(60)]
#[verifier::spinoff_prover]
pub fn read_directory(blocks: &[Block], extent: u32, length: u32) -> (result: Result<
    DirectoryContents,
    Error,
>)
    ensures
        match (result, directory_contents(blocks@, extent, length)) {
            (Ok(contents), Ok(expected)) => contents@ == expected,
            (Err(error), Err(failure)) => error@ == failure,
            _ => false,
        },
{
    let count: u64 = if length == 0 {
        0
    } else {
        (length as u64 - 1) / 2048 + 1
    };
    if extent as u64 + count > blocks.len() as u64 {
        return Err(Error::new(ErrorKind::DirectoryOutside));
    }
    let bytes: Vec<u8> = read_extent(blocks, extent, length);
    let mut records: Vec<Record> = Vec::new();
    let mut observation: DirectoryPackingObservation = DirectoryPackingObservation::default();
    let mut offset: usize = 0;
    let mut end: usize = 0;
    assert(views(records@) =~= Seq::<RecordModel>::empty());
    while offset < bytes.len()
        invariant
            end <= bytes.len(),
            bytes.len() <= u32::MAX,
            bytes@ == extent_bytes(blocks@, extent as int, length as int),
            extent_inside(blocks@, extent as int, length as int),
            record_run(bytes@) == record_run_from(
                bytes@,
                offset as int,
                RecordRun { records: views(records@), observation, end: end as int },
            ),
        decreases bytes.len() - offset,
    {
        let size: usize = bytes[offset] as usize;
        if size == 0 {
            let room: usize = 2048 - offset % 2048;
            assert(offset + room == next_block(offset as int));
            if room < bytes.len() - offset {
                let next: usize = offset + room;
                if bytes[next] != 0 && room == bytes[next] as usize && all_bytes_are(
                    slice_subrange(bytes.as_slice(), offset, next),
                    0,
                ) {
                    observation.skipped_exact_fit = true;
                }
                offset = next;
            } else {
                offset = bytes.len();
                assert(record_run_from(
                    bytes@,
                    next_block(offset as int),
                    RecordRun { records: views(records@), observation, end: end as int },
                ) == record_run_from(
                    bytes@,
                    offset as int,
                    RecordRun { records: views(records@), observation, end: end as int },
                ));
            }
        } else {
            if size > bytes.len() - offset {
                return Err(Error::new(ErrorKind::RecordTruncated));
            }
            let record: Record = match parse_record(
                slice_subrange(bytes.as_slice(), offset, offset + size),
            ) {
                Ok(value) => value,
                Err(error) => return Err(error),
            };
            proof {
                views_push(records@, record);
            }
            records.push(record);
            offset = offset + size;
            end = offset;
            if offset % 2048 == 0 {
                observation.packed_exact_fit = true;
            }
        }
    }
    let slack: Option<DirectorySlack> = find_slack(bytes.as_slice(), end);
    Ok(DirectoryContents { records, observation, slack })
}

/// What follows the data of a file in its last block, if it is not all zero and
/// lies in the image.
pub open spec fn allocation_padding(blocks: Seq<Block>, record: RecordModel) -> Option<Seq<char>> {
    let offset = (record.length % 2048) as int;
    let last = record.extent + record.length / 2048;
    let rest = blocks[last]@.skip(offset);
    if offset == 0 || last > u32::MAX || last >= blocks.len() || used_length(rest, 0) == 0 {
        None
    } else {
        Some(hex_text(rest.take(used_length(rest, 0) as int)))
    }
}

/// Finds what follows the data of a file in its last block.
pub fn file_allocation_padding_hex(blocks: &[Block], record: &Record) -> (padding: Option<String>)
    ensures
        opt_view(padding) == allocation_padding(blocks@, record@),
{
    let offset: usize = (record.length % 2048) as usize;
    if offset == 0 {
        return None;
    }
    let last: u32 = match record.extent.checked_add(record.length / 2048) {
        Some(last) => last,
        None => return None,
    };
    if last as u64 >= blocks.len() as u64 {
        return None;
    }
    let block: &Block = &blocks[last as usize];
    let rest: &[u8] = slice_subrange(block.as_slice(), offset, 2048);
    assert(rest@ =~= blocks@[last as int]@.skip(offset as int));
    let used: usize = measure_used(rest, 0);
    proof {
        used_length_is_last(rest@, 0);
    }
    if used == 0 {
        return None;
    }
    let part: &[u8] = slice_subrange(rest, 0, used);
    assert(part@ =~= rest@.take(used as int));
    Some(encode(part))
}

} // verus!
