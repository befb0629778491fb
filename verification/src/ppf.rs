//! Patches in the PPF 2 format: bytes to be put over a target image.
use std::collections::BTreeSet;

use vstd::prelude::*;
use vstd::slice::slice_subrange;

use crate::bytes::{
    append_bytes, copy_of, field, from_le32, le32, le32_bytes, le32_round_trip, put, put_bytes,
    read_le32, same_bytes,
};
use crate::error::{failure, failure_at, Error, ErrorKind, Failure};
use crate::model::{accepts, agrees, views, views_push};

verus! {

broadcast use {vstd::std_specs::btree::group_btree_axioms, vstd::laws_cmp::group_laws_cmp};

/// Where the bytes of the target that a patch repeats begin.
pub const BLOCK_CHECK_OFFSET: usize = 0x9320;

/// How many bytes of the target a patch repeats.
pub const BLOCK_CHECK_SIZE: usize = 1024;

/// The size of the header of a patch.
pub const PPF_HEADER_SIZE: usize = 1084;

/// What a patch that is written says of itself.
pub const PPF_DESCRIPTION: [u8; 50] = [
    0x67, 0x63, 0x64, 0x67, 0x6f, 0x6c, 0x64, 0x20, 0x70, 0x72,
    0x65, 0x2d, 0x45, 0x44, 0x43, 0x2f, 0x45, 0x43, 0x43, 0x20,
    0x6d, 0x61, 0x73, 0x74, 0x65, 0x72, 0x69, 0x6e, 0x67, 0x20,
    0x6f, 0x76, 0x65, 0x72, 0x6c, 0x61, 0x79, 0x20, 0x20, 0x20,
    0x20, 0x20, 0x20, 0x20, 0x20, 0x20, 0x20, 0x20, 0x20, 0x20,
];

/// The signature and the encoding method of a patch.
pub open spec fn ppf_signature() -> Seq<u8> {
    seq![80u8, 80u8, 70u8, 50u8, 48u8, 1u8]
}

/// Bytes to be put at an offset.
#[derive(Debug, PartialEq, Eq)]
pub struct PpfRecord {
    offset: u32,
    data: Vec<u8>,
}

/// The mathematical form of a [`PpfRecord`].
#[verifier::ext_equal]
pub struct PatchModel {
    pub offset: u32,
    pub data: Seq<u8>,
}

impl PatchModel {
    /// Where the bytes end.
    pub open spec fn end(self) -> int {
        self.offset + self.data.len()
    }
}

impl View for PpfRecord {
    type V = PatchModel;

    closed spec fn view(&self) -> PatchModel {
        PatchModel { offset: self.offset, data: self.data@ }
    }
}

/// What is wrong with the bytes of a record.
pub open spec fn record_limits(record: PatchModel) -> Result<(), Failure> {
    if record.data.len() == 0 || record.data.len() > 255 {
        Err(failure(ErrorKind::PpfRecordLength))
    } else if record.end() > u32::MAX {
        Err(failure(ErrorKind::PpfRecordRange))
    } else {
        Ok(())
    }
}

impl PpfRecord {
    #[verifier::type_invariant]
    spec fn within_limits(self) -> bool {
        record_limits(self@) is Ok
    }

    pub fn new(offset: u32, data: Vec<u8>) -> (result: Result<PpfRecord, Error>)
        ensures
            match result {
                Ok(record) => record@ == (PatchModel { offset, data: data@ }) && record_limits(
                    record@,
                ) is Ok,
                Err(error) => record_limits(PatchModel { offset, data: data@ }) == Err::<
                    (),
                    Failure,
                >(error@),
            },
    {
        if data.len() == 0 || data.len() > 255 {
            return Err(Error::new(ErrorKind::PpfRecordLength));
        }
        if offset as u64 + data.len() as u64 > 0xffff_ffff {
            return Err(Error::new(ErrorKind::PpfRecordRange));
        }
        Ok(PpfRecord { offset, data })
    }

    /// Where the bytes go.
    pub fn offset(&self) -> (offset: u32)
        ensures
            offset == self@.offset,
    {
        self.offset
    }

    /// The bytes.
    pub fn data(&self) -> (data: &[u8])
        ensures
            data@ == self@.data,
    {
        self.data.as_slice()
    }
}

/// A patch: the size of its target, some bytes of it, and what is put over it.
#[derive(Debug, PartialEq, Eq)]
pub struct Ppf2 {
    target_size: u32,
    block_check: [u8; BLOCK_CHECK_SIZE],
    records: Vec<PpfRecord>,
}

/// The mathematical form of a [`Ppf2`].
#[verifier::ext_equal]
pub struct PpfModel {
    pub target_size: u32,
    pub block_check: Seq<u8>,
    pub records: Seq<PatchModel>,
}

impl View for Ppf2 {
    type V = PpfModel;

    closed spec fn view(&self) -> PpfModel {
        PpfModel {
            target_size: self.target_size,
            block_check: self.block_check@,
            records: views(self.records@),
        }
    }
}

/// Every record lies within a target.
pub open spec fn all_inside(records: Seq<PatchModel>, size: int) -> bool {
    forall|i: int| 0 <= i < records.len() ==> (#[trigger] records[i]).end() <= size
}

impl PpfModel {
    /// The target is large enough for the bytes that are repeated, and every record
    /// has from 1 to 255 bytes within it.
    pub open spec fn valid(self) -> bool {
        &&& self.target_size >= 38688
        &&& self.block_check.len() == 1024
        &&& all_inside(self.records, self.target_size as int)
        &&& forall|i: int| 0 <= i < self.records.len() ==> record_limits(#[trigger] self.records[i]) is Ok
    }
}

fn check_records(target_size: u32, records: &Vec<PpfRecord>) -> (inside: bool)
    ensures
        inside == all_inside(views(records@), target_size as int),
        forall|i: int| 0 <= i < records.len() ==> record_limits(#[trigger] views(records@)[i]) is Ok,
{
    let ghost model = views(records@);
    let mut inside: bool = true;
    let mut i: usize = 0;
    while i < records.len()
        invariant
            i <= records.len(),
            model == views(records@),
            inside == forall|k: int| 0 <= k < i ==> (#[trigger] model[k]).end() <= target_size,
            forall|k: int| 0 <= k < i ==> record_limits(#[trigger] model[k]) is Ok,
        decreases records.len() - i,
    {
        let record: &PpfRecord = &records[i];
        assert(model[i as int] == record@);
        proof {
            use_type_invariant(record);
        }
        if record.offset as u64 + record.data.len() as u64 > target_size as u64 {
            inside = false;
            assert(!(model[i as int].end() <= target_size));
        }
        i = i + 1;
    }
    inside
}

/// The bytes of the target that a patch repeats.
pub open spec fn check_of(target: Seq<u8>) -> Seq<u8> {
    target.subrange(37664, 38688)
}

/// The patch of a target with records.
pub open spec fn made_patch(target: Seq<u8>, records: Seq<PatchModel>) -> Result<PpfModel, Failure> {
    if target.len() > u32::MAX {
        Err(failure(ErrorKind::IntegerConversion))
    } else if target.len() < 38688 {
        Err(failure(ErrorKind::PpfTargetSmall))
    } else if !all_inside(records, target.len() as int) {
        Err(failure(ErrorKind::PpfRecordOutside))
    } else {
        Ok(PpfModel { target_size: target.len() as u32, block_check: check_of(target), records })
    }
}

/// `read`, and then the records from `position` on.
pub open spec fn records_from(bytes: Seq<u8>, position: int, read: Seq<PatchModel>) -> Result<
    Seq<PatchModel>,
    Failure,
>
    decreases bytes.len() - position,
{
    if position < 0 || position >= bytes.len() {
        Ok(read)
    } else if bytes.len() - position < 5 {
        Err(failure(ErrorKind::PpfRecordHeader))
    } else {
        let length = bytes[position + 4] as int;
        let record = PatchModel {
            offset: from_le32(field(bytes, position, 4)),
            data: bytes.subrange(position + 5, position + 5 + length),
        };
        if length == 0 {
            Err(failure(ErrorKind::PpfRecordEmpty))
        } else if bytes.len() - position - 5 < length {
            Err(failure(ErrorKind::PpfRecordData))
        } else {
            match record_limits(record) {
                Err(failure) => Err(failure),
                Ok(_) => records_from(bytes, position + 5 + length, read.push(record)),
            }
        }
    }
}

/// The patch that bytes hold.
pub open spec fn parsed_patch(bytes: Seq<u8>) -> Result<PpfModel, Failure> {
    let size = from_le32(field(bytes, 56, 4));
    if bytes.len() < 1084 {
        Err(failure(ErrorKind::PpfShort))
    } else if bytes.subrange(0, 5) != ppf_signature().take(5) {
        Err(failure(ErrorKind::PpfMagic))
    } else if bytes[5] != 1 {
        Err(failure_at(ErrorKind::PpfEncoding, bytes[5] as int))
    } else if size < 38688 {
        Err(failure(ErrorKind::PpfTargetSmall))
    } else {
        match records_from(bytes, 1084, Seq::empty()) {
            Err(failure) => Err(failure),
            Ok(records) => if all_inside(records, size as int) {
                Ok(
                    PpfModel {
                        target_size: size,
                        block_check: bytes.subrange(60, 1084),
                        records,
                    },
                )
            } else {
                Err(failure(ErrorKind::PpfRecordOutside))
            },
        }
    }
}

/// A record as it is stored.
pub open spec fn record_stored(record: PatchModel) -> Seq<u8> {
    le32(record.offset) + seq![record.data.len() as u8] + record.data
}

/// `written`, and then the records from `index` on.
pub open spec fn records_stored(records: Seq<PatchModel>, index: int, written: Seq<u8>) -> Seq<u8>
    decreases records.len() - index,
{
    if index < 0 || index >= records.len() {
        written
    } else {
        records_stored(records, index + 1, written + record_stored(records[index]))
    }
}

/// The header of a patch.
pub open spec fn header_stored(patch: PpfModel) -> Seq<u8> {
    ppf_signature() + PPF_DESCRIPTION@ + le32(patch.target_size) + patch.block_check
}

/// A patch as it is stored.
pub open spec fn patch_stored(patch: PpfModel) -> Seq<u8> {
    records_stored(patch.records, 0, header_stored(patch))
}

/// What is wrong with the target of a patch.
pub open spec fn target_check(patch: PpfModel, target: Seq<u8>) -> Result<(), Failure> {
    if target.len() != patch.target_size {
        Err(failure(ErrorKind::PpfTargetSize))
    } else if check_of(target) != patch.block_check {
        Err(failure(ErrorKind::PpfBlockCheck))
    } else {
        Ok(())
    }
}

/// A target with the records from `index` on put over it, in their order.
pub open spec fn patched_from(records: Seq<PatchModel>, index: int, target: Seq<u8>) -> Seq<u8>
    decreases records.len() - index,
{
    if index < 0 || index >= records.len() {
        target
    } else {
        patched_from(
            records,
            index + 1,
            put(target, records[index].offset as int, records[index].data),
        )
    }
}

/// A record touches a sector.
pub open spec fn touches(record: PatchModel, size: usize, sector: usize) -> bool {
    record.offset as int / size as int <= sector <= (record.end() - 1) / size as int
}

/// The sectors that the first `count` records touch.
pub open spec fn touched_by(records: Seq<PatchModel>, size: usize, count: int) -> Set<usize> {
    Set::new(
        |sector: usize|
            exists|i: int| 0 <= i < count && touches(#[trigger] records[i], size, sector),
    )
}

fn to_check(bytes: &[u8]) -> (check: [u8; BLOCK_CHECK_SIZE])
    requires
        bytes.len() == 1024,
    ensures
        check@ == bytes@,
{
    let mut check: [u8; BLOCK_CHECK_SIZE] = [0u8; 1024];
    let mut i: usize = 0;
    while i < 1024
        invariant
            i <= 1024,
            bytes.len() == 1024,
            check@.len() == 1024,
            forall|j: int| 0 <= j < i ==> check@[j] == bytes@[j],
        decreases 1024 - i,
    {
        check[i] = bytes[i];
        i = i + 1;
    }
    assert(check@ =~= bytes@);
    check
}

fn read_record(bytes: &[u8], position: usize) -> (result: Result<PpfRecord, Error>)
    requires
        position < bytes.len(),
    ensures
        match result {
            Ok(record) => {
                &&& bytes.len() - position >= 5
                &&& record@.data.len() == bytes@[position + 4] > 0
                &&& record_limits(record@) is Ok
                &&& position + 5 + record@.data.len() <= bytes.len()
                &&& forall|read: Seq<PatchModel>|
                    #[trigger] records_from(bytes@, position as int, read) == records_from(
                        bytes@,
                        position + 5 + record@.data.len(),
                        read.push(record@),
                    )
            },
            Err(error) => forall|read: Seq<PatchModel>|
                #[trigger] records_from(bytes@, position as int, read) == Err::<
                    Seq<PatchModel>,
                    Failure,
                >(error@),
        },
{
    if bytes.len() - position < 5 {
        return Err(Error::new(ErrorKind::PpfRecordHeader));
    }
    let offset: u32 = read_le32(bytes, position);
    let length: usize = bytes[position + 4] as usize;
    if length == 0 {
        return Err(Error::new(ErrorKind::PpfRecordEmpty));
    }
    if bytes.len() - position - 5 < length {
        return Err(Error::new(ErrorKind::PpfRecordData));
    }
    let data: Vec<u8> = copy_of(bytes, position + 5, length);
    assert(data@ =~= bytes@.subrange(position + 5, position + 5 + length));
    PpfRecord::new(offset, data)
}

impl Ppf2 {
    #[verifier::type_invariant]
    spec fn is_valid(self) -> bool {
        self@.valid()
    }

    /// The patch is valid.
    pub fn new(target: &[u8], records: Vec<PpfRecord>) -> (result: Result<Ppf2, Error>)
        ensures
            agrees(result, made_patch(target@, views(records@))),
            result matches Ok(patch) ==> patch@.valid(),
    {
        if target.len() as u64 > 0xffff_ffff {
            return Err(Error::new(ErrorKind::IntegerConversion));
        }
        if target.len() < 38688 {
            return Err(Error::new(ErrorKind::PpfTargetSmall));
        }
        let target_size: u32 = target.len() as u32;
        if !check_records(target_size, &records) {
            return Err(Error::new(ErrorKind::PpfRecordOutside));
        }
        let block_check: [u8; BLOCK_CHECK_SIZE] = to_check(
            slice_subrange(target, 37664, 38688),
        );
        Ok(Ppf2 { target_size, block_check, records })
    }

    /// Reads a patch.
    pub fn from_bytes(bytes: &[u8]) -> (result: Result<Ppf2, Error>)
        ensures
            agrees(result, parsed_patch(bytes@)),
            result matches Ok(patch) ==> patch@.valid(),
    {
        if bytes.len() < 1084 {
            return Err(Error::new(ErrorKind::PpfShort));
        }
        let magic: [u8; 5] = [80u8, 80u8, 70u8, 50u8, 48u8];
        assert(magic@ =~= ppf_signature().take(5));
        if !same_bytes(slice_subrange(bytes, 0, 5), magic.as_slice()) {
            return Err(Error::new(ErrorKind::PpfMagic));
        }
        if bytes[5] != 1 {
            return Err(Error::at(ErrorKind::PpfEncoding, bytes[5] as u64));
        }
        let target_size: u32 = read_le32(bytes, 56);
        if target_size < 38688 {
            return Err(Error::new(ErrorKind::PpfTargetSmall));
        }
        let block_check: [u8; BLOCK_CHECK_SIZE] = to_check(slice_subrange(bytes, 60, 1084));
        let mut records: Vec<PpfRecord> = Vec::new();
        let mut position: usize = 1084;
        assert(views(records@) =~= Seq::<PatchModel>::empty());
        while position < bytes.len()
            invariant
                1084 <= position <= bytes.len(),
                target_size >= 38688,
                bytes@.subrange(0, 5) == ppf_signature().take(5),
                bytes@[5] == 1,
                target_size == from_le32(field(bytes@, 56, 4)),
                records_from(bytes@, 1084, Seq::empty()) == records_from(
                    bytes@,
                    position as int,
                    views(records@),
                ),
            decreases bytes.len() - position,
        {
            let record: PpfRecord = match read_record(bytes, position) {
                Ok(value) => value,
                Err(error) => return Err(error),
            };
            let length: usize = bytes[position + 4] as usize;
            proof {
                views_push(records@, record);
            }
            records.push(record);
            position = position + 5 + length;
        }
        if !check_records(target_size, &records) {
            return Err(Error::new(ErrorKind::PpfRecordOutside));
        }
        Ok(Ppf2 { target_size, block_check, records })
    }

    /// Writes a patch.
    pub fn to_bytes(&self) -> (result: Result<Vec<u8>, Error>)
        ensures
            result matches Ok(bytes) && bytes@ == patch_stored(self@),
    {
        proof {
            use_type_invariant(self);
        }
        let signature: [u8; 6] = [80u8, 80u8, 70u8, 50u8, 48u8, 1u8];
        assert(signature@ =~= ppf_signature());
        let ghost model = views(self.records@);
        let mut bytes: Vec<u8> = Vec::new();
        append_bytes(&mut bytes, signature.as_slice());
        append_bytes(&mut bytes, PPF_DESCRIPTION.as_slice());
        append_bytes(&mut bytes, le32_bytes(self.target_size).as_slice());
        append_bytes(&mut bytes, self.block_check.as_slice());
        assert(bytes@ =~= header_stored(self@));
        let mut i: usize = 0;
        while i < self.records.len()
            invariant
                i <= self.records.len(),
                model == views(self.records@),
                model == self@.records,
                self@.valid(),
                patch_stored(self@) == records_stored(model, i as int, bytes@),
            decreases self.records.len() - i,
        {
            let record: &PpfRecord = &self.records[i];
            assert(model[i as int] == record@);
            assert(record_limits(model[i as int]) is Ok);
            let ghost before = bytes@;
            append_bytes(&mut bytes, le32_bytes(record.offset).as_slice());
            bytes.push(record.data.len() as u8);
            append_bytes(&mut bytes, record.data.as_slice());
            assert(bytes@ =~= before + record_stored(record@));
            i = i + 1;
        }
        Ok(bytes)
    }

    /// Checks that an image is the target of the patch.
    pub fn validate_target(&self, target: &[u8]) -> (result: Result<(), Error>)
        ensures
            accepts(result, target_check(self@, target@)),
    {
        proof {
            use_type_invariant(self);
        }
        if target.len() as u64 != self.target_size as u64 {
            return Err(Error::new(ErrorKind::PpfTargetSize));
        }
        if !same_bytes(
            slice_subrange(target, 37664, 38688),
            self.block_check.as_slice(),
        ) {
            return Err(Error::new(ErrorKind::PpfBlockCheck));
        }
        Ok(())
    }

    /// Puts the records over an image, in their order, and tells which sectors they
    /// touch.
    pub fn apply(&self, target: &mut Vec<u8>, sector_size: usize) -> (result: Result<
        BTreeSet<usize>,
        Error,
    >)
        ensures
            match result {
                Ok(touched) => {
                    &&& sector_size != 0
                    &&& target_check(self@, old(target)@) is Ok
                    &&& final(target)@ == patched_from(self@.records, 0, old(target)@)
                    &&& touched@ == touched_by(
                        self@.records,
                        sector_size,
                        self@.records.len() as int,
                    )
                },
                Err(error) => {
                    &&& final(target)@ == old(target)@
                    &&& if sector_size == 0 {
                        error@ == failure(ErrorKind::PpfSectorSize)
                    } else {
                        target_check(self@, old(target)@) == Err::<(), Failure>(error@)
                    }
                },
            },
    {
        if sector_size == 0 {
            return Err(Error::new(ErrorKind::PpfSectorSize));
        }
        match self.validate_target(target.as_slice()) {
            Ok(_) => {},
            Err(error) => return Err(error),
        }
        proof {
            use_type_invariant(self);
        }
        let ghost start = target@;
        let ghost model = views(self.records@);
        let mut touched: BTreeSet<usize> = BTreeSet::new();
        let mut i: usize = 0;
        assert(touched@ =~= touched_by(model, sector_size, 0));
        while i < self.records.len()
            invariant
                i <= self.records.len(),
                start == old(target)@,
                target@.len() == start.len(),
                start.len() == self@.target_size,
                sector_size != 0,
                model == views(self.records@),
                model == self@.records,
                self@.valid(),
                target_check(self@, start) is Ok,
                patched_from(model, 0, start) == patched_from(model, i as int, target@),
                touched@ == touched_by(model, sector_size, i as int),
            decreases self.records.len() - i,
        {
            let record: &PpfRecord = &self.records[i];
            assert(model[i as int] == record@);
            assert(record_limits(model[i as int]) is Ok);
            assert(model[i as int].end() <= self@.target_size);
            let offset: usize = record.offset as usize;
            let end: usize = offset + record.data.len();
            put_bytes(target, offset, record.data.as_slice());
            let last: usize = (end - 1) / sector_size;
            let ghost before = touched@;
            insert_sectors(&mut touched, offset / sector_size, last);
            proof {
                let after = touched_by(model, sector_size, i + 1);
                assert forall|sector: usize| after.contains(sector) <==> #[trigger] touched@.contains(
                    sector,
                ) by {
                    if after.contains(sector) {
                        let k = choose|k: int|
                            0 <= k < i + 1 && touches(#[trigger] model[k], sector_size, sector);
                        if k < i {
                            assert(before.contains(sector));
                        }
                    }
                    if touched@.contains(sector) && !before.contains(sector) {
                        assert(touches(model[i as int], sector_size, sector));
                    }
                }
                assert(touched@ =~= after);
            }
            i = i + 1;
        }
        Ok(touched)
    }

    /// The records of the patch.
    pub fn records(&self) -> (records: &[PpfRecord])
        ensures
            views(records@) == self@.records,
    {
        self.records.as_slice()
    }
}

fn insert_sectors(touched: &mut BTreeSet<usize>, first: usize, last: usize)
    ensures
        final(touched)@ == old(touched)@.union(
            Set::new(|sector: usize| first <= sector <= last),
        ),
{
    let ghost start = touched@;
    if first > last {
        assert(touched@ =~= start.union(Set::new(|sector: usize| first <= sector <= last)));
        return;
    }
    let mut sector: usize = first;
    touched.insert(sector);
    assert(touched@ =~= start.union(Set::new(|s: usize| first <= s <= sector)));
    while sector < last
        invariant
            first <= sector <= last,
            touched@ == start.union(Set::new(|s: usize| first <= s <= sector)),
        decreases last - sector,
    {
        let ghost before = sector;
        sector = sector + 1;
        touched.insert(sector);
        assert(touched@ =~= start.union(Set::new(|s: usize| first <= s <= sector)));
    }
}

/// The bytes that were written first stay first.
pub proof fn stored_keeps(records: Seq<PatchModel>, index: int, written: Seq<u8>)
    ensures
        ({
            let all = records_stored(records, index, written);
            &&& all.len() >= written.len()
            &&& all.take(written.len() as int) == written
        }),
    decreases records.len() - index,
{
    let all = records_stored(records, index, written);
    if 0 <= index < records.len() {
        let longer = written + record_stored(records[index]);
        stored_keeps(records, index + 1, longer);
        assert(all.take(written.len() as int) =~= all.take(longer.len() as int).take(
            written.len() as int,
        ));
        assert(longer.take(written.len() as int) =~= written);
    } else {
        assert(all.take(written.len() as int) =~= written);
    }
}

/// Records that are stored are read back.
proof fn stored_reads_back(records: Seq<PatchModel>, index: int, written: Seq<u8>, bytes: Seq<u8>)
    requires
        0 <= index <= records.len(),
        bytes == records_stored(records, index, written),
        forall|i: int| 0 <= i < records.len() ==> record_limits(#[trigger] records[i]) is Ok,
    ensures
        records_from(bytes, written.len() as int, records.take(index)) == Ok::<
            Seq<PatchModel>,
            Failure,
        >(records),
    decreases records.len() - index,
{
    if index < records.len() {
        let record = records[index];
        assert(record_limits(record) is Ok);
        let stored = record_stored(record);
        let longer = written + stored;
        let position = written.len() as int;
        stored_reads_back(records, index + 1, longer, bytes);
        stored_keeps(records, index + 1, longer);
        let head = bytes.take(longer.len() as int);
        assert(head == longer);
        assert(stored.len() == 5 + record.data.len());
        assert(field(bytes, position, 4) =~= le32(record.offset)) by {
            assert forall|k: int| 0 <= k < 4 implies bytes[position + k] == le32(record.offset)[k] by {
                assert(bytes[position + k] == head[position + k]);
                assert(longer[position + k] == stored[k]);
            }
        }
        le32_round_trip(record.offset);
        assert(bytes[position + 4] == record.data.len()) by {
            assert(bytes[position + 4] == head[position + 4]);
            assert(longer[position + 4] == stored[4]);
        }
        assert(bytes.subrange(position + 5, position + 5 + record.data.len()) =~= record.data) by {
            assert forall|k: int| 0 <= k < record.data.len() implies bytes[position + 5 + k]
                == record.data[k] by {
                assert(bytes[position + 5 + k] == head[position + 5 + k]);
                assert(longer[position + 5 + k] == stored[5 + k]);
            }
        }
        assert(records.take(index).push(record) =~= records.take(index + 1));
    } else {
        assert(records.take(index) =~= records);
    }
}

/// A patch that is written is read as it was.
pub proof fn patch_survives(patch: PpfModel)
    requires
        patch.valid(),
    ensures
        parsed_patch(patch_stored(patch)) == Ok::<PpfModel, Failure>(patch),
{
    let header = header_stored(patch);
    let bytes = patch_stored(patch);
    stored_keeps(patch.records, 0, header);
    assert(patch.records.take(0) =~= Seq::empty());
    stored_reads_back(patch.records, 0, header, bytes);
    assert(header.len() == 1084);
    let head = bytes.take(1084);
    assert(bytes.subrange(0, 5) =~= head.subrange(0, 5));
    assert(head.subrange(0, 5) =~= ppf_signature().take(5));
    assert(bytes[5] == head[5]);
    assert(field(bytes, 56, 4) =~= head.subrange(56, 60));
    assert(head.subrange(56, 60) =~= le32(patch.target_size));
    le32_round_trip(patch.target_size);
    assert(bytes.subrange(60, 1084) =~= head.subrange(60, 1084));
    assert(head.subrange(60, 1084) =~= patch.block_check);
}

/// A record puts its bytes over the target.
proof fn put_in_place(target: Seq<u8>, record: PatchModel, i: int)
    requires
        0 <= i < target.len(),
    ensures
        put(target, record.offset as int, record.data)[i] == if record.offset <= i < record.end() {
            record.data[i - record.offset]
        } else {
            target[i]
        },
{
}

/// A patch changes nothing outside its records, and keeps the size of its target.
pub proof fn patch_is_local(records: Seq<PatchModel>, index: int, target: Seq<u8>, i: int)
    requires
        0 <= index <= records.len(),
        0 <= i < target.len(),
        forall|k: int|
            index <= k < records.len() ==> !((#[trigger] records[k]).offset <= i < records[k].end()),
    ensures
        patched_from(records, index, target).len() == target.len(),
        patched_from(records, index, target)[i] == target[i],
    decreases records.len() - index,
{
    if index < records.len() {
        let next = put(target, records[index].offset as int, records[index].data);
        put_in_place(target, records[index], i);
        assert(!(records[index].offset <= i < records[index].end()));
        patch_is_local(records, index + 1, next, i);
    }
}

/// Where records overlap, the last one counts.
pub proof fn last_record_counts(records: Seq<PatchModel>, index: int, target: Seq<u8>, last: int, i: int)
    requires
        0 <= index <= last < records.len(),
        0 <= i < target.len(),
        records[last].offset <= i < records[last].end(),
        forall|k: int|
            last < k < records.len() ==> !((#[trigger] records[k]).offset <= i < records[k].end()),
    ensures
        patched_from(records, index, target)[i] == records[last].data[i - records[last].offset],
    decreases records.len() - index,
{
    let next = put(target, records[index].offset as int, records[index].data);
    put_in_place(target, records[index], i);
    if index < last {
        last_record_counts(records, index + 1, next, last, i);
    } else {
        patch_is_local(records, index + 1, next, i);
    }
}

} // verus!
