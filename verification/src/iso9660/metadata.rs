//! Finding the order of an image's metadata.
use vstd::prelude::*;

use crate::bytes::{all_are, all_bytes_are};
use crate::error::{failure, Error, ErrorKind, Failure};
use crate::iso9660::description::{
    Iso9660, IsoModel, JolietModel, JolietVolume, MetadataLayoutItem, MetadataPathTable,
};
use crate::iso9660::descriptor::ok;
use crate::iso9660::order::{order_by, places, stable_order};
use crate::iso9660::placing::GapPlacement;
use crate::iso9660::tree::{
    authored_nodes, collect_authored_nodes, collect_joliet_children, directory_record_lengths,
    joliet_children, records_length, Node, NodeModel,
};
use crate::iso9660::walk::{FoundModel, ParsedDirectory};
use crate::manifest::{DirectoryLengthPolicy, DirectoryRecordPacking, GapKind, MetadataVolume};
use crate::model::{ceil_div, ceil_div_u32, first_failure, views};
use crate::raw_cd::Block;

verus! {

/// The path tables of a volume: the little-endian one and its copy, the big-endian
/// one and its copy, and the blocks that each takes.
#[derive(Clone, Debug)]
pub struct ParsedPathTables {
    pub extents: [u32; 4],
    pub blocks: u32,
}

/// The mathematical form of [`ParsedPathTables`].
#[verifier::ext_equal]
pub struct TablesModel {
    pub extents: Seq<u32>,
    pub blocks: u32,
}

impl View for ParsedPathTables {
    type V = TablesModel;

    open spec fn view(&self) -> TablesModel {
        TablesModel { extents: self.extents@, blocks: self.blocks }
    }
}

/// A part of the metadata area and where it lies.
#[derive(Clone, Copy, Debug, PartialEq, Eq, Structural)]
pub struct MetadataObject {
    pub start: u32,
    pub end: u32,
    pub item: MetadataLayoutItem,
}

/// A part of the metadata area that begins at an extent.
pub open spec fn object_at(start: u32, blocks: int, item: MetadataLayoutItem, overflow: ErrorKind) -> Result<
    MetadataObject,
    Failure,
> {
    if start + blocks > u32::MAX {
        Err(failure(overflow))
    } else {
        Ok(MetadataObject { start, end: (start + blocks) as u32, item })
    }
}

fn make_object(start: u32, blocks: u32, item: MetadataLayoutItem, overflow: ErrorKind) -> (result: Result<
    MetadataObject,
    Error,
>)
    ensures
        match (result, object_at(start, blocks as int, item, overflow)) {
            (Ok(object), Ok(expected)) => object == expected,
            (Err(error), Err(failure)) => error@ == failure,
            _ => false,
        },
{
    match start.checked_add(blocks) {
        Some(end) => Ok(MetadataObject { start, end, item }),
        None => Err(Error::new(overflow)),
    }
}

/// A path table as a part of the metadata area.
pub open spec fn table_object(
    primary: TablesModel,
    joliet: TablesModel,
    table: MetadataPathTable,
) -> Result<MetadataObject, Failure> {
    let item = MetadataLayoutItem::PathTable(table);
    match table {
        MetadataPathTable::PrimaryLittle => object_at(
            primary.extents[0],
            primary.blocks as int,
            item,
            ErrorKind::MetadataTableExtent,
        ),
        MetadataPathTable::PrimaryBig => object_at(
            primary.extents[2],
            primary.blocks as int,
            item,
            ErrorKind::MetadataTableExtent,
        ),
        MetadataPathTable::JolietLittle => object_at(
            joliet.extents[0],
            joliet.blocks as int,
            item,
            ErrorKind::MetadataTableExtent,
        ),
        MetadataPathTable::JolietBig => object_at(
            joliet.extents[2],
            joliet.blocks as int,
            item,
            ErrorKind::MetadataTableExtent,
        ),
    }
}

/// Each directory begins where the one before it ends, and there is one.
pub open spec fn is_grouped(directories: Seq<FoundModel>) -> bool {
    &&& directories.len() > 0
    &&& forall|i: int|
        0 <= i < directories.len() - 1 ==> (#[trigger] directories[i]).extent + ceil_div(
            directories[i].length as int,
            2048,
        ) == directories[i + 1].extent
}

/// A group of directories as a part of the metadata area.
pub open spec fn group_object(directories: Seq<FoundModel>, volume: MetadataVolume) -> Result<
    MetadataObject,
    Failure,
> {
    let last = directories.last();
    let end = last.extent + ceil_div(last.length as int, 2048);
    if end > u32::MAX {
        Err(failure(ErrorKind::MetadataDirectoryExtent))
    } else {
        Ok(
            MetadataObject {
                start: directories[0].extent,
                end: end as u32,
                item: MetadataLayoutItem::Directories(volume),
            },
        )
    }
}

/// The parts of the metadata area: the path tables, and the directories where both
/// trees stand in groups.
pub open spec fn metadata_objects(
    primary: TablesModel,
    directories: Seq<FoundModel>,
    joliet: TablesModel,
    joliet_directories: Seq<FoundModel>,
) -> Result<Seq<MetadataObject>, Failure> {
    match (
        table_object(primary, joliet, MetadataPathTable::PrimaryLittle),
        table_object(primary, joliet, MetadataPathTable::PrimaryBig),
        table_object(primary, joliet, MetadataPathTable::JolietLittle),
        table_object(primary, joliet, MetadataPathTable::JolietBig),
    ) {
        (Ok(first), Ok(second), Ok(third), Ok(fourth)) => {
            let tables = seq![first, second, third, fourth];
            if is_grouped(directories) && is_grouped(joliet_directories) {
                match (
                    group_object(directories, MetadataVolume::Primary),
                    group_object(joliet_directories, MetadataVolume::Joliet),
                ) {
                    (Ok(fifth), Ok(sixth)) => Ok(tables.push(fifth).push(sixth)),
                    _ => Err(failure(ErrorKind::MetadataDirectoryExtent)),
                }
            } else {
                Ok(tables)
            }
        },
        _ => Err(failure(ErrorKind::MetadataTableExtent)),
    }
}

fn are_grouped(directories: &Vec<ParsedDirectory>) -> (grouped: bool)
    ensures
        grouped == is_grouped(views(directories@)),
{
    let ghost model = views(directories@);
    if directories.len() == 0 {
        return false;
    }
    let mut i: usize = 0;
    while i < directories.len() - 1
        invariant
            i <= directories.len() - 1,
            directories.len() > 0,
            model == views(directories@),
            forall|j: int|
                0 <= j < i ==> (#[trigger] model[j]).extent + ceil_div(model[j].length as int, 2048)
                    == model[j + 1].extent,
        decreases directories.len() - i,
    {
        assert(model[i as int] == directories@[i as int]@);
        assert(model[i + 1] == directories@[i + 1]@);
        let end: u64 = directories[i].extent as u64 + ceil_div_u32(directories[i].length, 2048) as u64;
        if end != directories[i + 1].extent as u64 {
            assert(!is_grouped(model));
            return false;
        }
        i = i + 1;
    }
    true
}

fn make_group(directories: &Vec<ParsedDirectory>, volume: MetadataVolume) -> (result: Result<
    MetadataObject,
    Error,
>)
    requires
        directories.len() > 0,
    ensures
        match (result, group_object(views(directories@), volume)) {
            (Ok(object), Ok(expected)) => object == expected,
            (Err(error), Err(failure)) => error@ == failure,
            _ => false,
        },
{
    let ghost model = views(directories@);
    assert(model[0] == directories@[0]@);
    assert(model.last() == directories@[directories.len() - 1]@);
    let last: &ParsedDirectory = &directories[directories.len() - 1];
    match last.extent.checked_add(ceil_div_u32(last.length, 2048)) {
        None => Err(Error::new(ErrorKind::MetadataDirectoryExtent)),
        Some(end) => Ok(
            MetadataObject {
                start: directories[0].extent,
                end,
                item: MetadataLayoutItem::Directories(volume),
            },
        ),
    }
}

fn list_objects(
    primary: &ParsedPathTables,
    directories: &Vec<ParsedDirectory>,
    joliet: &ParsedPathTables,
    joliet_directories: &Vec<ParsedDirectory>,
) -> (result: Result<Vec<MetadataObject>, Error>)
    ensures
        match (
            result,
            metadata_objects(
                primary@,
                views(directories@),
                joliet@,
                views(joliet_directories@),
            ),
        ) {
            (Ok(objects), Ok(expected)) => objects@ == expected,
            (Err(error), Err(failure)) => error@ == failure,
            _ => false,
        },
{
    let overflow: ErrorKind = ErrorKind::MetadataTableExtent;
    let mut objects: Vec<MetadataObject> = Vec::new();
    let first: MetadataObject = match make_object(
        primary.extents[0],
        primary.blocks,
        MetadataLayoutItem::PathTable(MetadataPathTable::PrimaryLittle),
        overflow,
    ) {
        Ok(value) => value,
        Err(error) => return Err(error),
    };
    let second: MetadataObject = match make_object(
        primary.extents[2],
        primary.blocks,
        MetadataLayoutItem::PathTable(MetadataPathTable::PrimaryBig),
        overflow,
    ) {
        Ok(value) => value,
        Err(error) => return Err(error),
    };
    let third: MetadataObject = match make_object(
        joliet.extents[0],
        joliet.blocks,
        MetadataLayoutItem::PathTable(MetadataPathTable::JolietLittle),
        overflow,
    ) {
        Ok(value) => value,
        Err(error) => return Err(error),
    };
    let fourth: MetadataObject = match make_object(
        joliet.extents[2],
        joliet.blocks,
        MetadataLayoutItem::PathTable(MetadataPathTable::JolietBig),
        overflow,
    ) {
        Ok(value) => value,
        Err(error) => return Err(error),
    };
    objects.push(first);
    objects.push(second);
    objects.push(third);
    objects.push(fourth);
    assert(objects@ =~= seq![first, second, third, fourth]);
    if are_grouped(directories) && are_grouped(joliet_directories) {
        let fifth: MetadataObject = match make_group(directories, MetadataVolume::Primary) {
            Ok(value) => value,
            Err(error) => return Err(error),
        };
        let sixth: MetadataObject = match make_group(joliet_directories, MetadataVolume::Joliet) {
            Ok(value) => value,
            Err(error) => return Err(error),
        };
        objects.push(fifth);
        objects.push(sixth);
    }
    Ok(objects)
}

/// The blocks of a run lie in the image and are all zero.
pub open spec fn run_is_zero(blocks: Seq<Block>, start: int, end: int) -> bool {
    end <= blocks.len() && forall|b: int| start <= b < end ==> all_are((#[trigger] blocks[b])@, 0)
}

fn is_run_zero(blocks: &[Block], start: u32, end: u32) -> (zero: bool)
    ensures
        zero == run_is_zero(blocks@, start as int, end as int),
{
    if end as u64 > blocks.len() as u64 {
        return false;
    }
    let mut b: u32 = start;
    while b < end
        invariant
            start <= b,
            b <= end || start > end,
            end <= blocks@.len(),
            forall|k: int| start <= k < b ==> all_are((#[trigger] blocks@[k])@, 0),
        decreases end - b,
    {
        let block: &Block = &blocks[b as usize];
        if !all_bytes_are(block.as_slice(), 0) {
            assert(!all_are(blocks@[b as int]@, 0));
            return false;
        }
        b = b + 1;
    }
    true
}

/// The order of an image's metadata, and the gaps in it.
#[verifier::ext_equal]
pub struct MetadataOrder {
    pub layout: Seq<MetadataLayoutItem>,
    pub gaps: Seq<GapPlacement>,
}

/// An XA gap.
pub open spec fn gap_between(start: u32, end: u32) -> GapPlacement {
    GapPlacement {
        start,
        sectors: (end - start) as u32,
        kind: GapKind::Xa,
        subheader: None,
        form2_edc: None,
    }
}

/// `found`, and then the parts from `index` on; what lies between two parts is a
/// gap, and zero.
pub open spec fn metadata_order_from(
    blocks: Seq<Block>,
    objects: Seq<MetadataObject>,
    order: Seq<int>,
    cursor: u32,
    index: int,
    found: MetadataOrder,
) -> Result<MetadataOrder, Failure>
    decreases order.len() - index,
{
    if index < 0 || index >= order.len() {
        Ok(found)
    } else {
        let object = objects[order[index]];
        if object.start < cursor {
            Err(failure(ErrorKind::MetadataOverlap))
        } else if object.start == cursor {
            metadata_order_from(
                blocks,
                objects,
                order,
                object.end,
                index + 1,
                MetadataOrder { layout: found.layout.push(object.item), gaps: found.gaps },
            )
        } else if !run_is_zero(blocks, cursor as int, object.start as int) {
            Err(failure(ErrorKind::MetadataNonzero))
        } else {
            let gap = gap_between(cursor, object.start);
            metadata_order_from(
                blocks,
                objects,
                order,
                object.end,
                index + 1,
                MetadataOrder {
                    layout: found.layout.push(
                        MetadataLayoutItem::Gap { gap: gap.sectors, kind: GapKind::Xa },
                    ).push(object.item),
                    gaps: found.gaps.push(gap),
                },
            )
        }
    }
}

/// Where the parts of the metadata area begin.
pub open spec fn starts_of(objects: Seq<MetadataObject>) -> Seq<u32> {
    Seq::new(objects.len(), |i: int| objects[i].start)
}

/// The order of an image's metadata from `start` on.
pub open spec fn metadata_order(
    blocks: Seq<Block>,
    start: u32,
    primary: TablesModel,
    directories: Seq<FoundModel>,
    joliet: TablesModel,
    joliet_directories: Seq<FoundModel>,
) -> Result<MetadataOrder, Failure> {
    match metadata_objects(primary, directories, joliet, joliet_directories) {
        Err(failure) => Err(failure),
        Ok(objects) => metadata_order_from(
            blocks,
            objects,
            stable_order(starts_of(objects), objects.len() as int),
            start,
            0,
            MetadataOrder { layout: Seq::empty(), gaps: Seq::empty() },
        ),
    }
}

fn list_starts(objects: &Vec<MetadataObject>) -> (starts: Vec<u32>)
    ensures
        starts@ == starts_of(objects@),
{
    let mut starts: Vec<u32> = Vec::new();
    let mut i: usize = 0;
    while i < objects.len()
        invariant
            i <= objects.len(),
            starts@ == starts_of(objects@).take(i as int),
        decreases objects.len() - i,
    {
        starts.push(objects[i].start);
        i = i + 1;
        assert(starts@ =~= starts_of(objects@).take(i as int));
    }
    assert(starts_of(objects@).take(i as int) =~= starts_of(objects@));
    starts
}

/// Finds the order of an image's metadata, and the gaps in it.
pub fn derive_metadata_layout(
    blocks: &[Block],
    start: u32,
    primary_tables: &ParsedPathTables,
    primary_directories: &Vec<ParsedDirectory>,
    joliet_tables: &ParsedPathTables,
    joliet_directories: &Vec<ParsedDirectory>,
) -> (result: Result<(Vec<MetadataLayoutItem>, Vec<GapPlacement>), Error>)
    ensures
        match (
            result,
            metadata_order(
                blocks@,
                start,
                primary_tables@,
                views(primary_directories@),
                joliet_tables@,
                views(joliet_directories@),
            ),
        ) {
            (Ok((layout, gaps)), Ok(expected)) => layout@ == expected.layout && gaps@
                == expected.gaps,
            (Err(error), Err(failure)) => error@ == failure,
            _ => false,
        },
{
    let objects: Vec<MetadataObject> = match list_objects(
        primary_tables,
        primary_directories,
        joliet_tables,
        joliet_directories,
    ) {
        Ok(value) => value,
        Err(error) => return Err(error),
    };
    let order: Vec<usize> = order_by(&list_starts(&objects));
    let ghost sorted = stable_order(starts_of(objects@), objects.len() as int);
    let ghost whole = metadata_order_from(
        blocks@,
        objects@,
        sorted,
        start,
        0,
        MetadataOrder { layout: Seq::empty(), gaps: Seq::empty() },
    );
    let mut layout: Vec<MetadataLayoutItem> = Vec::new();
    let mut gaps: Vec<GapPlacement> = Vec::new();
    let mut cursor: u32 = start;
    let mut i: usize = 0;
    while i < order.len()
        invariant
            i <= order.len(),
            order.len() == objects.len(),
            forall|k: int| 0 <= k < order.len() ==> #[trigger] order[k] < objects.len(),
            sorted == places(order@),
            whole == metadata_order_from(
                blocks@,
                objects@,
                sorted,
                cursor,
                i as int,
                MetadataOrder { layout: layout@, gaps: gaps@ },
            ),
            whole == metadata_order(
                blocks@,
                start,
                primary_tables@,
                views(primary_directories@),
                joliet_tables@,
                views(joliet_directories@),
            ),
        decreases order.len() - i,
    {
        assert(sorted[i as int] == order@[i as int]);
        let object: MetadataObject = objects[order[i]];
        if object.start < cursor {
            return Err(Error::new(ErrorKind::MetadataOverlap));
        }
        if object.start > cursor {
            if !is_run_zero(blocks, cursor, object.start) {
                return Err(Error::new(ErrorKind::MetadataNonzero));
            }
            let sectors: u32 = object.start - cursor;
            layout.push(MetadataLayoutItem::Gap { gap: sectors, kind: GapKind::Xa });
            gaps.push(
                GapPlacement {
                    start: cursor,
                    sectors,
                    kind: GapKind::Xa,
                    subheader: None,
                    form2_edc: None,
                },
            );
        }
        layout.push(object.item);
        cursor = object.end;
        i = i + 1;
    }
    Ok((layout, gaps))
}

/// Every directory's length is a whole number of blocks.
pub open spec fn all_allocated(directories: Seq<FoundModel>) -> bool {
    forall|i: int| 0 <= i < directories.len() ==> (#[trigger] directories[i]).length % 2048 == 0
}

/// Every directory's length is that of its records.
pub open spec fn all_recorded(
    directories: Seq<FoundModel>,
    nodes: Seq<NodeModel>,
    system_use: bool,
    packing: DirectoryRecordPacking,
) -> bool {
    forall|i: int|
        0 <= i < directories.len() ==> (#[trigger] directories[i]).length == records_length(
            nodes,
            directories[i].path,
            system_use,
            packing,
        )
}

/// The length of the records of a directory of the Joliet tree.
pub open spec fn joliet_records(
    volume: JolietModel,
    path: Seq<char>,
    packing: DirectoryRecordPacking,
) -> Result<int, Failure> {
    match joliet_children(volume, path) {
        Err(failure) => Err(failure),
        Ok(nodes) => Ok(records_length(nodes, path, volume.xa_system_use, packing)),
    }
}

/// Whether the names of what lies in each directory of the Joliet tree can be written.
pub open spec fn joliet_name_checks(volume: JolietModel, directories: Seq<FoundModel>) -> spec_fn(
    int,
) -> Result<(), Failure> {
    |i: int| ok(joliet_children(volume, directories[i].path))
}

/// Every Joliet directory's length is that of its records.
pub open spec fn all_joliet_recorded(
    directories: Seq<FoundModel>,
    volume: JolietModel,
    packing: DirectoryRecordPacking,
) -> bool {
    forall|i: int|
        0 <= i < directories.len() ==> joliet_records(
            volume,
            (#[trigger] directories[i]).path,
            packing,
        ) == Ok::<int, Failure>(directories[i].length as int)
}

/// Which lengths the directories of both trees record.
pub open spec fn length_policy(iso: IsoModel, primary: Seq<FoundModel>, joliet: Seq<FoundModel>) -> Result<
    DirectoryLengthPolicy,
    Failure,
> {
    let volume = iso.supplementary_volumes[0];
    if iso.supplementary_volumes.len() == 0 {
        Err(failure(ErrorKind::JolietVolumeMissing))
    } else {
        match first_failure(joliet_name_checks(volume, joliet), 0, joliet.len() as int) {
            Err(failure) => Err(failure),
            Ok(_) => if all_allocated(primary) && all_allocated(joliet) {
                Ok(DirectoryLengthPolicy::Allocated)
            } else if all_recorded(
                primary,
                authored_nodes(iso),
                iso.xa_system_use,
                iso.directory_record_packing,
            ) && all_joliet_recorded(joliet, volume, iso.directory_record_packing) {
                Ok(DirectoryLengthPolicy::Records)
            } else {
                Err(failure(ErrorKind::DirectoryLengthsInconsistent))
            },
        }
    }
}

fn are_allocated(directories: &Vec<ParsedDirectory>) -> (all: bool)
    ensures
        all == all_allocated(views(directories@)),
{
    let ghost model = views(directories@);
    let mut i: usize = 0;
    while i < directories.len()
        invariant
            i <= directories.len(),
            model == views(directories@),
            forall|j: int| 0 <= j < i ==> (#[trigger] model[j]).length % 2048 == 0,
        decreases directories.len() - i,
    {
        assert(model[i as int] == directories@[i as int]@);
        if directories[i].length % 2048 != 0 {
            return false;
        }
        i = i + 1;
    }
    true
}

fn are_recorded(
    directories: &Vec<ParsedDirectory>,
    nodes: &Vec<Node>,
    system_use: bool,
    packing: DirectoryRecordPacking,
) -> (all: bool)
    ensures
        all == all_recorded(views(directories@), views(nodes@), system_use, packing),
{
    let ghost model = views(directories@);
    let ghost tree = views(nodes@);
    let mut i: usize = 0;
    while i < directories.len()
        invariant
            i <= directories.len(),
            model == views(directories@),
            tree == views(nodes@),
            forall|j: int|
                0 <= j < i ==> (#[trigger] model[j]).length == records_length(
                    tree,
                    model[j].path,
                    system_use,
                    packing,
                ),
        decreases directories.len() - i,
    {
        assert(model[i as int] == directories@[i as int]@);
        match directory_record_lengths(directories[i].path.as_str(), nodes, system_use, packing) {
            None => return false,
            Some(length) => {
                if length != directories[i].length {
                    return false;
                }
            },
        }
        i = i + 1;
    }
    true
}

/// The length of the records of a Joliet directory, where it fits 32 bits.
fn measure_joliet_records(
    volume: &JolietVolume,
    path: &str,
    packing: DirectoryRecordPacking,
) -> (result: Result<Option<u32>, Error>)
    ensures
        match (result, joliet_records(volume@, path@, packing)) {
            (Ok(Some(length)), Ok(expected)) => length == expected,
            (Ok(None), Ok(expected)) => expected > u32::MAX,
            (Err(error), Err(failure)) => error@ == failure,
            _ => false,
        },
{
    match collect_joliet_children(volume, path) {
        Err(error) => Err(error),
        Ok(nodes) => Ok(directory_record_lengths(path, &nodes, volume.xa_system_use, packing)),
    }
}

/// Whether every Joliet directory's length is that of its records, if they all can be
/// measured.
fn are_joliet_recorded(
    directories: &Vec<ParsedDirectory>,
    volume: &JolietVolume,
    packing: DirectoryRecordPacking,
) -> (result: Result<bool, Error>)
    ensures
        match (
            result,
            first_failure(
                joliet_name_checks(volume@, views(directories@)),
                0,
                directories.len() as int,
            ),
        ) {
            (Ok(all), Ok(_)) => all == all_joliet_recorded(views(directories@), volume@, packing),
            (Err(error), Err(failure)) => error@ == failure,
            _ => false,
        },
{
    let ghost model = views(directories@);
    let ghost checks = joliet_name_checks(volume@, model);
    let ghost count = directories.len() as int;
    let mut all: bool = true;
    let mut i: usize = 0;
    while i < directories.len()
        invariant
            i <= directories.len(),
            count == directories.len(),
            model == views(directories@),
            checks == joliet_name_checks(volume@, model),
            first_failure(checks, 0, count) == first_failure(checks, i as int, count),
            all == forall|j: int|
                0 <= j < i ==> joliet_records(
                    volume@,
                    (#[trigger] model[j]).path,
                    packing,
                ) == Ok::<int, Failure>(model[j].length as int),
        decreases directories.len() - i,
    {
        assert(model[i as int] == directories@[i as int]@);
        assert(checks(i as int) == ok(joliet_children(volume@, model[i as int].path)));
        match measure_joliet_records(volume, directories[i].path.as_str(), packing) {
            Err(error) => return Err(error),
            Ok(measured) => {
                let same: bool = match measured {
                    None => false,
                    Some(length) => length == directories[i].length,
                };
                assert(same == (joliet_records(volume@, model[i as int].path, packing) == Ok::<
                    int,
                    Failure,
                >(model[i as int].length as int)));
                if !same {
                    all = false;
                }
            },
        }
        i = i + 1;
    }
    Ok(all)
}

/// Finds which lengths the directories of both trees record.
pub fn infer_directory_length_policy(
    iso: &Iso9660,
    primary: &Vec<ParsedDirectory>,
    joliet: &Vec<ParsedDirectory>,
) -> (result: Result<DirectoryLengthPolicy, Error>)
    ensures
        match (result, length_policy(iso@, views(primary@), views(joliet@))) {
            (Ok(policy), Ok(expected)) => policy == expected,
            (Err(error), Err(failure)) => error@ == failure,
            _ => false,
        },
{
    if iso.supplementary_volumes.len() == 0 {
        return Err(Error::new(ErrorKind::JolietVolumeMissing));
    }
    let volume = &iso.supplementary_volumes[0];
    assert(iso@.supplementary_volumes[0] == volume@);
    let packing: DirectoryRecordPacking = iso.directory_record_packing;
    let recorded: bool = match are_joliet_recorded(joliet, volume, packing) {
        Ok(recorded) => recorded,
        Err(error) => return Err(error),
    };
    if are_allocated(primary) && are_allocated(joliet) {
        return Ok(DirectoryLengthPolicy::Allocated);
    }
    let authored: Vec<Node> = collect_authored_nodes(iso);
    if are_recorded(primary, &authored, iso.xa_system_use, packing) && recorded {
        return Ok(DirectoryLengthPolicy::Records);
    }
    Err(Error::new(ErrorKind::DirectoryLengthsInconsistent))
}

} // verus!
