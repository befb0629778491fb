//! A path table names the directories it was made of.
use vstd::prelude::*;

use crate::bytes::{
    be16, be16_round_trip, be32, be32_round_trip, be32_spells, field, le16, le32, le32_round_trip,
    le32_spells, u16_round_trip,
};
use crate::error::Failure;
use crate::iso9660::path_table::{
    parsed_path_record, parsed_path_table, parsed_path_table_from, path_record, path_record_size,
    path_table, path_table_from, PathRecordModel, PlacementModel,
};

verus! {

/// The record that a path table holds of a directory.
pub open spec fn table_record(directory: PlacementModel) -> PathRecordModel {
    PathRecordModel {
        extent: directory.extent,
        parent: (directory.parent + 1) as u16,
        name: directory.name,
    }
}

/// What was written stays at the beginning of the table.
proof fn written_is_prefix(directories: Seq<PlacementModel>, index: int, written: Seq<u8>, big: bool)
    requires
        0 <= index <= directories.len(),
        path_table_from(directories, index, written, big) is Ok,
    ensures
        ({
            let table = path_table_from(directories, index, written, big)->Ok_0;
            written.len() <= table.len() && table.take(written.len() as int) == written
        }),
    decreases directories.len() - index,
{
    let table = path_table_from(directories, index, written, big)->Ok_0;
    if index < directories.len() {
        let record = path_record(directories[index], big)->Ok_0;
        written_is_prefix(directories, index + 1, written + record, big);
        assert(table.take(written.len() as int) =~= (written + record).take(written.len() as int));
        assert((written + record).take(written.len() as int) =~= written);
    } else {
        assert(table.take(written.len() as int) =~= written);
    }
}

/// A written record is read as the directory it was made of.
proof fn record_in_table(table: Seq<u8>, offset: int, directory: PlacementModel, big: bool)
    requires
        0 <= offset,
        directory.parent >= 0,
        directory.name.len() > 0,
        path_record(directory, big) is Ok,
        offset + path_record(directory, big)->Ok_0.len() <= table.len(),
        table.subrange(offset, offset + path_record(directory, big)->Ok_0.len()) == path_record(
            directory,
            big,
        )->Ok_0,
    ensures
        parsed_path_record(table, offset, big) == Ok::<PathRecordModel, Failure>(
            table_record(directory),
        ),
        path_record(directory, big)->Ok_0.len() == path_record_size(directory.name.len() as int),
{
    let record = path_record(directory, big)->Ok_0;
    let name = directory.name;
    let parent = (directory.parent + 1) as u16;
    let part = table.subrange(offset, offset + record.len());
    assert(record.len() == path_record_size(name.len() as int));
    assert(table[offset] == part[0]);
    be32_round_trip(directory.extent);
    le32_round_trip(directory.extent);
    be16_round_trip(parent);
    u16_round_trip(parent);
    assert(field(table, offset + 2, 4) =~= (if big {
        be32(directory.extent)
    } else {
        le32(directory.extent)
    })) by {
        assert forall|i: int| 0 <= i < 4 implies #[trigger] field(table, offset + 2, 4)[i] == record[i + 2] by {
            assert(part[i + 2] == table[offset + 2 + i]);
        }
    }
    assert(field(table, offset + 6, 2) =~= (if big {
        be16(parent)
    } else {
        le16(parent)
    })) by {
        assert forall|i: int| 0 <= i < 2 implies #[trigger] field(table, offset + 6, 2)[i] == record[i + 6] by {
            assert(part[i + 6] == table[offset + 6 + i]);
        }
    }
    assert(field(table, offset + 8, name.len() as int) =~= name) by {
        assert forall|i: int| 0 <= i < name.len() implies #[trigger] field(
            table,
            offset + 8,
            name.len() as int,
        )[i] == record[i + 8] by {
            assert(part[i + 8] == table[offset + 8 + i]);
        }
    }
}

/// The rest of a table is read as the rest of its directories.
proof fn table_survives_from(
    directories: Seq<PlacementModel>,
    index: int,
    written: Seq<u8>,
    read: Seq<PathRecordModel>,
    table: Seq<u8>,
    big: bool,
)
    requires
        0 <= index <= directories.len(),
        path_table_from(directories, index, written, big) == Ok::<Seq<u8>, Failure>(table),
        forall|i: int|
            0 <= i < directories.len() ==> #[trigger] directories[i].name.len() > 0
                && directories[i].parent >= 0,
        read == directories.take(index).map_values(|d: PlacementModel| table_record(d)),
    ensures
        parsed_path_table_from(table, written.len() as int, read, big) == Ok::<
            Seq<PathRecordModel>,
            Failure,
        >(directories.map_values(|d: PlacementModel| table_record(d))),
    decreases directories.len() - index,
{
    let all = directories.map_values(|d: PlacementModel| table_record(d));
    written_is_prefix(directories, index, written, big);
    if index < directories.len() {
        let directory = directories[index];
        let record = path_record(directory, big)->Ok_0;
        let offset = written.len() as int;
        written_is_prefix(directories, index + 1, written + record, big);
        let start = table.take((written + record).len() as int);
        assert(table.subrange(offset, offset + record.len()) =~= record) by {
            assert forall|i: int| 0 <= i < record.len() implies table[offset + i] == #[trigger] record[i] by {
                assert(start[offset + i] == (written + record)[offset + i]);
            }
        }
        assert(directories[index].name.len() > 0);
        record_in_table(table, offset, directory, big);
        let longer = directories.take(index + 1).map_values(|d: PlacementModel| table_record(d));
        assert(longer =~= read.push(table_record(directory)));
        table_survives_from(directories, index + 1, written + record, longer, table, big);
    } else {
        assert(directories.take(index) =~= directories);
        assert(table =~= written);
    }
}

/// A path table is read as the directories it was made of, in either byte order.
pub proof fn path_table_survives(directories: Seq<PlacementModel>, table: Seq<u8>, big: bool)
    requires
        path_table(directories, big) == Ok::<Seq<u8>, Failure>(table),
        forall|i: int|
            0 <= i < directories.len() ==> #[trigger] directories[i].name.len() > 0
                && directories[i].parent >= 0,
    ensures
        parsed_path_table(table, big) == Ok::<Seq<PathRecordModel>, Failure>(
            directories.map_values(|d: PlacementModel| table_record(d)),
        ),
{
    assert(directories.take(0).map_values(|d: PlacementModel| table_record(d)) =~= Seq::empty());
    table_survives_from(directories, 0, Seq::empty(), Seq::empty(), table, big);
}

/// The record that a path table holds of one directory, byte by byte: the length of the
/// name, a zero, the block that the directory begins at, the number of the directory that
/// holds it, counted from one, the name, and a zero behind a name of odd length. A big-endian
/// table spells both numbers from their most significant byte on, a little-endian one from
/// their least significant byte on.
pub proof fn lone_directory_is_spelled(directory: PlacementModel, big: bool)
    requires
        directory.parent >= 0,
    ensures
        path_table(seq![directory], big) is Ok <==> directory.name.len() <= 255 && directory.parent
            <= 65534,
        path_table(seq![directory], big) matches Ok(table) ==> {
            let name = directory.name;
            &&& table.len() == 8 + name.len() + name.len() % 2
            &&& table[0] == name.len()
            &&& table[1] == 0
            &&& big ==> table[2] * 16777216 + table[3] * 65536 + table[4] * 256 + table[5]
                == directory.extent
            &&& big ==> table[6] * 256 + table[7] == directory.parent + 1
            &&& !big ==> table[5] * 16777216 + table[4] * 65536 + table[3] * 256 + table[2]
                == directory.extent
            &&& !big ==> table[7] * 256 + table[6] == directory.parent + 1
            &&& forall|i: int| 0 <= i < name.len() ==> #[trigger] table[8 + i] == name[i]
            &&& name.len() % 2 == 1 ==> table[table.len() - 1] == 0
        },
{
    let all = seq![directory];
    reveal_with_fuel(path_table_from, 2);
    if let Ok(record) = path_record(directory, big) {
        assert(Seq::<u8>::empty() + record =~= record);
        assert(path_table(all, big) == Ok::<Seq<u8>, Failure>(record));
        let extent = directory.extent;
        let parent = (directory.parent + 1) as u16;
        assert(parent == directory.parent + 1);
        be32_spells(extent);
        le32_spells(extent);
        let bytes = if big {
            be32(extent)
        } else {
            le32(extent)
        };
        let number = if big {
            be16(parent)
        } else {
            le16(parent)
        };
        assert forall|i: int| 0 <= i < 4 implies record[2 + i] == bytes[i] by {}
        assert forall|i: int| 0 <= i < 2 implies record[6 + i] == number[i] by {}
        assert(record[2] == bytes[0] && record[3] == bytes[1] && record[4] == bytes[2] && record[5]
            == bytes[3] && record[6] == number[0] && record[7] == number[1]);
    }
}

/// What is written first leaves the rest as it is.
proof fn rest_follows(directories: Seq<PlacementModel>, index: int, written: Seq<u8>, big: bool)
    requires
        0 <= index,
    ensures
        path_table_from(directories, index, written, big) == match path_table_from(
            directories,
            index,
            Seq::empty(),
            big,
        ) {
            Ok(rest) => Ok(written + rest),
            Err(failure) => Err(failure),
        },
    decreases directories.len() - index,
{
    let none = Seq::<u8>::empty();
    if index < directories.len() {
        if let Ok(record) = path_record(directories[index], big) {
            rest_follows(directories, index + 1, written + record, big);
            rest_follows(directories, index + 1, none + record, big);
            if let Ok(rest) = path_table_from(directories, index + 1, none, big) {
                assert(written + (none + record + rest) =~= written + record + rest);
            }
        }
    } else {
        assert(written + none =~= written);
    }
}

/// The records of a run of directories stand in their order, one behind the other: the table
/// of a run is the record of its first directory and then the table of the others.
pub proof fn directories_are_listed_in_order(
    first: PlacementModel,
    others: Seq<PlacementModel>,
    big: bool,
)
    ensures
        match (path_table(seq![first], big), path_table(others, big)) {
            (Ok(record), Ok(rest)) => path_table(seq![first] + others, big) == Ok::<
                Seq<u8>,
                Failure,
            >(record + rest),
            (Err(failure), _) => path_table(seq![first] + others, big) == Err::<Seq<u8>, Failure>(
                failure,
            ),
            (_, Err(failure)) => path_table(seq![first] + others, big) == Err::<Seq<u8>, Failure>(
                failure,
            ),
        },
        path_table(Seq::empty(), big) == Ok::<Seq<u8>, Failure>(Seq::empty()),
{
    let all = seq![first] + others;
    let none = Seq::<u8>::empty();
    reveal_with_fuel(path_table_from, 2);
    assert(all[0] == first);
    if let Ok(record) = path_record(first, big) {
        assert(none + record =~= record);
        rest_follows(all, 1, record, big);
        later_are_listed(first, others, 0, none, big);
    }
}

proof fn later_are_listed(
    first: PlacementModel,
    others: Seq<PlacementModel>,
    index: int,
    written: Seq<u8>,
    big: bool,
)
    requires
        0 <= index,
    ensures
        path_table_from(seq![first] + others, index + 1, written, big) == path_table_from(
            others,
            index,
            written,
            big,
        ),
    decreases others.len() - index,
{
    let all = seq![first] + others;
    if index < others.len() {
        assert(all[index + 1] == others[index]);
        if let Ok(record) = path_record(others[index], big) {
            later_are_listed(first, others, index + 1, written + record, big);
        }
    }
}

/// A record that stands at the beginning of a path table is read as it is spelled, and the
/// records behind it as those of a table of their own. A table that ends within a record, and
/// one with a record that has no name, are refused.
pub proof fn first_record_is_read(bytes: Seq<u8>, big: bool)
    requires
        bytes.len() > 0,
    ensures
        ({
            let size = 8 + bytes[0] + bytes[0] % 2;
            let whole = bytes.len() >= 8 && bytes[0] > 0 && bytes.len() >= size;
            &&& !whole ==> parsed_path_table(bytes, big) is Err
            &&& whole ==> match parsed_path_table(bytes.skip(size), big) {
                Err(failure) => parsed_path_table(bytes, big) is Err,
                Ok(rest) => {
                    let records = parsed_path_table(bytes, big)->Ok_0;
                    &&& parsed_path_table(bytes, big) is Ok
                    &&& records.len() == rest.len() + 1
                    &&& records.skip(1) == rest
                    &&& records[0].name == bytes.subrange(8, 8 + bytes[0])
                    &&& big ==> records[0].extent == bytes[2] * 16777216 + bytes[3] * 65536
                        + bytes[4] * 256 + bytes[5]
                    &&& big ==> records[0].parent == bytes[6] * 256 + bytes[7]
                    &&& !big ==> records[0].extent == bytes[5] * 16777216 + bytes[4] * 65536
                        + bytes[3] * 256 + bytes[2]
                    &&& !big ==> records[0].parent == bytes[7] * 256 + bytes[6]
                },
            }
        }),
{
    let size = 8 + bytes[0] + bytes[0] % 2;
    if bytes.len() >= 8 && bytes[0] > 0 && bytes.len() >= size {
        let record = parsed_path_record(bytes, 0, big)->Ok_0;
        assert(parsed_path_record(bytes, 0, big) is Ok);
        assert(record.name.len() == bytes[0]);
        let none = Seq::<PathRecordModel>::empty();
        behind_is_read_alone(bytes, size, size, none.push(record), big);
        behind_is_read_alone(bytes, size, size, none, big);
        read_goes_on(bytes, size, none.push(record), big);
        read_goes_on(bytes.skip(size), 0, none.push(record), big);
        if let Ok(rest) = parsed_path_table(bytes.skip(size), big) {
            assert((none.push(record) + rest).skip(1) =~= rest);
        }
        assert(field(bytes, 2, 4)[0] == bytes[2] && field(bytes, 2, 4)[1] == bytes[3] && field(
            bytes,
            2,
            4,
        )[2] == bytes[4] && field(bytes, 2, 4)[3] == bytes[5]);
        assert(field(bytes, 6, 2)[0] == bytes[6] && field(bytes, 6, 2)[1] == bytes[7]);
    }
}

/// What was read before leaves what is read behind it as it is.
proof fn read_goes_on(bytes: Seq<u8>, offset: int, read: Seq<PathRecordModel>, big: bool)
    requires
        0 <= offset,
    ensures
        parsed_path_table_from(bytes, offset, read, big) == match parsed_path_table_from(
            bytes,
            offset,
            Seq::empty(),
            big,
        ) {
            Ok(rest) => Ok(read + rest),
            Err(failure) => Err(failure),
        },
    decreases bytes.len() - offset,
{
    let none = Seq::<PathRecordModel>::empty();
    if offset < bytes.len() {
        if let Ok(record) = parsed_path_record(bytes, offset, big) {
            let next = offset + path_record_size(record.name.len() as int);
            read_goes_on(bytes, next, read.push(record), big);
            read_goes_on(bytes, next, none.push(record), big);
            if let Ok(rest) = parsed_path_table_from(bytes, next, none, big) {
                assert(read + (none.push(record) + rest) =~= read.push(record) + rest);
            }
        }
    } else {
        assert(read + none =~= read);
    }
}

/// What stands behind an offset is read as what is left of the bytes there.
proof fn behind_is_read_alone(
    bytes: Seq<u8>,
    start: int,
    offset: int,
    read: Seq<PathRecordModel>,
    big: bool,
)
    requires
        0 <= start <= offset,
        start <= bytes.len(),
    ensures
        parsed_path_table_from(bytes, offset, read, big) == parsed_path_table_from(
            bytes.skip(start),
            offset - start,
            read,
            big,
        ),
    decreases bytes.len() - offset,
{
    let rest = bytes.skip(start);
    if offset < bytes.len() {
        assert(bytes[offset] == rest[offset - start]);
        assert(parsed_path_record(bytes, offset, big) == parsed_path_record(
            rest,
            offset - start,
            big,
        )) by {
            let length = bytes[offset] as int;
            if offset + path_record_size(length) <= bytes.len() {
                assert(field(bytes, offset + 2, 4) =~= field(rest, offset - start + 2, 4));
                assert(field(bytes, offset + 6, 2) =~= field(rest, offset - start + 6, 2));
                assert(field(bytes, offset + 8, length) =~= field(
                    rest,
                    offset - start + 8,
                    length,
                ));
            }
        }
        if let Ok(record) = parsed_path_record(bytes, offset, big) {
            let next = offset + path_record_size(record.name.len() as int);
            behind_is_read_alone(bytes, start, next, read.push(record), big);
        }
    }
}

} // verus!
