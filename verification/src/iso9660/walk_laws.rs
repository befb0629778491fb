//! A walk of the image of a filesystem finds its tree.
use vstd::prelude::*;

use crate::bytes::{be16, field, from_be16};
use crate::error::Failure;
use crate::iso9660::description::{EntryModel, EntryXaModel, IdentifierPolicy, IsoModel};
use crate::iso9660::descriptor_write::record_flags;
use crate::iso9660::directory::SpotModel;
use crate::iso9660::directory_laws::{child_models_from, node_model};
use crate::iso9660::paths::{component_check, component_checks, is_level1, path_check};
use crate::iso9660::record::{
    is_cdda,
    attributes_of, parsed_xa, permissions_of, system_use_bytes, RecordModel,
};
use crate::iso9660::time::recording_time_bytes;
use crate::iso9660::tree::{
    is_child, is_file, is_omitted, is_subdirectory, primary_identifier, primary_nodes, version_text,
    NodeModel,
};
use crate::iso9660::validate::{
    description_check, duplicate_checks, entry_check, entry_checks, omission_check, omission_checks,
    path_before, place_check,
};
use crate::iso9660::walk::{
    found_entry, is_directory_record, joined_parent, listed_record_check, policy_with,
    recorded_name, uses_xa, with_child, with_children_from, FoundModel, WalkModel,
};
use crate::model::first_failure_ok;
use crate::raw_cd::Block;
use crate::text::{
    components, join, last_index_of, last_index_of_is_last, last_index_of_unique, name_of,
    number_value, parent_of, parsed_byte, root_path, split_last, unsigned, utf8,
};

verus! {

/// The entries of a description that is laid out: the root comes first, no two have
/// one path, and each passes its checks.
pub open spec fn is_tree(iso: IsoModel) -> bool {
    &&& iso.entries.len() > 0
    &&& iso.entries[0].path == root_path()
    &&& forall|i: int, j: int|
        0 <= i < j < iso.entries.len() ==> (#[trigger] iso.entries[i]).path != (
        #[trigger] iso.entries[j]).path
    &&& forall|i: int| 0 <= i < iso.entries.len() ==> #[trigger] entry_check(iso, i) is Ok
    &&& forall|i: int|
        0 <= i < iso.entries.len() && is_omitted(iso, (#[trigger] iso.entries[i]).path) ==> is_file(
            iso,
            iso.entries[i].path,
        )
}

/// A description that passes its checks describes a tree.
pub proof fn checked_is_tree(iso: IsoModel)
    requires
        description_check(iso) is Ok,
    ensures
        is_tree(iso),
{
    let checks = entry_checks(iso);
    first_failure_ok(checks, 0, iso.entries.len() as int);
    assert forall|i: int| 0 <= i < iso.entries.len() implies #[trigger] entry_check(
        iso,
        i,
    ) is Ok by {
        assert(checks(i) is Ok);
    }
    let duplicates = duplicate_checks(iso.entries);
    first_failure_ok(duplicates, 0, iso.entries.len() as int);
    assert forall|i: int, j: int| 0 <= i < j < iso.entries.len() implies (
    #[trigger] iso.entries[i]).path != (#[trigger] iso.entries[j]).path by {
        assert(duplicates(j) is Ok);
        assert(!path_before(iso.entries, j, iso.entries[j].path));
    }
    let omissions = omission_checks(iso);
    first_failure_ok(omissions, 0, iso.xa_system_use_omissions.len() as int);
    assert forall|i: int|
        0 <= i < iso.entries.len() && is_omitted(iso, (#[trigger] iso.entries[i]).path) implies
        is_file(iso, iso.entries[i].path) by {
        let path = iso.entries[i].path;
        let k = choose|k: int|
            0 <= k < iso.xa_system_use_omissions.len() && iso.xa_system_use_omissions[k] == path;
        assert(omissions(k) is Ok);
        assert(omission_check(iso, k) is Ok);
    }
}

/// The last component of a path is its name.
pub proof fn name_is_last_component(path: Seq<char>)
    ensures
        components(path).len() > 0,
        components(path).last() == name_of(path),
{
    last_index_of_is_last(path, '/');
    if last_index_of(path, '/') < 0 {
        assert(name_of(path) =~= path);
    }
}

/// A path that passes its check lies below its directory, whose own text is no
/// other path's.
proof fn checked_path_joins(path: Seq<char>, file: bool, policy: IdentifierPolicy)
    requires
        path_check(path, file, policy) is Ok,
        path != root_path(),
        parent_of(path) != root_path() ==> parent_of(path).len() > 0,
        parent_of(path) == root_path() ==> last_index_of(path, '/') < 0,
    ensures
        join(joined_parent(parent_of(path)), name_of(path)) == path,
{
    last_index_of_is_last(path, '/');
    let index = last_index_of(path, '/');
    if index < 0 {
        assert(name_of(path) =~= path);
    } else {
        assert(join(parent_of(path), name_of(path)) =~= path);
    }
}

/// The directory of a path that passes its check is not written as the root is, nor
/// as nothing.
proof fn parent_is_named(path: Seq<char>, file: bool, policy: IdentifierPolicy)
    requires
        path_check(path, file, policy) is Ok,
        path != root_path(),
    ensures
        parent_of(path) != root_path() ==> parent_of(path).len() > 0,
        parent_of(path) == root_path() ==> last_index_of(path, '/') < 0,
{
    last_index_of_is_last(path, '/');
    let index = last_index_of(path, '/');
    if index >= 0 {
        let parent = path.subrange(0, index);
        if parent.len() == 0 {
            assert(path[0] == '/');
        }
        if parent == root_path() {
            let parts = components(path);
            let checks = component_checks(parts, file, policy);
            first_failure_ok(checks, 0, parts.len() as int);
            assert(last_index_of(root_path(), '/') < 0) by {
                last_index_of_is_last(root_path(), '/');
                last_index_of_unique(root_path(), '/', -1);
            }
            assert(components(root_path()) == seq![root_path()]);
            assert(parts == seq![root_path()].push(path.subrange(index + 1, path.len() as int)));
            assert(parts[0] == root_path());
            assert(checks(0) is Ok);
            assert(false);
        }
    }
}

/// An identifier that passes its check is accepted.
proof fn checked_name_is_accepted(path: Seq<char>, file: bool, policy: IdentifierPolicy, known: IdentifierPolicy)
    requires
        path_check(path, file, policy) is Ok,
    ensures
        policy_with(known, name_of(path), file) is Ok,
{
    name_is_last_component(path);
    let parts = components(path);
    let checks = component_checks(parts, file, policy);
    first_failure_ok(checks, 0, parts.len() as int);
    assert(checks(parts.len() - 1) is Ok);
    assert(component_check(name_of(path), file, policy) is Ok);
}

/// The name of a file is what stands before its version.
pub proof fn version_is_cut(name: Seq<char>)
    ensures
        split_last(name + version_text(), ';') == Some((name, seq!['1'])),
        parsed_byte(seq!['1'], 10) == Some(1u8),
{
    let text = name + version_text();
    last_index_of_unique(text, ';', name.len() as int);
    assert(text.subrange(0, name.len() as int) =~= name);
    assert(text.subrange(name.len() as int + 1, text.len() as int) =~= seq!['1']);
    let one = seq!['1'];
    assert(unsigned(one) == one);
    assert(one.drop_last() =~= Seq::<char>::empty());
    assert(number_value(one.drop_last(), 10) == 0);
    assert(number_value(one, 10) == 1);
}

/// The flags of a record tell what its node is.
pub proof fn flags_tell(directory: bool, hidden: bool, associated: bool)
    ensures
        ({
            let flags = record_flags(directory, hidden, associated);
            &&& (flags & 2 != 0) == directory
            &&& (flags & 1 != 0) == hidden
            &&& (flags & 4 != 0) == associated
            &&& flags & 0xf8 == 0
            &&& flags & 2 == (if directory {
                2u8
            } else {
                0u8
            })
        }),
{
    let flags = record_flags(directory, hidden, associated);
    assert(flags == 0 || flags == 1 || flags == 2 || flags == 3 || flags == 4 || flags == 5 || flags
        == 6 || flags == 7);
    assert(0u8 & 2 == 0 && 1u8 & 2 == 0 && 2u8 & 2 == 2 && 3u8 & 2 == 2 && 4u8 & 2 == 0 && 5u8 & 2
        == 0 && 6u8 & 2 == 2 && 7u8 & 2 == 2 && 0u8 & 1 == 0 && 1u8 & 1 == 1 && 2u8 & 1 == 0 && 3u8
        & 1 == 1 && 4u8 & 1 == 0 && 5u8 & 1 == 1 && 6u8 & 1 == 0 && 7u8 & 1 == 1 && 0u8 & 4 == 0
        && 1u8 & 4 == 0 && 2u8 & 4 == 0 && 3u8 & 4 == 0 && 4u8 & 4 == 4 && 5u8 & 4 == 4 && 6u8 & 4
        == 4 && 7u8 & 4 == 4 && 0u8 & 0xf8 == 0 && 1u8 & 0xf8 == 0 && 2u8 & 0xf8 == 0 && 3u8 & 0xf8
        == 0 && 4u8 & 0xf8 == 0 && 5u8 & 0xf8 == 0 && 6u8 & 0xf8 == 0 && 7u8 & 0xf8 == 0)
        by (bit_vector);
}

/// The XA data that is written for an entry is accepted when it is read.
pub proof fn written_xa_is_accepted(path: Seq<char>, xa: Option<EntryXaModel>, directory: bool, present: bool, data: Seq<u8>)
    requires
        system_use_bytes(path, xa, directory, present) == Ok::<Seq<u8>, Failure>(data),
    ensures
        parsed_xa(data, directory, data.len() > 0) is Ok,
        present == (data.len() > 0),
{
    if present {
        let attributes = attributes_of(xa, directory);
        let permissions = permissions_of(xa);
        let raw = permissions | attributes.0;
        let field = field(data, 4, 2);
        assert(field =~= be16(raw));
        assert(from_be16(field) == raw);
        if !directory {
            let value = attributes.0;
            assert(value & 0x8000 == 0 && permissions & 0xf800 == 0 ==> ((permissions | value)
                & 0xf800) & 0x8000 == 0) by (bit_vector);
        }
    }
}

/// The record of an entry in the directory that holds it, as it is read.
pub open spec fn model_at(iso: IsoModel, spots: Seq<SpotModel>, trailing: bool, index: int) -> RecordModel {
    let node = primary_nodes(iso)[index];
    node_model(
        node,
        spots[index].extent,
        spots[index].length->Ok_0,
        node.identifier,
        node.directory,
        trailing,
        node.system_use,
    )
}

/// The XA data of an entry, as it is read.
pub open spec fn xa_at(iso: IsoModel, spots: Seq<SpotModel>, trailing: bool, index: int) -> Option<EntryXaModel> {
    let record = model_at(iso, spots, trailing, index);
    parsed_xa(
        record.system_use,
        primary_nodes(iso)[index].directory,
        uses_xa(record, iso.xa_system_use),
    )->Ok_0
}

/// An entry, as it is read from the blocks of an image.
pub open spec fn read_entry(
    iso: IsoModel,
    spots: Seq<SpotModel>,
    trailing: bool,
    blocks: Seq<Block>,
    index: int,
) -> EntryModel {
    found_entry(
        blocks,
        model_at(iso, spots, trailing, index),
        iso.entries[index].path,
        xa_at(iso, spots, trailing, index),
    )
}

/// What is found of an entry: its path, and where its record points.
pub open spec fn found_at(iso: IsoModel, spots: Seq<SpotModel>, trailing: bool, index: int) -> FoundModel {
    let record = model_at(iso, spots, trailing, index);
    FoundModel { path: iso.entries[index].path, extent: record.extent, length: record.length }
}

/// What a walk tells besides the entries and the directories that it finds.
#[verifier::ext_equal]
pub struct Tally {
    pub files: Seq<FoundModel>,
    pub omissions: Seq<Seq<char>>,
    pub policy: IdentifierPolicy,
}

/// What a walk tells besides entries and directories.
pub open spec fn tally_of(walk: WalkModel) -> Tally {
    Tally { files: walk.files, omissions: walk.omissions, policy: walk.identifier_policy }
}

/// What is told after one more entry: where it lies if it is a file that is no
/// audio, that its record has no XA data if others have, and that its name is no
/// standard one.
pub open spec fn tally_with(
    iso: IsoModel,
    spots: Seq<SpotModel>,
    trailing: bool,
    index: int,
    tally: Tally,
) -> Tally {
    let node = primary_nodes(iso)[index];
    let path = iso.entries[index].path;
    Tally {
        files: if !node.directory && !is_cdda(xa_at(iso, spots, trailing, index)) {
            tally.files.push(found_at(iso, spots, trailing, index))
        } else {
            tally.files
        },
        omissions: if iso.xa_system_use && !node.system_use {
            tally.omissions.push(path)
        } else {
            tally.omissions
        },
        policy: if is_level1(name_of(path), !node.directory) {
            tally.policy
        } else {
            IdentifierPolicy::NonstandardAscii
        },
    }
}

/// The record of an entry can be written.
pub open spec fn is_written(iso: IsoModel, spots: Seq<SpotModel>, index: int) -> bool {
    let node = primary_nodes(iso)[index];
    &&& spots[index].length is Ok
    &&& recording_time_bytes(node.recording_time) is Ok
    &&& system_use_bytes(node.path, node.xa, node.directory, node.system_use) is Ok
}

/// The name of a record is the name of its entry.
pub proof fn name_is_read(iso: IsoModel, spots: Seq<SpotModel>, trailing: bool, index: int)
    requires
        0 <= index < iso.entries.len(),
    ensures
        recorded_name(model_at(iso, spots, trailing, index)) == Ok::<Seq<char>, Failure>(
            name_of(iso.entries[index].path),
        ),
        is_directory_record(model_at(iso, spots, trailing, index)) == primary_nodes(
            iso,
        )[index].directory,
{
    let node = primary_nodes(iso)[index];
    let path = iso.entries[index].path;
    flags_tell(node.directory, node.hidden, node.associated);
    let text = primary_identifier(path, is_file(iso, path));
    vstd::utf8::encode_utf8_valid_utf8(text);
    vstd::utf8::encode_utf8_decode_utf8(text);
    version_is_cut(name_of(path));
}

/// An entry's record is read as the entry.
proof fn child_is_read(
    iso: IsoModel,
    spots: Seq<SpotModel>,
    trailing: bool,
    blocks: Seq<Block>,
    index: int,
    walk: WalkModel,
)
    requires
        is_tree(iso),
        0 < index < iso.entries.len(),
        is_written(iso, spots, index),
    ensures
        ({
            let next = with_child(
                blocks,
                iso.xa_system_use,
                joined_parent(parent_of(iso.entries[index].path)),
                walk,
                model_at(iso, spots, trailing, index),
            );
            let directory = primary_nodes(iso)[index].directory;
            &&& next is Ok
            &&& next->Ok_0.entries == walk.entries.push(
                read_entry(iso, spots, trailing, blocks, index),
            )
            &&& next->Ok_0.directories == if directory {
                walk.directories.push(found_at(iso, spots, trailing, index))
            } else {
                walk.directories
            }
            &&& tally_of(next->Ok_0) == tally_with(iso, spots, trailing, index, tally_of(walk))
            &&& next->Ok_0.parent_time == walk.parent_time
            &&& next->Ok_0.observation == walk.observation
        }),
{
    let node = primary_nodes(iso)[index];
    let path = iso.entries[index].path;
    let record = model_at(iso, spots, trailing, index);
    assert(entry_check(iso, index) is Ok);
    assert(place_check(iso, index) is Ok);
    let file = is_file(iso, path);
    assert(iso.entries[0].path == root_path());
    assert(path != root_path());
    name_is_read(iso, spots, trailing, index);
    parent_is_named(path, file, iso.identifier_policy);
    checked_path_joins(path, file, iso.identifier_policy);
    checked_name_is_accepted(path, file, iso.identifier_policy, walk.identifier_policy);
    written_xa_is_accepted(node.path, node.xa, node.directory, node.system_use, record.system_use);
    assert(uses_xa(record, iso.xa_system_use) == (record.system_use.len() > 0));
}

/// The record of an entry passes the checks of a directory's records.
proof fn child_is_listed(iso: IsoModel, spots: Seq<SpotModel>, trailing: bool, index: int, position: int)
    requires
        is_tree(iso),
        0 <= index < iso.entries.len(),
        is_written(iso, spots, index),
        position >= 2,
    ensures
        listed_record_check(model_at(iso, spots, trailing, index), position, iso.xa_system_use)
            is Ok,
{
    let node = primary_nodes(iso)[index];
    let record = model_at(iso, spots, trailing, index);
    flags_tell(node.directory, node.hidden, node.associated);
    written_xa_is_accepted(node.path, node.xa, node.directory, node.system_use, record.system_use);
    assert(uses_xa(record, iso.xa_system_use) == (record.system_use.len() > 0));
}

/// A record of a directory itself or of the one above passes the checks of a
/// directory's records.
pub proof fn dot_is_listed(
    iso: IsoModel,
    node: NodeModel,
    extent: u32,
    length: u32,
    name: Seq<u8>,
    trailing: bool,
    position: int,
)
    requires
        system_use_bytes(node.path, node.xa, true, iso.xa_system_use) is Ok,
    ensures
        ({
            let record = node_model(
                node,
                extent,
                length,
                name,
                true,
                trailing,
                iso.xa_system_use,
            );
            &&& listed_record_check(record, position, iso.xa_system_use) is Ok
            &&& (record.system_use.len() > 0) == iso.xa_system_use
            &&& parsed_xa(record.system_use, true, iso.xa_system_use) is Ok
        }),
{
    let record = node_model(node, extent, length, name, true, trailing, iso.xa_system_use);
    flags_tell(true, node.hidden, node.associated);
    written_xa_is_accepted(node.path, node.xa, true, iso.xa_system_use, record.system_use);
}

/// `read`, and then the entries from `index` on that lie in a directory.
pub open spec fn child_entries_from(
    iso: IsoModel,
    spots: Seq<SpotModel>,
    trailing: bool,
    blocks: Seq<Block>,
    path: Seq<char>,
    index: int,
    read: Seq<EntryModel>,
) -> Seq<EntryModel>
    decreases iso.entries.len() - index,
{
    if index < 0 || index >= iso.entries.len() {
        read
    } else if is_child(primary_nodes(iso)[index], path) {
        child_entries_from(
            iso,
            spots,
            trailing,
            blocks,
            path,
            index + 1,
            read.push(read_entry(iso, spots, trailing, blocks, index)),
        )
    } else {
        child_entries_from(iso, spots, trailing, blocks, path, index + 1, read)
    }
}

/// `found`, and then the directories from `index` on that lie in a directory.
pub open spec fn child_directories_from(
    iso: IsoModel,
    spots: Seq<SpotModel>,
    trailing: bool,
    path: Seq<char>,
    index: int,
    found: Seq<FoundModel>,
) -> Seq<FoundModel>
    decreases iso.entries.len() - index,
{
    if index < 0 || index >= iso.entries.len() {
        found
    } else if is_subdirectory(primary_nodes(iso)[index], path) {
        child_directories_from(
            iso,
            spots,
            trailing,
            path,
            index + 1,
            found.push(found_at(iso, spots, trailing, index)),
        )
    } else {
        child_directories_from(iso, spots, trailing, path, index + 1, found)
    }
}

/// What is told after the entries from `index` on that lie in a directory.
pub open spec fn child_tally_from(
    iso: IsoModel,
    spots: Seq<SpotModel>,
    trailing: bool,
    path: Seq<char>,
    index: int,
    tally: Tally,
) -> Tally
    decreases iso.entries.len() - index,
{
    if index < 0 || index >= iso.entries.len() {
        tally
    } else if is_child(primary_nodes(iso)[index], path) {
        child_tally_from(
            iso,
            spots,
            trailing,
            path,
            index + 1,
            tally_with(iso, spots, trailing, index, tally),
        )
    } else {
        child_tally_from(iso, spots, trailing, path, index + 1, tally)
    }
}

/// The records of everything that lies in a directory can be written.
pub open spec fn children_are_written(iso: IsoModel, spots: Seq<SpotModel>, path: Seq<char>) -> bool {
    forall|k: int|
        0 <= k < iso.entries.len() && is_child(#[trigger] primary_nodes(iso)[k], path)
            ==> is_written(iso, spots, k)
}

/// The records that were made first stay first.
pub proof fn models_stay_first(
    nodes: Seq<NodeModel>,
    spots: Seq<SpotModel>,
    path: Seq<char>,
    trailing: bool,
    index: int,
    made: Seq<RecordModel>,
)
    requires
        0 <= index,
    ensures
        ({
            let all = child_models_from(nodes, spots, path, trailing, index, made);
            &&& all.len() >= made.len()
            &&& forall|i: int| 0 <= i < made.len() ==> all[i] == made[i]
        }),
    decreases nodes.len() - index,
{
    if index < nodes.len() {
        if is_child(nodes[index], path) {
            let node = nodes[index];
            let more = made.push(
                node_model(
                    node,
                    spots[index].extent,
                    spots[index].length->Ok_0,
                    node.identifier,
                    node.directory,
                    trailing,
                    node.system_use,
                ),
            );
            models_stay_first(nodes, spots, path, trailing, index + 1, more);
            let all = child_models_from(nodes, spots, path, trailing, index, made);
            assert forall|i: int| 0 <= i < made.len() implies all[i] == made[i] by {
                assert(all[i] == more[i]);
            }
        } else {
            models_stay_first(nodes, spots, path, trailing, index + 1, made);
        }
    }
}

/// The records of what lies in a directory pass their checks.
pub proof fn children_are_listed(
    iso: IsoModel,
    spots: Seq<SpotModel>,
    trailing: bool,
    path: Seq<char>,
    index: int,
    made: Seq<RecordModel>,
)
    requires
        is_tree(iso),
        children_are_written(iso, spots, path),
        0 <= index,
        made.len() >= 2,
        forall|i: int|
            0 <= i < made.len() ==> listed_record_check(#[trigger] made[i], i, iso.xa_system_use)
                is Ok,
    ensures
        ({
            let all = child_models_from(primary_nodes(iso), spots, path, trailing, index, made);
            forall|i: int|
                0 <= i < all.len() ==> listed_record_check(#[trigger] all[i], i, iso.xa_system_use)
                    is Ok
        }),
    decreases iso.entries.len() - index,
{
    let nodes = primary_nodes(iso);
    if index < nodes.len() {
        if is_child(nodes[index], path) {
            let model = model_at(iso, spots, trailing, index);
            let more = made.push(model);
            child_is_listed(iso, spots, trailing, index, made.len() as int);
            assert forall|i: int| 0 <= i < more.len() implies listed_record_check(
                #[trigger] more[i],
                i,
                iso.xa_system_use,
            ) is Ok by {
                if i < made.len() {
                    assert(more[i] == made[i]);
                }
            }
            children_are_listed(iso, spots, trailing, path, index + 1, more);
        } else {
            children_are_listed(iso, spots, trailing, path, index + 1, made);
        }
    }
}

/// The records of what lies in a directory are read as its entries.
pub proof fn children_are_read(
    iso: IsoModel,
    spots: Seq<SpotModel>,
    trailing: bool,
    blocks: Seq<Block>,
    path: Seq<char>,
    index: int,
    made: Seq<RecordModel>,
    walk: WalkModel,
)
    requires
        is_tree(iso),
        children_are_written(iso, spots, path),
        0 <= index,
    ensures
        ({
            let records = child_models_from(primary_nodes(iso), spots, path, trailing, index, made);
            let next = with_children_from(
                blocks,
                iso.xa_system_use,
                joined_parent(path),
                walk,
                records,
                made.len() as int,
            );
            &&& next is Ok
            &&& next->Ok_0.entries == child_entries_from(
                iso,
                spots,
                trailing,
                blocks,
                path,
                index,
                walk.entries,
            )
            &&& next->Ok_0.directories == child_directories_from(
                iso,
                spots,
                trailing,
                path,
                index,
                walk.directories,
            )
            &&& tally_of(next->Ok_0) == child_tally_from(
                iso,
                spots,
                trailing,
                path,
                index,
                tally_of(walk),
            )
            &&& next->Ok_0.parent_time == walk.parent_time
            &&& next->Ok_0.observation == walk.observation
        }),
    decreases iso.entries.len() - index,
{
    let nodes = primary_nodes(iso);
    let records = child_models_from(nodes, spots, path, trailing, index, made);
    if index < nodes.len() {
        if is_child(nodes[index], path) {
            let model = model_at(iso, spots, trailing, index);
            let more = made.push(model);
            models_stay_first(nodes, spots, path, trailing, index + 1, more);
            assert(records[made.len() as int] == more[made.len() as int]);
            assert(iso.entries[0].path == root_path());
            child_is_read(iso, spots, trailing, blocks, index, walk);
            let next = with_child(blocks, iso.xa_system_use, joined_parent(path), walk, model)->Ok_0;
            children_are_read(iso, spots, trailing, blocks, path, index + 1, more, next);
        } else {
            children_are_read(iso, spots, trailing, blocks, path, index + 1, made, walk);
        }
    }
}

} // verus!
